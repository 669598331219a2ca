//! One peer session: a negotiation state machine together with its media
//! bridge binding. The binding is activated exactly when negotiation
//! reaches `Connected` and torn down exactly once on `close` or `fail`.

use crate::errors::SignalError;
use crate::msg::SignalingMessage;
use crate::negotiation::CandidateDisposition;
use crate::negotiation::Negotiation;
use crate::negotiation::NegotiationView;
use crate::negotiation::close_spec;
use crate::negotiation::established_spec;
use crate::negotiation::fail_spec;
use crate::negotiation::fresh_view;
use crate::negotiation::initiate_spec;
use crate::negotiation::on_remote_answer_spec;
use crate::negotiation::on_remote_candidate_spec;
use crate::negotiation::on_remote_offer_spec;
use crate::negotiation::view_msg_result;
use crate::negotiation::view_opt_msg_result;
use crate::negotiation::CallState;
use vstd::prelude::*;

verus! {

/// Abstract view of a peer session.
#[verifier::ext_equal]
pub struct SessionView {
    pub neg: NegotiationView,
    /// Whether the media bridge is bound to the negotiated transport.
    pub media_active: bool,
}

/// Effect of `close` on a session: the machine rests in `Closed`, the
/// media binding is torn down; the boolean reports whether a teardown
/// side effect actually happened.
pub open spec fn close_session_spec(s: SessionView) -> (SessionView, bool) {
    (SessionView { neg: close_spec(s.neg), media_active: false }, s.media_active)
}

/// Effect of `fail` on a session: the machine moves to `Failed` (if not
/// already terminal) and the media binding is torn down.
pub open spec fn fail_session_spec(s: SessionView, reason: Seq<char>) -> (SessionView, bool) {
    (
        SessionView { neg: fail_spec(s.neg, reason).0, media_active: false },
        s.media_active,
    )
}

/// One live session with a remote peer.
pub struct PeerSession {
    negotiation: Negotiation,
    media_active: bool,
}

impl View for PeerSession {
    type V = SessionView;

    closed spec fn view(&self) -> SessionView {
        SessionView { neg: self.negotiation@, media_active: self.media_active }
    }
}

impl PeerSession {
    /// A fresh session for `remote_id`: machine `Idle`, no media binding.
    pub fn new(local_id: String, remote_id: String, room: String) -> (r: PeerSession)
        ensures
            r@.neg == fresh_view(local_id@, remote_id@, room@),
            !r@.media_active,
    {
        PeerSession { negotiation: Negotiation::new(local_id, remote_id, room), media_active: false }
    }

    /// The current negotiation state.
    pub fn state(&self) -> (s: CallState)
        ensures
            s == self@.neg.state,
    {
        self.negotiation.state()
    }

    /// The remote peer of this session.
    pub fn remote_id(&self) -> (r: &String)
        ensures
            r@ == self@.neg.remote_id,
    {
        self.negotiation.remote_id()
    }

    /// Whether the media bridge is currently bound.
    pub fn media_active(&self) -> (r: bool)
        ensures
            r == self@.media_active,
    {
        self.media_active
    }

    /// How many duplicate or out-of-order messages were ignored.
    pub fn warnings(&self) -> (w: u64)
        ensures
            w as nat == self@.neg.warnings,
    {
        self.negotiation.warnings()
    }

    /// The candidates applied so far, in application order.
    pub fn applied_candidates(&self) -> (r: &Vec<String>)
        ensures
            r@.map_values(|c: String| c@) == self@.neg.applied,
    {
        self.negotiation.applied_candidates()
    }

    /// Start a negotiation round toward this peer.
    pub fn initiate(&mut self, local_sdp: String) -> (r: Result<SignalingMessage, SignalError>)
        ensures
            final(self)@.neg == initiate_spec(old(self)@.neg, local_sdp@).0,
            final(self)@.media_active == old(self)@.media_active,
            view_msg_result(r) == initiate_spec(old(self)@.neg, local_sdp@).1,
    {
        self.negotiation.initiate(local_sdp)
    }

    /// Apply a remote offer, answering with the supplied description.
    pub fn on_remote_offer(&mut self, sdp: String, answer_sdp: String) -> (r: Result<
        Option<SignalingMessage>,
        SignalError,
    >)
        requires
            old(self)@.neg.warnings < u64::MAX,
        ensures
            final(self)@.neg == on_remote_offer_spec(old(self)@.neg, sdp@, answer_sdp@).0,
            final(self)@.media_active == old(self)@.media_active,
            view_opt_msg_result(r) == on_remote_offer_spec(old(self)@.neg, sdp@, answer_sdp@).1,
    {
        self.negotiation.on_remote_offer(sdp, answer_sdp)
    }

    /// Apply a remote answer to our offer.
    pub fn on_remote_answer(&mut self, sdp: String) -> (r: Result<(), SignalError>)
        requires
            old(self)@.neg.warnings < u64::MAX,
        ensures
            final(self)@.neg == on_remote_answer_spec(old(self)@.neg, sdp@).0,
            final(self)@.media_active == old(self)@.media_active,
            r == on_remote_answer_spec(old(self)@.neg, sdp@).1,
    {
        self.negotiation.on_remote_answer(sdp)
    }

    /// Take delivery of a remote connectivity candidate.
    pub fn on_remote_candidate(&mut self, cand: String) -> (r: CandidateDisposition)
        ensures
            final(self)@.neg == on_remote_candidate_spec(old(self)@.neg, cand@).0,
            final(self)@.media_active == old(self)@.media_active,
            r == on_remote_candidate_spec(old(self)@.neg, cand@).1,
    {
        self.negotiation.on_remote_candidate(cand)
    }

    /// The transport reports an established path: on success the session
    /// reaches `Connected` and the media bridge binding is activated.
    pub fn on_transport_established(&mut self) -> (r: Result<(), SignalError>)
        ensures
            final(self)@.neg == established_spec(old(self)@.neg).0,
            r == established_spec(old(self)@.neg).1,
            final(self)@.media_active == (old(self)@.media_active || r is Ok),
    {
        let r = self.negotiation.on_transport_established();
        if r.is_ok() {
            self.media_active = true;
        }
        r
    }

    /// Terminal failure: records the reason, tears the media binding down.
    /// The result reports whether a teardown side effect happened.
    pub fn fail(&mut self, reason: String) -> (r: bool)
        ensures
            (final(self)@, r) == fail_session_spec(old(self)@, reason@),
    {
        self.negotiation.fail(reason);
        let was_active = self.media_active;
        self.media_active = false;
        proof {
            assert(final(self)@ =~= fail_session_spec(old(self)@, reason@).0);
        }
        was_active
    }

    /// Graceful teardown: the session rests in `Closed`; idempotent. The
    /// result reports whether a teardown side effect happened.
    pub fn close(&mut self) -> (r: bool)
        ensures
            (final(self)@, r) == close_session_spec(old(self)@),
    {
        self.negotiation.close();
        let was_active = self.media_active;
        self.media_active = false;
        proof {
            assert(final(self)@ =~= close_session_spec(old(self)@).0);
        }
        was_active
    }
}

/// Closing a session twice gives the same observable final state as
/// closing it once — `Closed`, media unbound — and the second close
/// performs no teardown side effect.
pub proof fn lemma_close_idempotent(s: SessionView)
    ensures
        ({
            let (s1, t1) = close_session_spec(s);
            let (s2, t2) = close_session_spec(s1);
            &&& s2 == s1
            &&& s1.neg.state is Closed
            &&& t1 == s.media_active
            &&& t2 == false
        }),
{
    let (s1, t1) = close_session_spec(s);
    let (s2, t2) = close_session_spec(s1);
    assert(s2 =~= s1);
}

} // verus!
