//! Per-peer negotiation state machine: offer/answer/candidate exchange for
//! one remote peer, with glare resolution, candidate buffering, duplicate
//! detection and terminal failure/teardown states.
//!
//! Every transition has a spec-level twin (`*_spec`) over the machine's
//! abstract view; the executable methods promise to realise exactly that
//! twin, and the laws at the end of the module are proved over the twins.

use crate::errors::SignalError;
use crate::msg::MsgView;
use crate::msg::SignalingMessage;
use crate::order::lex_lt;
use crate::order::lemma_lex_trichotomy;
use crate::order::str_lex_lt;
use vstd::prelude::*;

verus! {

/// The negotiation states. `OfferReceived` is passed through atomically by
/// `on_remote_offer`, which answers immediately; it is never a resting
/// state. `Closed` and `Failed` are terminal.
#[derive(Clone, Copy, Debug, PartialEq, Eq, Structural)]
pub enum CallState {
    Idle,
    OfferSent,
    OfferReceived,
    AnsweringOrAwaitingAnswer,
    Connected,
    Closed,
    Failed,
}

/// States from which no further negotiation transition is possible.
pub open spec fn is_terminal(s: CallState) -> bool {
    s is Closed || s is Failed
}

/// What a received candidate became.
#[derive(Clone, Copy, Debug, PartialEq, Eq, Structural)]
pub enum CandidateDisposition {
    /// The remote description was already applied: applied at once.
    Applied,
    /// No remote description yet: kept to be flushed when it lands.
    Buffered,
    /// The session is terminal: the candidate is stale and discarded.
    Dropped,
}

/// Abstract view of one negotiation machine.
#[verifier::ext_equal]
pub struct NegotiationView {
    pub state: CallState,
    pub local_id: Seq<char>,
    pub remote_id: Seq<char>,
    pub room: Seq<char>,
    /// True while this side is the effective offerer of the current round.
    pub is_offerer: bool,
    /// True once a remote offer or answer has been applied.
    pub remote_desc_applied: bool,
    /// Candidates received before the remote description, awaiting it.
    pub pending: Seq<Seq<char>>,
    /// Candidates applied to the transport, in application order.
    pub applied: Seq<Seq<char>>,
    /// Count of ignored duplicate or out-of-order messages.
    pub warnings: nat,
    /// The reason recorded by `fail`, if the machine failed.
    pub failure: Option<Seq<char>>,
}

/// One negotiation state machine, for a single remote peer.
pub struct Negotiation {
    state: CallState,
    local_id: String,
    remote_id: String,
    room: String,
    is_offerer: bool,
    remote_desc_applied: bool,
    pending: Vec<String>,
    applied: Vec<String>,
    warnings: u64,
    failure: Option<String>,
}

impl View for Negotiation {
    type V = NegotiationView;

    closed spec fn view(&self) -> NegotiationView {
        NegotiationView {
            state: self.state,
            local_id: self.local_id@,
            remote_id: self.remote_id@,
            room: self.room@,
            is_offerer: self.is_offerer,
            remote_desc_applied: self.remote_desc_applied,
            pending: self.pending@.map_values(|c: String| c@),
            applied: self.applied@.map_values(|c: String| c@),
            warnings: self.warnings as nat,
            failure: match &self.failure {
                Some(r) => Some(r@),
                None => None,
            },
        }
    }
}

/// The freshly created machine: `Idle`, nothing buffered, nothing recorded.
pub open spec fn fresh_view(
    local_id: Seq<char>,
    remote_id: Seq<char>,
    room: Seq<char>,
) -> NegotiationView {
    NegotiationView {
        state: CallState::Idle,
        local_id,
        remote_id,
        room,
        is_offerer: false,
        remote_desc_applied: false,
        pending: Seq::empty(),
        applied: Seq::empty(),
        warnings: 0,
        failure: None,
    }
}

/// The view after accepting a remote offer and answering it: the remote
/// description is applied, buffered candidates flush, and this side is the
/// answerer resting in `AnsweringOrAwaitingAnswer`.
pub open spec fn accept_offer_view(m: NegotiationView) -> NegotiationView {
    NegotiationView {
        state: CallState::AnsweringOrAwaitingAnswer,
        is_offerer: false,
        remote_desc_applied: true,
        applied: m.applied + m.pending,
        pending: Seq::empty(),
        ..m
    }
}

/// Effect of `initiate`: from `Idle` it makes this side the offerer and
/// emits the offer; from anywhere else it is refused unchanged.
pub open spec fn initiate_spec(m: NegotiationView, sdp: Seq<char>) -> (NegotiationView, Result<
    MsgView,
    SignalError,
>) {
    if m.state is Idle {
        (
            NegotiationView { state: CallState::OfferSent, is_offerer: true, ..m },
            Ok(
                MsgView::Offer {
                    room: m.room,
                    sdp,
                    from: m.local_id,
                    to: m.remote_id,
                },
            ),
        )
    } else {
        (m, Err(SignalError::AlreadyNegotiating))
    }
}

/// Effect of `on_remote_offer`. From `Idle` the offer is accepted and
/// answered. From `OfferSent` both sides have offered (glare): the side
/// with the lexicographically smaller identifier discards its own offer
/// and answers the incoming one; the other side keeps its offer and
/// ignores the incoming one with a recorded warning. A repeated offer
/// after the remote description is applied is a duplicate: ignored with a
/// warning. In a terminal state the offer is refused.
pub open spec fn on_remote_offer_spec(
    m: NegotiationView,
    sdp: Seq<char>,
    answer_sdp: Seq<char>,
) -> (NegotiationView, Result<Option<MsgView>, SignalError>) {
    let answer = MsgView::Answer {
        room: m.room,
        sdp: answer_sdp,
        from: m.local_id,
        to: m.remote_id,
    };
    if m.state is Idle {
        (accept_offer_view(m), Ok(Some(answer)))
    } else if m.state is OfferSent {
        if lex_lt(m.local_id, m.remote_id) {
            (accept_offer_view(m), Ok(Some(answer)))
        } else {
            (NegotiationView { warnings: m.warnings + 1, ..m }, Ok(None))
        }
    } else if !is_terminal(m.state) {
        (NegotiationView { warnings: m.warnings + 1, ..m }, Ok(None))
    } else {
        (m, Err(SignalError::InvalidTransition))
    }
}

/// Effect of `on_remote_answer`. Valid only from `OfferSent`: the answer
/// is applied, buffered candidates flush, and the machine awaits the
/// transport. A repeated answer to the effective offerer is a duplicate:
/// ignored with a warning. Anywhere else, `Idle` included, it is refused
/// unchanged.
pub open spec fn on_remote_answer_spec(m: NegotiationView, sdp: Seq<char>) -> (NegotiationView,
    Result<(), SignalError>,
) {
    if m.state is OfferSent {
        (
            NegotiationView {
                state: CallState::AnsweringOrAwaitingAnswer,
                remote_desc_applied: true,
                applied: m.applied + m.pending,
                pending: Seq::empty(),
                ..m
            },
            Ok(()),
        )
    } else if (m.state is AnsweringOrAwaitingAnswer || m.state is Connected) && m.is_offerer {
        (NegotiationView { warnings: m.warnings + 1, ..m }, Ok(()))
    } else {
        (m, Err(SignalError::InvalidTransition))
    }
}

/// Effect of `on_remote_candidate`: stale in a terminal state, applied at
/// once after the remote description, buffered before it.
pub open spec fn on_remote_candidate_spec(m: NegotiationView, cand: Seq<char>) -> (NegotiationView,
    CandidateDisposition,
) {
    if is_terminal(m.state) {
        (m, CandidateDisposition::Dropped)
    } else if m.remote_desc_applied {
        (
            NegotiationView { applied: m.applied.push(cand), ..m },
            CandidateDisposition::Applied,
        )
    } else {
        (
            NegotiationView { pending: m.pending.push(cand), ..m },
            CandidateDisposition::Buffered,
        )
    }
}

/// Effect of `on_transport_established`: the transport reports an
/// established path, completing `AnsweringOrAwaitingAnswer` to
/// `Connected`; in any other state the report is refused unchanged.
pub open spec fn established_spec(m: NegotiationView) -> (NegotiationView, Result<
    (),
    SignalError,
>) {
    if m.state is AnsweringOrAwaitingAnswer {
        (NegotiationView { state: CallState::Connected, ..m }, Ok(()))
    } else {
        (m, Err(SignalError::InvalidTransition))
    }
}

/// Effect of `fail`: from any non-terminal state the machine moves to
/// `Failed` and records the reason; the boolean reports whether the
/// transition happened (and teardown is owed). Terminal states stay.
pub open spec fn fail_spec(m: NegotiationView, reason: Seq<char>) -> (NegotiationView, bool) {
    if is_terminal(m.state) {
        (m, false)
    } else {
        (NegotiationView { state: CallState::Failed, failure: Some(reason), ..m }, true)
    }
}

/// Effect of `close`: from any state the machine rests in `Closed`;
/// applying it twice is the same as applying it once.
pub open spec fn close_spec(m: NegotiationView) -> NegotiationView {
    NegotiationView { state: CallState::Closed, ..m }
}

impl Negotiation {
    /// A fresh machine for `remote_id`, in `Idle`.
    pub fn new(local_id: String, remote_id: String, room: String) -> (r: Negotiation)
        ensures
            r@ == fresh_view(local_id@, remote_id@, room@),
    {
        let r = Negotiation {
            state: CallState::Idle,
            local_id,
            remote_id,
            room,
            is_offerer: false,
            remote_desc_applied: false,
            pending: Vec::new(),
            applied: Vec::new(),
            warnings: 0,
            failure: None,
        };
        proof {
            assert(r@ =~= fresh_view(r.local_id@, r.remote_id@, r.room@));
        }
        r
    }

    /// The current state, for routing and user-facing reports.
    pub fn state(&self) -> (s: CallState)
        ensures
            s == self@.state,
    {
        self.state
    }

    /// The remote peer this machine negotiates with.
    pub fn remote_id(&self) -> (r: &String)
        ensures
            r@ == self@.remote_id,
    {
        &self.remote_id
    }

    /// How many duplicate or out-of-order messages were ignored.
    pub fn warnings(&self) -> (w: u64)
        ensures
            w as nat == self@.warnings,
    {
        self.warnings
    }

    /// The candidates applied so far, in application order.
    pub fn applied_candidates(&self) -> (r: &Vec<String>)
        ensures
            r@.map_values(|c: String| c@) == self@.applied,
    {
        &self.applied
    }

    /// Start a negotiation round: produce the local offer for transport.
    pub fn initiate(&mut self, local_sdp: String) -> (r: Result<SignalingMessage, SignalError>)
        ensures
            final(self)@ == initiate_spec(old(self)@, local_sdp@).0,
            view_msg_result(r) == initiate_spec(old(self)@, local_sdp@).1,
    {
        match self.state {
            CallState::Idle => {
                self.state = CallState::OfferSent;
                self.is_offerer = true;
                let offer = SignalingMessage::Offer {
                    room: self.room.clone(),
                    sdp: local_sdp,
                    from: self.local_id.clone(),
                    to: self.remote_id.clone(),
                };
                proof {
                    assert(final(self)@ =~= initiate_spec(old(self)@, local_sdp@).0);
                }
                Ok(offer)
            },
            _ => Err(SignalError::AlreadyNegotiating),
        }
    }

    /// Apply a remote offer; the caller supplies the opaque description the
    /// media layer minted for the local answer.
    pub fn on_remote_offer(&mut self, sdp: String, answer_sdp: String) -> (r: Result<
        Option<SignalingMessage>,
        SignalError,
    >)
        requires
            old(self)@.warnings < u64::MAX,
        ensures
            final(self)@ == on_remote_offer_spec(old(self)@, sdp@, answer_sdp@).0,
            view_opt_msg_result(r) == on_remote_offer_spec(old(self)@, sdp@, answer_sdp@).1,
    {
        match self.state {
            CallState::Idle => {
                let answer = self.accept_remote_offer(answer_sdp);
                Ok(Some(answer))
            },
            CallState::OfferSent => {
                if str_lex_lt(self.local_id.as_str(), self.remote_id.as_str()) {
                    let answer = self.accept_remote_offer(answer_sdp);
                    Ok(Some(answer))
                } else {
                    self.warnings = self.warnings + 1;
                    proof {
                        assert(final(self)@ =~= on_remote_offer_spec(old(self)@, sdp@, answer_sdp@).0);
                    }
                    Ok(None)
                }
            },
            CallState::OfferReceived | CallState::AnsweringOrAwaitingAnswer
                | CallState::Connected => {
                self.warnings = self.warnings + 1;
                proof {
                    assert(final(self)@ =~= on_remote_offer_spec(old(self)@, sdp@, answer_sdp@).0);
                }
                Ok(None)
            },
            CallState::Closed | CallState::Failed => Err(SignalError::InvalidTransition),
        }
    }

    /// Accept the incoming offer: apply the remote description, flush the
    /// buffered candidates, and produce the local answer message.
    fn accept_remote_offer(&mut self, answer_sdp: String) -> (r: SignalingMessage)
        ensures
            final(self)@ == accept_offer_view(old(self)@),
            r@ == (MsgView::Answer {
                room: old(self)@.room,
                sdp: answer_sdp@,
                from: old(self)@.local_id,
                to: old(self)@.remote_id,
            }),
    {
        self.state = CallState::AnsweringOrAwaitingAnswer;
        self.is_offerer = false;
        self.remote_desc_applied = true;
        self.applied.append(&mut self.pending);
        let answer = SignalingMessage::Answer {
            room: self.room.clone(),
            sdp: answer_sdp,
            from: self.local_id.clone(),
            to: self.remote_id.clone(),
        };
        proof {
            assert(old(self)@.applied + old(self)@.pending =~= final(self)@.applied);
            assert(final(self)@ =~= accept_offer_view(old(self)@));
        }
        answer
    }

    /// Apply a remote answer to our offer.
    pub fn on_remote_answer(&mut self, sdp: String) -> (r: Result<(), SignalError>)
        requires
            old(self)@.warnings < u64::MAX,
        ensures
            final(self)@ == on_remote_answer_spec(old(self)@, sdp@).0,
            r == on_remote_answer_spec(old(self)@, sdp@).1,
    {
        match self.state {
            CallState::OfferSent => {
                self.state = CallState::AnsweringOrAwaitingAnswer;
                self.remote_desc_applied = true;
                self.applied.append(&mut self.pending);
                proof {
                    assert(old(self)@.applied + old(self)@.pending =~= final(self)@.applied);
                    assert(final(self)@ =~= on_remote_answer_spec(old(self)@, sdp@).0);
                }
                Ok(())
            },
            CallState::AnsweringOrAwaitingAnswer | CallState::Connected => {
                if self.is_offerer {
                    self.warnings = self.warnings + 1;
                    proof {
                        assert(final(self)@ =~= on_remote_answer_spec(old(self)@, sdp@).0);
                    }
                    Ok(())
                } else {
                    Err(SignalError::InvalidTransition)
                }
            },
            _ => Err(SignalError::InvalidTransition),
        }
    }

    /// Take delivery of a remote connectivity candidate.
    pub fn on_remote_candidate(&mut self, cand: String) -> (r: CandidateDisposition)
        ensures
            final(self)@ == on_remote_candidate_spec(old(self)@, cand@).0,
            r == on_remote_candidate_spec(old(self)@, cand@).1,
    {
        match self.state {
            CallState::Closed | CallState::Failed => CandidateDisposition::Dropped,
            _ => {
                if self.remote_desc_applied {
                    self.applied.push(cand);
                    proof {
                        assert(final(self)@ =~= on_remote_candidate_spec(old(self)@, cand@).0);
                    }
                    CandidateDisposition::Applied
                } else {
                    self.pending.push(cand);
                    proof {
                        assert(final(self)@ =~= on_remote_candidate_spec(old(self)@, cand@).0);
                    }
                    CandidateDisposition::Buffered
                }
            },
        }
    }

    /// The transport reports an established path.
    pub fn on_transport_established(&mut self) -> (r: Result<(), SignalError>)
        ensures
            final(self)@ == established_spec(old(self)@).0,
            r == established_spec(old(self)@).1,
    {
        match self.state {
            CallState::AnsweringOrAwaitingAnswer => {
                self.state = CallState::Connected;
                proof {
                    assert(final(self)@ =~= established_spec(old(self)@).0);
                }
                Ok(())
            },
            _ => Err(SignalError::InvalidTransition),
        }
    }

    /// Terminal failure; the result says whether teardown is owed.
    pub fn fail(&mut self, reason: String) -> (r: bool)
        ensures
            final(self)@ == fail_spec(old(self)@, reason@).0,
            r == fail_spec(old(self)@, reason@).1,
    {
        match self.state {
            CallState::Closed | CallState::Failed => false,
            _ => {
                self.state = CallState::Failed;
                self.failure = Some(reason);
                proof {
                    assert(final(self)@ =~= fail_spec(old(self)@, reason@).0);
                }
                true
            },
        }
    }

    /// Graceful teardown; idempotent.
    pub fn close(&mut self)
        ensures
            final(self)@ == close_spec(old(self)@),
    {
        self.state = CallState::Closed;
        proof {
            assert(final(self)@ =~= close_spec(old(self)@));
        }
    }
}

/// The abstract value of a message result.
pub open spec fn view_msg_result(r: Result<SignalingMessage, SignalError>) -> Result<
    MsgView,
    SignalError,
> {
    match r {
        Ok(m) => Ok(m@),
        Err(e) => Err(e),
    }
}

/// The abstract value of an optional-message result.
pub open spec fn view_opt_msg_result(r: Result<Option<SignalingMessage>, SignalError>) -> Result<
    Option<MsgView>,
    SignalError,
> {
    match r {
        Ok(Some(m)) => Ok(Some(m@)),
        Ok(None) => Ok(None),
        Err(e) => Err(e),
    }
}

/// An answer that arrives before `initiate` is refused with
/// `InvalidTransition` and leaves the machine `Idle`, untouched.
pub proof fn lemma_answer_before_initiate(m: NegotiationView, sdp: Seq<char>)
    requires
        m.state is Idle,
    ensures
        on_remote_answer_spec(m, sdp).0 == m,
        on_remote_answer_spec(m, sdp).1 == Err::<(), SignalError>(SignalError::InvalidTransition),
{
}

/// Glare resolution: when two peers offer to each other simultaneously,
/// exactly one side remains the effective offerer, deterministically for
/// every pair of distinct peer identifiers; the other side answers the
/// incoming offer, and the ignoring side records a warning.
pub proof fn lemma_glare_resolution(
    a: NegotiationView,
    b: NegotiationView,
    sdp_a: Seq<char>,
    sdp_b: Seq<char>,
    ans_a: Seq<char>,
    ans_b: Seq<char>,
)
    requires
        a.state is Idle,
        b.state is Idle,
        a.local_id == b.remote_id,
        a.remote_id == b.local_id,
        a.local_id != a.remote_id,
    ensures
        ({
            let a1 = initiate_spec(a, sdp_a).0;
            let b1 = initiate_spec(b, sdp_b).0;
            let (a2, ra) = on_remote_offer_spec(a1, sdp_b, ans_a);
            let (b2, rb) = on_remote_offer_spec(b1, sdp_a, ans_b);
            &&& a2.is_offerer != b2.is_offerer
            &&& !a2.is_offerer ==> a2.state is AnsweringOrAwaitingAnswer && (ra matches Ok(
                Some(ans),
            ) && ans is Answer) && b2.state is OfferSent && b2.warnings == b.warnings + 1
            &&& !b2.is_offerer ==> b2.state is AnsweringOrAwaitingAnswer && (rb matches Ok(
                Some(ans),
            ) && ans is Answer) && a2.state is OfferSent && a2.warnings == a.warnings + 1
        }),
{
    lemma_lex_trichotomy(a.local_id, a.remote_id);
}

/// Candidate buffering, offer side: a candidate delivered while the
/// machine is still `Idle` is buffered, and applying the remote offer
/// flushes it into the applied set. No candidate is lost.
pub proof fn lemma_candidate_kept_across_offer(
    m: NegotiationView,
    cand: Seq<char>,
    sdp: Seq<char>,
    ans: Seq<char>,
)
    requires
        m.state is Idle,
        !m.remote_desc_applied,
    ensures
        ({
            let m1 = on_remote_candidate_spec(m, cand).0;
            let m2 = on_remote_offer_spec(m1, sdp, ans).0;
            &&& on_remote_candidate_spec(m, cand).1 is Buffered
            &&& m1.pending.contains(cand)
            &&& m2.applied.contains(cand)
            &&& m2.remote_desc_applied
        }),
{
    let m1 = on_remote_candidate_spec(m, cand).0;
    let m2 = on_remote_offer_spec(m1, sdp, ans).0;
    assert(m1.pending[m1.pending.len() - 1] == cand);
    assert(m2.applied == m1.applied + m1.pending);
    assert(m2.applied[m1.applied.len() + m1.pending.len() - 1] == cand);
}

/// Candidate buffering, answer side: a candidate that races ahead of the
/// answer while our offer is out is buffered, and applying the remote
/// answer flushes it into the applied set. No candidate is lost.
pub proof fn lemma_candidate_kept_across_answer(m: NegotiationView, cand: Seq<char>, sdp: Seq<char>)
    requires
        m.state is OfferSent,
        !m.remote_desc_applied,
    ensures
        ({
            let m1 = on_remote_candidate_spec(m, cand).0;
            let m2 = on_remote_answer_spec(m1, sdp).0;
            &&& on_remote_candidate_spec(m, cand).1 is Buffered
            &&& m1.pending.contains(cand)
            &&& m2.applied.contains(cand)
            &&& m2.remote_desc_applied
        }),
{
    let m1 = on_remote_candidate_spec(m, cand).0;
    let m2 = on_remote_answer_spec(m1, sdp).0;
    assert(m1.pending[m1.pending.len() - 1] == cand);
    assert(m2.applied == m1.applied + m1.pending);
    assert(m2.applied[m1.applied.len() + m1.pending.len() - 1] == cand);
}

/// Closing is idempotent at the machine level: a second `close` changes
/// nothing.
pub proof fn lemma_close_idempotent_machine(m: NegotiationView)
    ensures
        close_spec(close_spec(m)) == close_spec(m),
        close_spec(m).state is Closed,
{
    assert(close_spec(close_spec(m)) =~= close_spec(m));
}

} // verus!
