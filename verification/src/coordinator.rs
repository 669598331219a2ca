//! The session coordinator: the single routing point between the UI
//! intent channel, the signaling transport, and the per-peer sessions.
//! It owns the registry and the session table; each inbound intent or
//! relay message is routed to exactly one session, creating one where the
//! protocol calls for it.

use crate::errors::SignalError;
use crate::msg::SignalingMessage;
use crate::negotiation::CallState;
use crate::negotiation::CandidateDisposition;
use crate::negotiation::fresh_view;
use crate::negotiation::initiate_spec;
use crate::negotiation::established_spec;
use crate::negotiation::on_remote_answer_spec;
use crate::negotiation::on_remote_candidate_spec;
use crate::negotiation::on_remote_offer_spec;
use crate::negotiation::view_msg_result;
use crate::negotiation::view_opt_msg_result;
use crate::registry::Registry;
use crate::session::PeerSession;
use crate::session::SessionView;
use crate::session::close_session_spec;
use crate::session::fail_session_spec;
use vstd::prelude::*;

verus! {

/// An event published to the presentation collaborator.
#[derive(Clone, Debug, PartialEq, Eq)]
pub enum Event {
    PeerListUpdated { peers: Vec<String> },
    CallStateChanged { peer: String, state: CallState },
}

/// The abstract value of an event.
pub enum EventView {
    PeerListUpdated { peers: Seq<Seq<char>> },
    CallStateChanged { peer: Seq<char>, state: CallState },
}

impl View for Event {
    type V = EventView;

    open spec fn view(&self) -> EventView {
        match self {
            Event::PeerListUpdated { peers } => EventView::PeerListUpdated {
                peers: peers@.map_values(|p: String| p@),
            },
            Event::CallStateChanged { peer, state } => EventView::CallStateChanged {
                peer: peer@,
                state: *state,
            },
        }
    }
}

/// Abstract view of the coordinator.
#[verifier::ext_equal]
pub struct CoordinatorView {
    pub local_id: Seq<char>,
    pub room: Seq<char>,
    pub peers: Seq<Seq<char>>,
    pub sessions: Seq<SessionView>,
}

/// Is there a session for `peer`?
pub open spec fn has_session(ss: Seq<SessionView>, peer: Seq<char>) -> bool {
    exists|i: int| 0 <= i < ss.len() && ss[i].neg.remote_id == peer
}

/// The index of the session for `peer`; under `coord_wf` there is at most
/// one.
pub open spec fn idx_of(ss: Seq<SessionView>, peer: Seq<char>) -> int {
    choose|i: int| 0 <= i < ss.len() && ss[i].neg.remote_id == peer
}

/// A fresh session view for `peer`.
pub open spec fn fresh_session(local: Seq<char>, peer: Seq<char>, room: Seq<char>) -> SessionView {
    SessionView { neg: fresh_view(local, peer, room), media_active: false }
}

/// The session table with a session for `peer` guaranteed: the table as
/// it is, or with a fresh session appended.
pub open spec fn ensure_session(c: CoordinatorView, peer: Seq<char>) -> Seq<SessionView> {
    if has_session(c.sessions, peer) {
        c.sessions
    } else {
        c.sessions.push(fresh_session(c.local_id, peer, c.room))
    }
}

/// Coordinator well-formedness: at most one session per remote peer, and
/// every session carries this coordinator's identity and room.
pub open spec fn coord_wf(c: CoordinatorView) -> bool {
    &&& forall|i: int, j: int|
        0 <= i < j < c.sessions.len() ==> c.sessions[i].neg.remote_id != c.sessions[j].neg.remote_id
    &&& forall|i: int|
        0 <= i < c.sessions.len() ==> (#[trigger] c.sessions[i].neg.local_id) == c.local_id
            && c.sessions[i].neg.room == c.room
}

/// Every session can still record a warning without overflowing its
/// counter; a machine limit, trivially true in any real run.
pub open spec fn warnings_ok(c: CoordinatorView) -> bool {
    forall|i: int|
        0 <= i < c.sessions.len() ==> (#[trigger] c.sessions[i].neg.warnings) < u64::MAX
}

/// The single routing point of the core.
pub struct Coordinator {
    registry: Registry,
    room: String,
    sessions: Vec<PeerSession>,
}

impl View for Coordinator {
    type V = CoordinatorView;

    closed spec fn view(&self) -> CoordinatorView {
        CoordinatorView {
            local_id: self.registry@.local_id,
            room: self.room@,
            peers: self.registry@.peers,
            sessions: self.sessions@.map_values(|s: PeerSession| s@),
        }
    }
}

impl Coordinator {
    /// A coordinator for one local identity in one room, with no sessions.
    pub fn new(local_id: String, room: String) -> (r: Coordinator)
        ensures
            r@.local_id == local_id@,
            r@.room == room@,
            r@.peers == Seq::<Seq<char>>::empty(),
            r@.sessions == Seq::<SessionView>::empty(),
            coord_wf(r@),
            warnings_ok(r@),
    {
        let r = Coordinator { registry: Registry::new(local_id), room, sessions: Vec::new() };
        proof {
            assert(r@.sessions =~= Seq::<SessionView>::empty());
        }
        r
    }

    /// This peer's identity.
    pub fn local_id(&self) -> (r: &String)
        ensures
            r@ == self@.local_id,
    {
        self.registry.local_id()
    }

    /// The last-known peers in the room.
    pub fn peers(&self) -> (r: &Vec<String>)
        ensures
            r@.map_values(|p: String| p@) == self@.peers,
    {
        self.registry.peers()
    }

    /// Find the session for `peer`.
    fn find_session(&self, peer: &String) -> (r: Option<usize>)
        ensures
            match r {
                Some(i) => i < self@.sessions.len() && self@.sessions[i as int].neg.remote_id
                    == peer@,
                None => !has_session(self@.sessions, peer@),
            },
    {
        let mut i: usize = 0;
        while i < self.sessions.len()
            invariant
                i <= self.sessions.len(),
                forall|j: int| 0 <= j < i ==> self@.sessions[j].neg.remote_id != peer@,
            decreases self.sessions.len() - i,
        {
            if *self.sessions[i].remote_id() == *peer {
                proof {
                    assert(self@.sessions[i as int].neg.remote_id == peer@);
                }
                return Some(i);
            }
            i = i + 1;
        }
        proof {
            assert(!has_session(self@.sessions, peer@));
        }
        None
    }

    /// The negotiation state of the session for `peer`, if one exists.
    pub fn session_state(&self, peer: &String) -> (r: Option<CallState>)
        requires
            coord_wf(self@),
        ensures
            match r {
                Some(st) => has_session(self@.sessions, peer@) && st == self@.sessions[idx_of(
                    self@.sessions,
                    peer@,
                )].neg.state,
                None => !has_session(self@.sessions, peer@),
            },
    {
        match self.find_session(peer) {
            Some(i) => {
                proof {
                    let k = idx_of(self@.sessions, peer@);
                    if k != i as int {
                        assert(self@.sessions[k].neg.remote_id == peer@);
                    }
                }
                Some(self.sessions[i].state())
            },
            None => None,
        }
    }

    /// Make sure a session for `peer` exists; returns its index.
    fn ensure_session_exec(&mut self, peer: &String) -> (i: usize)
        requires
            coord_wf(old(self)@),
        ensures
            final(self)@.sessions == ensure_session(old(self)@, peer@),
            final(self)@.local_id == old(self)@.local_id,
            final(self)@.room == old(self)@.room,
            final(self)@.peers == old(self)@.peers,
            i < final(self)@.sessions.len(),
            final(self)@.sessions[i as int].neg.remote_id == peer@,
            coord_wf(final(self)@),
            warnings_ok(old(self)@) ==> warnings_ok(final(self)@),
    {
        match self.find_session(peer) {
            Some(i) => i,
            None => {
                let local = self.registry.local_id().clone();
                let s = PeerSession::new(local, peer.clone(), self.room.clone());
                let i = self.sessions.len();
                self.sessions.push(s);
                proof {
                    assert(final(self)@.sessions =~= old(self)@.sessions.push(
                        fresh_session(old(self)@.local_id, peer@, old(self)@.room),
                    ));
                }
                i
            },
        }
    }

    /// Handle the `InitiateCall` intent: make sure `peer` has a session
    /// and start a negotiation round on it; the caller supplies the local
    /// description the media layer minted. On success the offer message
    /// to forward comes back; a session already negotiating refuses with
    /// `AlreadyNegotiating`.
    pub fn initiate_call(&mut self, peer: String, local_sdp: String) -> (r: Result<
        SignalingMessage,
        SignalError,
    >)
        requires
            coord_wf(old(self)@),
        ensures
            coord_wf(final(self)@),
            final(self)@.local_id == old(self)@.local_id,
            final(self)@.room == old(self)@.room,
            final(self)@.peers == old(self)@.peers,
            ({
                let base = ensure_session(old(self)@, peer@);
                let i = idx_of(base, peer@);
                let (neg2, res) = initiate_spec(base[i].neg, local_sdp@);
                &&& final(self)@.sessions == base.update(
                    i,
                    SessionView { neg: neg2, media_active: base[i].media_active },
                )
                &&& view_msg_result(r) == res
            }),
            warnings_ok(old(self)@) ==> warnings_ok(final(self)@),
    {
        let i = self.ensure_session_exec(&peer);
        let ghost base = self@.sessions;
        let mut s = self.sessions.remove(i);
        let r = s.initiate(local_sdp);
        self.sessions.insert(i, s);
        proof {
            let k = idx_of(base, peer@);
            if k != i as int {
                assert(base[k].neg.remote_id == peer@);
            }
            assert(final(self)@.sessions =~= base.update(
                i as int,
                SessionView {
                    neg: initiate_spec(base[i as int].neg, local_sdp@).0,
                    media_active: base[i as int].media_active,
                },
            ));
        }
        r
    }

    /// Replace the cached peer list with the relay's broadcast and tell
    /// the presentation collaborator.
    pub fn on_peer_list(&mut self, peers: Vec<String>) -> (e: Event)
        ensures
            final(self)@.peers == peers@.map_values(|p: String| p@),
            final(self)@.local_id == old(self)@.local_id,
            final(self)@.room == old(self)@.room,
            final(self)@.sessions == old(self)@.sessions,
            e@ matches EventView::PeerListUpdated { peers: ps } && ps == peers@.map_values(
                |p: String| p@,
            ),
    {
        let copy = clone_peers(&peers);
        self.registry.set_peers(peers);
        Event::PeerListUpdated { peers: copy }
    }

    /// Route an inbound offer from `from`: find or create its session and
    /// apply the offer; the caller supplies the local description for the
    /// answer. The answer to forward comes back when this side answers.
    pub fn on_offer(&mut self, from: String, sdp: String, answer_sdp: String) -> (r: Result<
        Option<SignalingMessage>,
        SignalError,
    >)
        requires
            coord_wf(old(self)@),
            warnings_ok(old(self)@),
        ensures
            coord_wf(final(self)@),
            final(self)@.local_id == old(self)@.local_id,
            final(self)@.room == old(self)@.room,
            final(self)@.peers == old(self)@.peers,
            ({
                let base = ensure_session(old(self)@, from@);
                let i = idx_of(base, from@);
                let (neg2, res) = on_remote_offer_spec(base[i].neg, sdp@, answer_sdp@);
                &&& final(self)@.sessions == base.update(
                    i,
                    SessionView { neg: neg2, media_active: base[i].media_active },
                )
                &&& view_opt_msg_result(r) == res
            }),
    {
        let i = self.ensure_session_exec(&from);
        let ghost base = self@.sessions;
        let mut s = self.sessions.remove(i);
        let r = s.on_remote_offer(sdp, answer_sdp);
        self.sessions.insert(i, s);
        proof {
            let k = idx_of(base, from@);
            if k != i as int {
                assert(base[k].neg.remote_id == from@);
            }
            assert(final(self)@.sessions =~= base.update(
                i as int,
                SessionView {
                    neg: on_remote_offer_spec(base[i as int].neg, sdp@, answer_sdp@).0,
                    media_active: base[i as int].media_active,
                },
            ));
        }
        r
    }

    /// Route an inbound answer from `from` to its session. An answer for
    /// an unknown peer is protocol misuse: refused unchanged.
    pub fn on_answer(&mut self, from: &String, sdp: String) -> (r: Result<(), SignalError>)
        requires
            coord_wf(old(self)@),
            warnings_ok(old(self)@),
        ensures
            coord_wf(final(self)@),
            final(self)@.local_id == old(self)@.local_id,
            final(self)@.room == old(self)@.room,
            final(self)@.peers == old(self)@.peers,
            !has_session(old(self)@.sessions, from@) ==> final(self)@ == old(self)@ && r == Err::<
                (),
                SignalError,
            >(SignalError::InvalidTransition),
            has_session(old(self)@.sessions, from@) ==> ({
                let i = idx_of(old(self)@.sessions, from@);
                let (neg2, res) = on_remote_answer_spec(old(self)@.sessions[i].neg, sdp@);
                &&& final(self)@.sessions == old(self)@.sessions.update(
                    i,
                    SessionView {
                        neg: neg2,
                        media_active: old(self)@.sessions[i].media_active,
                    },
                )
                &&& r == res
            }),
    {
        match self.find_session(from) {
            None => {
                proof {
                    assert(final(self)@ =~= old(self)@);
                }
                Err(SignalError::InvalidTransition)
            },
            Some(i) => {
                let ghost base = self@.sessions;
                let mut s = self.sessions.remove(i);
                let r = s.on_remote_answer(sdp);
                self.sessions.insert(i, s);
                proof {
                    let k = idx_of(base, from@);
                    if k != i as int {
                        assert(base[k].neg.remote_id == from@);
                    }
                    assert(final(self)@.sessions =~= base.update(
                        i as int,
                        SessionView {
                            neg: on_remote_answer_spec(base[i as int].neg, sdp@).0,
                            media_active: base[i as int].media_active,
                        },
                    ));
                    let neg2 = on_remote_answer_spec(base[i as int].neg, sdp@).0;
                    assert(neg2.remote_id == base[i as int].neg.remote_id);
                    assert(neg2.local_id == base[i as int].neg.local_id);
                    assert(neg2.room == base[i as int].neg.room);
                    let fs = final(self)@.sessions;
                    assert forall|a: int, b: int| 0 <= a < b < fs.len() implies fs[a].neg.remote_id
                        != fs[b].neg.remote_id by {
                        assert(fs[a].neg.remote_id == base[a].neg.remote_id);
                        assert(fs[b].neg.remote_id == base[b].neg.remote_id);
                    }
                    assert forall|a: int| 0 <= a < fs.len() implies (#[trigger] fs[a].neg.local_id)
                        == final(self)@.local_id && fs[a].neg.room == final(self)@.room by {
                        assert(fs[a].neg.local_id == base[a].neg.local_id);
                        assert(fs[a].neg.room == base[a].neg.room);
                    }
                    assert(coord_wf(final(self)@));
                }
                r
            },
        }
    }

    /// Route an inbound candidate from `from`. A candidate for an unknown
    /// peer may be stale from a torn-down session: dropped silently.
    pub fn on_candidate(&mut self, from: &String, cand: String) -> (r: CandidateDisposition)
        requires
            coord_wf(old(self)@),
        ensures
            coord_wf(final(self)@),
            final(self)@.local_id == old(self)@.local_id,
            final(self)@.room == old(self)@.room,
            final(self)@.peers == old(self)@.peers,
            warnings_ok(old(self)@) ==> warnings_ok(final(self)@),
            !has_session(old(self)@.sessions, from@) ==> final(self)@ == old(self)@ && r
                is Dropped,
            has_session(old(self)@.sessions, from@) ==> ({
                let i = idx_of(old(self)@.sessions, from@);
                let (neg2, res) = on_remote_candidate_spec(old(self)@.sessions[i].neg, cand@);
                &&& final(self)@.sessions == old(self)@.sessions.update(
                    i,
                    SessionView {
                        neg: neg2,
                        media_active: old(self)@.sessions[i].media_active,
                    },
                )
                &&& r == res
            }),
    {
        match self.find_session(from) {
            None => {
                proof {
                    assert(final(self)@ =~= old(self)@);
                }
                CandidateDisposition::Dropped
            },
            Some(i) => {
                let ghost base = self@.sessions;
                let mut s = self.sessions.remove(i);
                let r = s.on_remote_candidate(cand);
                self.sessions.insert(i, s);
                proof {
                    let k = idx_of(base, from@);
                    if k != i as int {
                        assert(base[k].neg.remote_id == from@);
                    }
                    assert(final(self)@.sessions =~= base.update(
                        i as int,
                        SessionView {
                            neg: on_remote_candidate_spec(base[i as int].neg, cand@).0,
                            media_active: base[i as int].media_active,
                        },
                    ));
                }
                r
            },
        }
    }

    /// The transport for `peer` reports an established path: its session
    /// reaches `Connected`, its media bridge binding is activated, and a
    /// state-change event comes back for the presentation collaborator.
    pub fn on_established(&mut self, peer: &String) -> (r: Result<Event, SignalError>)
        requires
            coord_wf(old(self)@),
        ensures
            coord_wf(final(self)@),
            final(self)@.local_id == old(self)@.local_id,
            final(self)@.room == old(self)@.room,
            final(self)@.peers == old(self)@.peers,
            warnings_ok(old(self)@) ==> warnings_ok(final(self)@),
            !has_session(old(self)@.sessions, peer@) ==> final(self)@ == old(self)@ && r is Err,
            has_session(old(self)@.sessions, peer@) ==> ({
                let i = idx_of(old(self)@.sessions, peer@);
                let (neg2, res) = established_spec(old(self)@.sessions[i].neg);
                &&& final(self)@.sessions == old(self)@.sessions.update(
                    i,
                    SessionView {
                        neg: neg2,
                        media_active: old(self)@.sessions[i].media_active || res is Ok,
                    },
                )
                &&& (res is Ok <==> r is Ok)
                &&& r matches Ok(e) ==> e@ == (EventView::CallStateChanged {
                    peer: peer@,
                    state: CallState::Connected,
                })
            }),
            r is Err ==> r == Err::<Event, SignalError>(SignalError::InvalidTransition),
    {
        match self.find_session(peer) {
            None => {
                proof {
                    assert(final(self)@ =~= old(self)@);
                }
                Err(SignalError::InvalidTransition)
            },
            Some(i) => {
                let ghost base = self@.sessions;
                let mut s = self.sessions.remove(i);
                let r = s.on_transport_established();
                self.sessions.insert(i, s);
                proof {
                    let k = idx_of(base, peer@);
                    if k != i as int {
                        assert(base[k].neg.remote_id == peer@);
                    }
                    let res = established_spec(base[i as int].neg).1;
                    assert(final(self)@.sessions =~= base.update(
                        i as int,
                        SessionView {
                            neg: established_spec(base[i as int].neg).0,
                            media_active: base[i as int].media_active || res is Ok,
                        },
                    ));
                    let neg2 = established_spec(base[i as int].neg).0;
                    assert(neg2.remote_id == base[i as int].neg.remote_id);
                    assert(neg2.local_id == base[i as int].neg.local_id);
                    assert(neg2.room == base[i as int].neg.room);
                    assert(coord_wf(final(self)@));
                }
                match r {
                    Ok(_) => Ok(
                        Event::CallStateChanged { peer: peer.clone(), state: CallState::Connected },
                    ),
                    Err(e) => Err(e),
                }
            },
        }
    }

    /// Close the session for `peer` gracefully; reports whether a media
    /// teardown side effect happened. Closing an unknown peer does
    /// nothing.
    pub fn close_session(&mut self, peer: &String) -> (r: bool)
        requires
            coord_wf(old(self)@),
        ensures
            coord_wf(final(self)@),
            final(self)@.local_id == old(self)@.local_id,
            final(self)@.room == old(self)@.room,
            final(self)@.peers == old(self)@.peers,
            warnings_ok(old(self)@) ==> warnings_ok(final(self)@),
            !has_session(old(self)@.sessions, peer@) ==> final(self)@ == old(self)@ && r == false,
            has_session(old(self)@.sessions, peer@) ==> ({
                let i = idx_of(old(self)@.sessions, peer@);
                let (s2, torn) = close_session_spec(old(self)@.sessions[i]);
                &&& final(self)@.sessions == old(self)@.sessions.update(i, s2)
                &&& r == torn
            }),
    {
        match self.find_session(peer) {
            None => {
                proof {
                    assert(final(self)@ =~= old(self)@);
                }
                false
            },
            Some(i) => {
                let ghost base = self@.sessions;
                let mut s = self.sessions.remove(i);
                let r = s.close();
                self.sessions.insert(i, s);
                proof {
                    let k = idx_of(base, peer@);
                    if k != i as int {
                        assert(base[k].neg.remote_id == peer@);
                    }
                    assert(final(self)@.sessions =~= base.update(
                        i as int,
                        close_session_spec(base[i as int]).0,
                    ));
                }
                r
            },
        }
    }

    /// The relay link is lost: fail every live session, tearing their
    /// media bindings down. Fatal to all sessions, never to the process.
    pub fn fail_all(&mut self, reason: &String)
        requires
            coord_wf(old(self)@),
        ensures
            coord_wf(final(self)@),
            final(self)@.local_id == old(self)@.local_id,
            final(self)@.room == old(self)@.room,
            final(self)@.peers == old(self)@.peers,
            final(self)@.sessions.len() == old(self)@.sessions.len(),
            forall|i: int|
                0 <= i < old(self)@.sessions.len() ==> #[trigger] final(self)@.sessions[i]
                    == fail_session_spec(old(self)@.sessions[i], reason@).0,
    {
        let n = self.sessions.len();
        let mut i: usize = 0;
        while i < n
            invariant
                n == self.sessions.len(),
                n == old(self)@.sessions.len(),
                i <= n,
                coord_wf(old(self)@),
                self@.local_id == old(self)@.local_id,
                self@.room == old(self)@.room,
                self@.peers == old(self)@.peers,
                forall|j: int|
                    i <= j < n ==> #[trigger] self@.sessions[j] == old(self)@.sessions[j],
                forall|j: int|
                    0 <= j < i ==> #[trigger] self@.sessions[j] == fail_session_spec(
                        old(self)@.sessions[j],
                        reason@,
                    ).0,
            decreases n - i,
        {
            let ghost base = self@.sessions;
            let mut s = self.sessions.remove(i);
            s.fail(reason.clone());
            self.sessions.insert(i, s);
            proof {
                assert(self@.sessions =~= base.update(
                    i as int,
                    fail_session_spec(base[i as int], reason@).0,
                ));
            }
            i = i + 1;
        }
        proof {
            assert(coord_wf(final(self)@)) by {
                assert(forall|j: int|
                    0 <= j < n ==> (#[trigger] final(self)@.sessions[j]).neg.remote_id == old(
                        self,
                    )@.sessions[j].neg.remote_id && final(self)@.sessions[j].neg.local_id == old(
                        self,
                    )@.sessions[j].neg.local_id && final(self)@.sessions[j].neg.room == old(
                        self,
                    )@.sessions[j].neg.room);
            }
        }
    }
}

/// Clone a peer list for the update event.
fn clone_peers(peers: &Vec<String>) -> (r: Vec<String>)
    ensures
        r@.map_values(|p: String| p@) == peers@.map_values(|p: String| p@),
{
    let mut r: Vec<String> = Vec::new();
    let mut i: usize = 0;
    while i < peers.len()
        invariant
            i <= peers.len(),
            r@.map_values(|p: String| p@) == peers@.map_values(|p: String| p@).take(i as int),
        decreases peers.len() - i,
    {
        let c = peers[i].clone();
        let ghost r0v = r@.map_values(|p: String| p@);
        r.push(c);
        proof {
            let pv = peers@.map_values(|p: String| p@);
            assert(r@.map_values(|p: String| p@) =~= r0v.push(c@));
            assert(c@ == pv[i as int]);
            assert(r0v.push(c@) =~= pv.take(i as int + 1));
        }
        i = i + 1;
    }
    proof {
        assert(peers@.map_values(|p: String| p@).take(peers@.len() as int) =~= peers@.map_values(
            |p: String| p@,
        ));
    }
    r
}

} // verus!
