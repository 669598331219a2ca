//! The signaling transport model: a single serialized outbound queue and
//! an inbound decoder. The relay link itself (the socket) lives outside;
//! this type owns the ordering and the permanently-closed discipline, so
//! that what is sent is exactly what the single writer puts on the wire,
//! in order.

use crate::codec::decode;
use crate::codec::decode_frames_spec;
use crate::codec::decode_spec;
use crate::codec::encode;
use crate::codec::encode_spec;
use crate::errors::SignalError;
use crate::msg::MsgView;
use crate::msg::SignalingMessage;
use vstd::prelude::*;

verus! {

/// Abstract view of the transport: the frames queued for the single
/// writer, oldest first, and whether the link is down for good.
#[verifier::ext_equal]
pub struct TransportView {
    pub outbound: Seq<Seq<char>>,
    pub closed: bool,
}

/// The outbound half of the relay link: callers enqueue, one writer
/// drains in order. Once closed it stays closed; reconnection policy
/// belongs to the coordinator.
pub struct Transport {
    outbound: Vec<String>,
    closed: bool,
}

impl View for Transport {
    type V = TransportView;

    closed spec fn view(&self) -> TransportView {
        TransportView {
            outbound: self.outbound@.map_values(|f: String| f@),
            closed: self.closed,
        }
    }
}

impl Transport {
    /// A fresh, open transport with nothing queued.
    pub fn new() -> (r: Transport)
        ensures
            r@.outbound == Seq::<Seq<char>>::empty(),
            !r@.closed,
    {
        let r = Transport { outbound: Vec::new(), closed: false };
        proof {
            assert(r@.outbound =~= Seq::<Seq<char>>::empty());
        }
        r
    }

    /// Whether the link is permanently down.
    pub fn is_closed(&self) -> (r: bool)
        ensures
            r == self@.closed,
    {
        self.closed
    }

    /// How many frames wait for the writer.
    pub fn pending(&self) -> (n: usize)
        ensures
            n == self@.outbound.len(),
    {
        self.outbound.len()
    }

    /// Serialize and enqueue one message. The encoding is total, so the
    /// only failure is a closed link.
    pub fn send(&mut self, m: &SignalingMessage) -> (r: Result<(), SignalError>)
        ensures
            old(self)@.closed ==> r == Err::<(), SignalError>(SignalError::TransportClosed)
                && final(self)@ == old(self)@,
            !old(self)@.closed ==> r == Ok::<(), SignalError>(()) && final(self)@.closed == false
                && final(self)@.outbound == old(self)@.outbound.push(encode_spec(m@)),
    {
        if self.closed {
            return Err(SignalError::TransportClosed);
        }
        let frame = encode(m);
        self.outbound.push(frame);
        proof {
            assert(final(self)@.outbound =~= old(self)@.outbound.push(encode_spec(m@)));
        }
        Ok(())
    }

    /// Hand the single writer its next frame, oldest first.
    pub fn next_outbound(&mut self) -> (r: Option<String>)
        ensures
            final(self)@.closed == old(self)@.closed,
            old(self)@.outbound.len() == 0 ==> r is None && final(self)@.outbound == old(
                self,
            )@.outbound,
            old(self)@.outbound.len() > 0 ==> (r matches Some(f) && f@ == old(self)@.outbound[0])
                && final(self)@.outbound == old(self)@.outbound.drop_first(),
    {
        if self.outbound.len() == 0 {
            None
        } else {
            let f = self.outbound.remove(0);
            proof {
                assert(final(self)@.outbound =~= old(self)@.outbound.drop_first());
            }
            Some(f)
        }
    }

    /// A write or read failure happened: the link is down for good.
    pub fn mark_closed(&mut self)
        ensures
            final(self)@.closed,
            final(self)@.outbound == old(self)@.outbound,
    {
        self.closed = true;
    }
}

/// The abstract values of a batch of decoded messages.
pub open spec fn view_msgs(ms: Seq<SignalingMessage>) -> Seq<MsgView> {
    ms.map_values(|m: SignalingMessage| m@)
}

/// Decode an ordered batch of inbound frames: malformed frames are
/// skipped, the rest keep their arrival order.
pub fn decode_frames(frames: &Vec<String>) -> (r: Vec<SignalingMessage>)
    ensures
        view_msgs(r@) == decode_frames_spec(frames@.map_values(|f: String| f@)),
{
    let ghost fv = frames@.map_values(|f: String| f@);
    let mut out: Vec<SignalingMessage> = Vec::new();
    let mut i: usize = 0;
    proof {
        assert(view_msgs(out@) =~= decode_frames_spec(fv.take(0)));
    }
    while i < frames.len()
        invariant
            fv == frames@.map_values(|f: String| f@),
            i <= frames.len(),
            view_msgs(out@) == decode_frames_spec(fv.take(i as int)),
        decreases frames.len() - i,
    {
        let ghost out0 = view_msgs(out@);
        match decode(frames[i].as_str()) {
            Some(m) => {
                out.push(m);
                proof {
                    assert(view_msgs(out@) =~= out0.push(m@));
                }
            },
            None => {},
        }
        proof {
            lemma_decode_frames_snoc(fv, i as int);
            assert(fv.take(i as int).push(fv[i as int]) =~= fv.take(i as int + 1));
            match decode_spec(fv[i as int]) {
                Some(mv) => {
                    assert(view_msgs(out@) =~= decode_frames_spec(fv.take(i as int + 1)));
                },
                None => {
                    assert(view_msgs(out@) =~= decode_frames_spec(fv.take(i as int + 1)));
                },
            }
        }
        i = i + 1;
    }
    proof {
        assert(fv.take(frames@.len() as int) =~= fv);
    }
    out
}

/// Decoding one more frame extends the decoded batch by that frame's
/// message, if it has one.
proof fn lemma_decode_frames_snoc(fv: Seq<Seq<char>>, i: int)
    requires
        0 <= i < fv.len(),
    ensures
        decode_frames_spec(fv.take(i).push(fv[i])) == match decode_spec(fv[i]) {
            Some(m) => decode_frames_spec(fv.take(i)).push(m),
            None => decode_frames_spec(fv.take(i)),
        },
{
    lemma_decode_frames_app(fv.take(i), fv[i]);
}

/// Helper for appending one frame at the end of a batch.
proof fn lemma_decode_frames_app(pre: Seq<Seq<char>>, f: Seq<char>)
    ensures
        decode_frames_spec(pre.push(f)) == match decode_spec(f) {
            Some(m) => decode_frames_spec(pre).push(m),
            None => decode_frames_spec(pre),
        },
    decreases pre.len(),
{
    if pre.len() == 0 {
        assert(pre.push(f).drop_first() =~= Seq::<Seq<char>>::empty());
        assert((pre.push(f))[0] == f);
        assert(decode_frames_spec(pre) =~= Seq::<MsgView>::empty());
        assert(decode_frames_spec(Seq::<Seq<char>>::empty()) =~= Seq::<MsgView>::empty());
        match decode_spec(f) {
            Some(m) => {
                assert(decode_frames_spec(pre.push(f)) =~= seq![m]
                    + decode_frames_spec(Seq::<Seq<char>>::empty()));
                assert(seq![m] + Seq::<MsgView>::empty() =~= decode_frames_spec(pre).push(m));
            },
            None => {},
        }
    } else {
        assert(pre.push(f).drop_first() =~= pre.drop_first().push(f));
        lemma_decode_frames_app(pre.drop_first(), f);
        match decode_spec(pre[0]) {
            Some(m0) => {
                match decode_spec(f) {
                    Some(m) => {
                        assert(seq![m0] + decode_frames_spec(pre.drop_first()).push(m)
                            =~= (seq![m0] + decode_frames_spec(pre.drop_first())).push(m));
                    },
                    None => {},
                }
            },
            None => {},
        }
    }
}

} // verus!
