//! Media bridge buffers: the bounded capture ring that never blocks the
//! hardware callback (oldest frame dropped on overflow), the jitter buffer
//! that reorders inbound packets by sequence number before decode and feeds
//! silence on underrun, and the frame assembler that turns an arbitrary
//! sample stream into complete fixed-size frames.

use crate::errors::SignalError;
use vstd::math::min;
use vstd::prelude::*;

verus! {

/// One fixed-duration block of PCM samples.
#[derive(Debug)]
pub struct AudioFrame {
    samples: Vec<i16>,
}

impl View for AudioFrame {
    type V = Seq<i16>;

    closed spec fn view(&self) -> Seq<i16> {
        self.samples@
    }
}

/// An all-zero frame of `n` samples.
pub open spec fn silence_spec(n: nat) -> Seq<i16> {
    Seq::new(n, |i: int| 0i16)
}

impl AudioFrame {
    /// A frame holding exactly `samples`.
    pub fn new(samples: Vec<i16>) -> (f: AudioFrame)
        ensures
            f@ == samples@,
    {
        AudioFrame { samples }
    }

    /// A silent frame of `n` samples.
    pub fn silence(n: usize) -> (f: AudioFrame)
        ensures
            f@ == silence_spec(n as nat),
    {
        let samples: Vec<i16> = vec![0i16; n];
        proof {
            assert(samples@ =~= silence_spec(n as nat));
        }
        AudioFrame { samples }
    }

    /// The number of samples in this frame.
    pub fn len(&self) -> (n: usize)
        ensures
            n == self@.len(),
    {
        self.samples.len()
    }

    /// The samples themselves.
    pub fn samples(&self) -> (s: &Vec<i16>)
        ensures
            s@ == self@,
    {
        &self.samples
    }
}

/// Abstract view of the capture ring: its capacity and its frames, oldest
/// first.
#[verifier::ext_equal]
pub struct RingView {
    pub cap: nat,
    pub frames: Seq<Seq<i16>>,
}

/// A ring is well formed when it has room to mean something and holds no
/// more than its capacity.
pub open spec fn ring_wf(v: RingView) -> bool {
    &&& v.cap > 0
    &&& v.frames.len() <= v.cap
}

/// Effect of pushing one frame: appended if there is room, otherwise the
/// oldest frame is dropped to make room. Pushing never fails and never
/// waits.
pub open spec fn ring_push_spec(v: RingView, f: Seq<i16>) -> (RingView, Option<Seq<i16>>) {
    if v.frames.len() < v.cap {
        (RingView { frames: v.frames.push(f), ..v }, None)
    } else {
        (RingView { frames: v.frames.drop_first().push(f), ..v }, Some(v.frames[0]))
    }
}

/// Effect of draining one frame, oldest first.
pub open spec fn ring_pop_spec(v: RingView) -> (RingView, Option<Seq<i16>>) {
    if v.frames.len() == 0 {
        (v, None)
    } else {
        (RingView { frames: v.frames.drop_first(), ..v }, Some(v.frames[0]))
    }
}

/// The bounded buffer between the hardware capture callback and the encode
/// worker. The callback pushes, the worker drains; when the worker falls
/// behind, the oldest unsent frame is dropped rather than blocking the
/// callback.
pub struct CaptureRing {
    cap: usize,
    frames: Vec<AudioFrame>,
}

impl View for CaptureRing {
    type V = RingView;

    closed spec fn view(&self) -> RingView {
        RingView { cap: self.cap as nat, frames: self.frames@.map_values(|f: AudioFrame| f@) }
    }
}

impl CaptureRing {
    /// An empty ring for at most `cap` frames.
    pub fn new(cap: usize) -> (r: CaptureRing)
        requires
            cap > 0,
        ensures
            r@.cap == cap as nat,
            r@.frames == Seq::<Seq<i16>>::empty(),
            ring_wf(r@),
    {
        let r = CaptureRing { cap, frames: Vec::new() };
        proof {
            assert(r@.frames =~= Seq::<Seq<i16>>::empty());
        }
        r
    }

    /// How many frames wait to be encoded.
    pub fn len(&self) -> (n: usize)
        ensures
            n == self@.frames.len(),
    {
        self.frames.len()
    }

    /// Push one captured frame; returns the frame that was dropped to make
    /// room, if any. Never fails, never waits.
    pub fn push(&mut self, f: AudioFrame) -> (dropped: Option<AudioFrame>)
        requires
            ring_wf(old(self)@),
        ensures
            ring_wf(final(self)@),
            (final(self)@, view_opt_frame(dropped)) == ring_push_spec(old(self)@, f@),
    {
        if self.frames.len() < self.cap {
            self.frames.push(f);
            proof {
                assert(final(self)@.frames =~= ring_push_spec(old(self)@, f@).0.frames);
                assert(final(self)@ =~= ring_push_spec(old(self)@, f@).0);
            }
            None
        } else {
            let oldest = self.frames.remove(0);
            self.frames.push(f);
            proof {
                assert(final(self)@.frames =~= ring_push_spec(old(self)@, f@).0.frames);
                assert(final(self)@ =~= ring_push_spec(old(self)@, f@).0);
            }
            Some(oldest)
        }
    }

    /// Drain the oldest waiting frame, if any.
    pub fn pop_oldest(&mut self) -> (r: Option<AudioFrame>)
        requires
            ring_wf(old(self)@),
        ensures
            ring_wf(final(self)@),
            (final(self)@, view_opt_frame(r)) == ring_pop_spec(old(self)@),
    {
        if self.frames.len() == 0 {
            None
        } else {
            let oldest = self.frames.remove(0);
            proof {
                assert(final(self)@.frames =~= ring_pop_spec(old(self)@).0.frames);
                assert(final(self)@ =~= ring_pop_spec(old(self)@).0);
            }
            Some(oldest)
        }
    }
}

/// The abstract value of an optional frame.
pub open spec fn view_opt_frame(r: Option<AudioFrame>) -> Option<Seq<i16>> {
    match r {
        Some(f) => Some(f@),
        None => None,
    }
}

/// The ring contents after a whole sequence of pushes into a fresh ring of
/// capacity `cap`, with no drain in between.
pub open spec fn ring_after(cap: nat, pushes: Seq<Seq<i16>>) -> Seq<Seq<i16>>
    decreases pushes.len(),
{
    if pushes.len() == 0 {
        Seq::empty()
    } else {
        let prev = ring_after(cap, pushes.drop_last());
        if prev.len() < cap {
            prev.push(pushes.last())
        } else {
            prev.drop_first().push(pushes.last())
        }
    }
}

/// Capture overflow policy: after any sequence of pushes, the ring holds
/// exactly the most recent `min(n, cap)` frames, in capture order — the
/// oldest frames and only the oldest were dropped, and the push side never
/// had to wait for the drain side.
pub proof fn lemma_capture_keeps_latest(cap: nat, pushes: Seq<Seq<i16>>)
    requires
        cap > 0,
    ensures
        ring_after(cap, pushes).len() == min(pushes.len() as int, cap as int),
        ring_after(cap, pushes) == pushes.skip(pushes.len() - min(pushes.len() as int, cap as int)),
    decreases pushes.len(),
{
    let k = min(pushes.len() as int, cap as int);
    if pushes.len() == 0 {
        assert(ring_after(cap, pushes) =~= pushes.skip(0));
    } else {
        let head = pushes.drop_last();
        lemma_capture_keeps_latest(cap, head);
        let prev = ring_after(cap, head);
        let kh = min(head.len() as int, cap as int);
        if prev.len() < cap {
            assert(prev.push(pushes.last()) =~= pushes.skip(pushes.len() - k)) by {
                assert(prev == head.skip(head.len() - kh));
            }
        } else {
            assert(prev.drop_first().push(pushes.last()) =~= pushes.skip(pushes.len() - k)) by {
                assert(prev == head.skip(head.len() - kh));
            }
        }
    }
}

/// One inbound media packet: a frame tagged with its sequence number.
#[derive(Debug)]
pub struct JitterPacket {
    pub seq_no: u64,
    pub frame: AudioFrame,
}

/// Abstract view of the jitter buffer.
#[verifier::ext_equal]
pub struct JitterView {
    pub frame_size: nat,
    pub cap: nat,
    /// The next sequence number owed to playback.
    pub next_seq: nat,
    /// Waiting packets, strictly ascending by sequence number.
    pub slots: Seq<(nat, Seq<i16>)>,
}

/// Well-formedness of the jitter buffer: bounded, strictly ordered, no
/// packet older than what playback already consumed, every frame complete.
pub open spec fn jitter_wf(v: JitterView) -> bool {
    &&& v.frame_size > 0
    &&& v.cap > 0
    &&& v.slots.len() <= v.cap
    &&& forall|i: int, j: int|
        0 <= i < j < v.slots.len() ==> v.slots[i].0 < v.slots[j].0
    &&& forall|i: int| 0 <= i < v.slots.len() ==> #[trigger] v.slots[i].0 >= v.next_seq
    &&& forall|i: int| 0 <= i < v.slots.len() ==> #[trigger] v.slots[i].1.len() == v.frame_size
}

/// What became of an inserted packet.
#[derive(Clone, Copy, Debug, PartialEq, Eq, Structural)]
pub enum JitterOutcome {
    /// Inserted in order at the given slot index.
    Inserted { at: usize },
    /// Older than what playback already consumed: dropped.
    Late,
    /// A packet with the same sequence number already waits: dropped.
    Duplicate,
    /// The buffer is at its bounded delay: dropped.
    Full,
}

/// The small reorder buffer on the playback path: inbound packets arrive
/// out of order or with jitter and are held, ordered by sequence number,
/// until playback consumes them; on underrun playback is fed silence
/// rather than made to wait.
pub struct JitterBuffer {
    frame_size: usize,
    cap: usize,
    next_seq: u64,
    slots: Vec<JitterPacket>,
}

impl View for JitterBuffer {
    type V = JitterView;

    closed spec fn view(&self) -> JitterView {
        JitterView {
            frame_size: self.frame_size as nat,
            cap: self.cap as nat,
            next_seq: self.next_seq as nat,
            slots: self.slots@.map_values(|p: JitterPacket| (p.seq_no as nat, p.frame@)),
        }
    }
}

impl JitterBuffer {
    /// An empty buffer expecting sequence number 0 first.
    pub fn new(frame_size: usize, cap: usize) -> (r: JitterBuffer)
        requires
            frame_size > 0,
            cap > 0,
        ensures
            jitter_wf(r@),
            r@.frame_size == frame_size as nat,
            r@.cap == cap as nat,
            r@.next_seq == 0,
            r@.slots == Seq::<(nat, Seq<i16>)>::empty(),
    {
        let r = JitterBuffer { frame_size, cap, next_seq: 0, slots: Vec::new() };
        proof {
            assert(r@.slots =~= Seq::<(nat, Seq<i16>)>::empty());
        }
        r
    }

    /// How many packets wait for playback.
    pub fn len(&self) -> (n: usize)
        ensures
            n == self@.slots.len(),
    {
        self.slots.len()
    }

    /// The sequence number playback expects next.
    pub fn next_seq(&self) -> (n: u64)
        ensures
            n as nat == self@.next_seq,
    {
        self.next_seq
    }

    /// Accept one inbound packet, keeping the slots strictly ordered by
    /// sequence number. Late, duplicate and overflowing packets are
    /// dropped, and the outcome says which happened.
    pub fn insert(&mut self, p: JitterPacket) -> (r: JitterOutcome)
        requires
            jitter_wf(old(self)@),
            p.frame@.len() == old(self)@.frame_size,
        ensures
            jitter_wf(final(self)@),
            final(self)@.frame_size == old(self)@.frame_size,
            final(self)@.cap == old(self)@.cap,
            final(self)@.next_seq == old(self)@.next_seq,
            (p.seq_no as nat) < old(self)@.next_seq <==> r is Late,
            r is Late || r is Duplicate || r is Full ==> final(self)@ == old(self)@,
            r is Duplicate ==> exists|i: int|
                0 <= i < old(self)@.slots.len() && old(self)@.slots[i].0 == p.seq_no as nat,
            r is Full ==> old(self)@.slots.len() == old(self)@.cap,
            r matches JitterOutcome::Inserted { at } ==> {
                &&& 0 <= at <= old(self)@.slots.len()
                &&& final(self)@.slots == old(self)@.slots.insert(
                    at as int,
                    (p.seq_no as nat, p.frame@),
                )
                &&& forall|j: int| 0 <= j < at ==> old(self)@.slots[j].0 < p.seq_no as nat
                &&& forall|j: int|
                    at <= j < old(self)@.slots.len() ==> old(self)@.slots[j].0 > p.seq_no as nat
            },
    {
        if p.seq_no < self.next_seq {
            return JitterOutcome::Late;
        }
        let mut i: usize = 0;
        while i < self.slots.len() && self.slots[i].seq_no < p.seq_no
            invariant
                i <= self.slots.len(),
                forall|j: int| 0 <= j < i ==> self@.slots[j].0 < p.seq_no as nat,
                jitter_wf(self@),
                self == old(self),
                p.seq_no >= self.next_seq,
            decreases self.slots.len() - i,
        {
            proof {
                assert(self@.slots[i as int].0 < p.seq_no as nat);
            }
            i = i + 1;
        }
        if i < self.slots.len() && self.slots[i].seq_no == p.seq_no {
            proof {
                assert(self@.slots[i as int].0 == p.seq_no as nat);
            }
            return JitterOutcome::Duplicate;
        }
        if self.slots.len() == self.cap {
            return JitterOutcome::Full;
        }
        proof {
            assert forall|j: int| i <= j < self@.slots.len() implies self@.slots[j].0
                > p.seq_no as nat by {
                assert(self@.slots[i as int].0 >= p.seq_no as nat);
                assert(self@.slots[i as int].0 != p.seq_no as nat);
                if j > i {
                    assert(self@.slots[i as int].0 < self@.slots[j].0);
                }
            }
        }
        self.slots.insert(i, p);
        proof {
            assert(final(self)@.slots =~= old(self)@.slots.insert(
                i as int,
                (p.seq_no as nat, p.frame@),
            ));
        }
        JitterOutcome::Inserted { at: i }
    }

    /// Hand playback its next frame: the waiting packet if it is the one
    /// owed, otherwise silence — playback is never made to wait. Either
    /// way the playback clock advances by one frame.
    pub fn pop_frame(&mut self) -> (f: AudioFrame)
        requires
            jitter_wf(old(self)@),
            old(self)@.next_seq < u64::MAX,
        ensures
            jitter_wf(final(self)@),
            final(self)@.frame_size == old(self)@.frame_size,
            final(self)@.cap == old(self)@.cap,
            final(self)@.next_seq == old(self)@.next_seq + 1,
            if old(self)@.slots.len() > 0 && old(self)@.slots[0].0 == old(self)@.next_seq {
                f@ == old(self)@.slots[0].1 && final(self)@.slots == old(self)@.slots.drop_first()
            } else {
                f@ == silence_spec(old(self)@.frame_size) && final(self)@.slots == old(
                    self,
                )@.slots
            },
            f@.len() == old(self)@.frame_size,
    {
        if self.slots.len() > 0 && self.slots[0].seq_no == self.next_seq {
            proof {
                assert(self@.slots[0].0 == self@.next_seq);
            }
            let p = self.slots.remove(0);
            self.next_seq = self.next_seq + 1;
            proof {
                assert(final(self)@.slots =~= old(self)@.slots.drop_first());
                assert forall|j: int|
                    0 <= j < final(self)@.slots.len() implies #[trigger] final(self)@.slots[j].0
                    >= final(self)@.next_seq by {
                    assert(final(self)@.slots[j] == old(self)@.slots[j + 1]);
                    assert(old(self)@.slots[0].0 < old(self)@.slots[j + 1].0);
                }
            }
            p.frame
        } else {
            proof {
                if self@.slots.len() > 0 {
                    assert(self@.slots[0].0 != self@.next_seq);
                }
            }
            self.next_seq = self.next_seq + 1;
            proof {
                assert(final(self)@.slots =~= old(self)@.slots);
                assert forall|j: int|
                    0 <= j < final(self)@.slots.len() implies #[trigger] final(self)@.slots[j].0
                    >= final(self)@.next_seq by {
                    assert(old(self)@.slots[0].0 > old(self)@.next_seq);
                    if j > 0 {
                        assert(old(self)@.slots[0].0 < old(self)@.slots[j].0);
                    }
                }
            }
            AudioFrame::silence(self.frame_size)
        }
    }
}

/// The fixed audio format negotiated at bridge activation.
#[derive(Clone, Copy, Debug, PartialEq, Eq, Structural)]
pub struct AudioFormat {
    pub sample_rate: u32,
    pub channels: u16,
    pub frame_size: usize,
}

/// Abstract view of the assembler: its frame size and the samples still
/// waiting for a complete frame.
#[verifier::ext_equal]
pub struct AssemblerView {
    pub frame_size: nat,
    pub acc: Seq<i16>,
}

/// The assembler never holds a complete frame back.
pub open spec fn assembler_wf(v: AssemblerView) -> bool {
    &&& v.frame_size > 0
    &&& v.acc.len() < v.frame_size
}

/// Gathers an arbitrary stream of samples into complete frames of a fixed
/// size. Partial frames are buffered, never emitted short.
pub struct FrameAssembler {
    frame_size: usize,
    acc: Vec<i16>,
}

impl View for FrameAssembler {
    type V = AssemblerView;

    closed spec fn view(&self) -> AssemblerView {
        AssemblerView { frame_size: self.frame_size as nat, acc: self.acc@ }
    }
}

impl FrameAssembler {
    /// An empty assembler for frames of `frame_size` samples.
    pub fn new(frame_size: usize) -> (r: FrameAssembler)
        requires
            frame_size > 0,
        ensures
            assembler_wf(r@),
            r@.frame_size == frame_size as nat,
            r@.acc == Seq::<i16>::empty(),
    {
        let r = FrameAssembler { frame_size, acc: Vec::new() };
        proof {
            assert(r@.acc =~= Seq::<i16>::empty());
        }
        r
    }

    /// Feed captured samples in; every complete frame comes out, in order,
    /// and what remains short of a frame stays buffered.
    pub fn push_samples(&mut self, input: &Vec<i16>) -> (frames: Vec<AudioFrame>)
        requires
            assembler_wf(old(self)@),
            old(self)@.acc.len() + input@.len() <= usize::MAX,
        ensures
            assembler_wf(final(self)@),
            final(self)@.frame_size == old(self)@.frame_size,
            ({
                let total = old(self)@.acc + input@;
                let fs = old(self)@.frame_size;
                let n = frames@.len() as int;
                &&& n == total.len() as int / fs as int
                &&& forall|k: int|
                    0 <= k < n ==> (#[trigger] frames@[k])@ == total.subrange(
                        k * fs,
                        (k + 1) * fs,
                    )
                &&& final(self)@.acc == total.skip(n * fs)
            }),
    {
        let ghost total: Seq<i16> = old(self)@.acc + input@;
        let ghost fs_g: int = old(self)@.frame_size as int;
        let mut idx: usize = 0;
        while idx < input.len()
            invariant
                idx <= input.len(),
                self.acc@ == old(self)@.acc + input@.subrange(0, idx as int),
                self@.frame_size == old(self)@.frame_size,
            decreases input.len() - idx,
        {
            self.acc.push(input[idx]);
            proof {
                assert(self.acc@ =~= old(self)@.acc + input@.subrange(0, idx as int + 1));
            }
            idx = idx + 1;
        }
        proof {
            assert(self.acc@ =~= total);
        }
        let fs = self.frame_size;
        let mut frames: Vec<AudioFrame> = Vec::new();
        proof {
            assert(frames@ =~= Seq::<AudioFrame>::empty());
            assert(frames@.len() == 0);
            assert(frames@.len() * fs_g == 0) by (nonlinear_arith)
                requires
                    frames@.len() == 0,
            ;
            assert(self@.acc =~= total.skip(0));
        }
        loop
            invariant
                fs == self@.frame_size,
                fs_g == fs as int,
                fs > 0,
                total.len() <= usize::MAX,
                frames@.len() * fs_g <= total.len(),
                self@.acc == total.skip(frames@.len() * fs_g),
                forall|k: int|
                    0 <= k < frames@.len() ==> (#[trigger] frames@[k])@ == total.subrange(
                        k * fs_g,
                        (k + 1) * fs_g,
                    ),
            ensures
                self.acc@.len() < fs_g,
            decreases self.acc.len(),
        {
            if self.acc.len() < fs {
                break ;
            }
            let ghost n0: int = frames@.len() as int;
            let mut one: Vec<i16> = Vec::new();
            let mut j: usize = 0;
            while j < fs
                invariant
                    j <= fs,
                    fs <= self.acc.len(),
                    one@ == self.acc@.subrange(0, j as int),
                decreases fs - j,
            {
                let s = self.acc[j];
                one.push(s);
                proof {
                    assert(one@ =~= self.acc@.subrange(0, j as int + 1));
                }
                j = j + 1;
            }
            let tail = self.acc.split_off(fs);
            self.acc = tail;
            frames.push(AudioFrame::new(one));
            proof {
                lemma_chunk_step(total, fs_g, n0);
                assert(self@.acc =~= total.skip((n0 + 1) * fs_g));
                assert(frames@[n0]@ =~= total.subrange(n0 * fs_g, (n0 + 1) * fs_g));
            }
        }
        proof {
            let n = frames@.len() as int;
            assert(total.len() == n * fs_g + self@.acc.len());
            assert(n == total.len() as int / fs_g) by (nonlinear_arith)
                requires
                    fs_g > 0,
                    total.len() == n * fs_g + self@.acc.len(),
                    self@.acc.len() < fs_g,
                    n >= 0,
            ;
        }
        frames
    }
}

/// Arithmetic for one step of frame chunking: after emitting `n` frames,
/// the next frame is the next `fs` samples and the remainder shifts by
/// `fs`.
proof fn lemma_chunk_step(total: Seq<i16>, fs: int, n: int)
    requires
        fs > 0,
        n >= 0,
        n * fs <= total.len(),
        total.len() - n * fs >= fs,
    ensures
        (n + 1) * fs <= total.len(),
        total.skip(n * fs).subrange(0, fs) == total.subrange(n * fs, (n + 1) * fs),
        total.skip(n * fs).skip(fs) == total.skip((n + 1) * fs),
{
    assert((n + 1) * fs == n * fs + fs) by (nonlinear_arith);
    assert(total.skip(n * fs).subrange(0, fs) =~= total.subrange(n * fs, (n + 1) * fs));
    assert(total.skip(n * fs).skip(fs) =~= total.skip((n + 1) * fs));
}

/// The binding between the audio hardware boundary and the negotiated
/// transport. Formats are fixed once at activation; a mismatch fails
/// activation itself, never the running stream.
pub struct MediaBridge {
    negotiated: AudioFormat,
    active: bool,
}

impl MediaBridge {
    /// A bridge for the format the negotiation settled on, not yet active.
    pub fn new(negotiated: AudioFormat) -> (r: MediaBridge)
        ensures
            r.format_spec() == negotiated,
            !r.active_spec(),
    {
        MediaBridge { negotiated, active: false }
    }

    /// The format the negotiation settled on.
    pub closed spec fn format_spec(&self) -> AudioFormat {
        self.negotiated
    }

    /// Whether the bridge is bound to the transport.
    pub closed spec fn active_spec(&self) -> bool {
        self.active
    }

    /// Whether the bridge is bound to the transport.
    pub fn is_active(&self) -> (r: bool)
        ensures
            r == self.active_spec(),
    {
        self.active
    }

    /// Bind the hardware boundary: succeeds exactly when the hardware
    /// format matches the negotiated one and frames are non-empty.
    pub fn activate(&mut self, hardware: AudioFormat) -> (r: Result<(), SignalError>)
        ensures
            final(self).format_spec() == old(self).format_spec(),
            r is Ok <==> hardware == old(self).format_spec() && hardware.frame_size > 0,
            r is Ok ==> final(self).active_spec(),
            r is Err ==> *final(self) == *old(self) && r == Err::<(), SignalError>(
                SignalError::DeviceError,
            ),
    {
        if hardware == self.negotiated && hardware.frame_size > 0 {
            self.active = true;
            Ok(())
        } else {
            Err(SignalError::DeviceError)
        }
    }

    /// Unbind; reports whether the bridge was active (a teardown side
    /// effect happened). Idempotent.
    pub fn deactivate(&mut self) -> (r: bool)
        ensures
            final(self).format_spec() == old(self).format_spec(),
            !final(self).active_spec(),
            r == old(self).active_spec(),
    {
        let was = self.active;
        self.active = false;
        was
    }
}

} // verus!
