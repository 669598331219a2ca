use voicelink::errors::SignalError;
use voicelink::media::{
    AudioFormat, AudioFrame, CaptureRing, FrameAssembler, JitterBuffer, JitterOutcome,
    JitterPacket, MediaBridge,
};
use voicelink::registry::Registry;

fn frame(tag: i16) -> AudioFrame {
    AudioFrame::new(vec![tag; 4])
}

#[test]
fn capture_ring_keeps_latest_drops_oldest() {
    // Push faster than anything drains: the push never fails, and the
    // ring always holds the most recent frames, oldest dropped first.
    let mut ring = CaptureRing::new(3);
    assert!(ring.push(frame(1)).is_none());
    assert!(ring.push(frame(2)).is_none());
    assert!(ring.push(frame(3)).is_none());
    let dropped = ring.push(frame(4)).expect("oldest frame is dropped on overflow");
    assert_eq!(dropped.samples(), &vec![1i16; 4]);
    let dropped = ring.push(frame(5)).expect("next oldest is dropped");
    assert_eq!(dropped.samples(), &vec![2i16; 4]);
    assert_eq!(ring.len(), 3);
    // The survivors are exactly the three most recent, in capture order.
    assert_eq!(ring.pop_oldest().unwrap().samples(), &vec![3i16; 4]);
    assert_eq!(ring.pop_oldest().unwrap().samples(), &vec![4i16; 4]);
    assert_eq!(ring.pop_oldest().unwrap().samples(), &vec![5i16; 4]);
    assert!(ring.pop_oldest().is_none());
}

#[test]
fn jitter_buffer_reorders_by_sequence() {
    let mut jb = JitterBuffer::new(4, 8);
    assert!(matches!(
        jb.insert(JitterPacket { seq_no: 1, frame: frame(11) }),
        JitterOutcome::Inserted { .. }
    ));
    assert!(matches!(
        jb.insert(JitterPacket { seq_no: 0, frame: frame(10) }),
        JitterOutcome::Inserted { .. }
    ));
    assert!(matches!(
        jb.insert(JitterPacket { seq_no: 2, frame: frame(12) }),
        JitterOutcome::Inserted { .. }
    ));
    assert_eq!(jb.pop_frame().samples(), &vec![10i16; 4]);
    assert_eq!(jb.pop_frame().samples(), &vec![11i16; 4]);
    assert_eq!(jb.pop_frame().samples(), &vec![12i16; 4]);
}

#[test]
fn jitter_buffer_feeds_silence_on_underrun() {
    let mut jb = JitterBuffer::new(4, 8);
    // Nothing arrived: playback gets silence, never a stall.
    assert_eq!(jb.pop_frame().samples(), &vec![0i16; 4]);
    assert_eq!(jb.next_seq(), 1);
    // Packet 1 arrives but 0 was already passed over.
    assert!(matches!(
        jb.insert(JitterPacket { seq_no: 1, frame: frame(21) }),
        JitterOutcome::Inserted { .. }
    ));
    assert_eq!(jb.pop_frame().samples(), &vec![21i16; 4]);
}

#[test]
fn jitter_buffer_drops_late_and_duplicate() {
    let mut jb = JitterBuffer::new(4, 2);
    jb.pop_frame();
    assert!(matches!(
        jb.insert(JitterPacket { seq_no: 0, frame: frame(1) }),
        JitterOutcome::Late
    ));
    assert!(matches!(
        jb.insert(JitterPacket { seq_no: 3, frame: frame(3) }),
        JitterOutcome::Inserted { .. }
    ));
    assert!(matches!(
        jb.insert(JitterPacket { seq_no: 3, frame: frame(3) }),
        JitterOutcome::Duplicate
    ));
    assert!(matches!(
        jb.insert(JitterPacket { seq_no: 4, frame: frame(4) }),
        JitterOutcome::Inserted { .. }
    ));
    // The bounded delay is reached: further packets are dropped.
    assert!(matches!(
        jb.insert(JitterPacket { seq_no: 5, frame: frame(5) }),
        JitterOutcome::Full
    ));
}

#[test]
fn assembler_never_emits_short_frames() {
    let mut fa = FrameAssembler::new(4);
    let out = fa.push_samples(&vec![1, 2, 3]);
    assert!(out.is_empty(), "a partial frame stays buffered");
    let out = fa.push_samples(&vec![4, 5, 6, 7, 8, 9]);
    assert_eq!(out.len(), 2);
    assert_eq!(out[0].samples(), &vec![1, 2, 3, 4]);
    assert_eq!(out[1].samples(), &vec![5, 6, 7, 8]);
    let out = fa.push_samples(&vec![10, 11, 12]);
    assert_eq!(out.len(), 1);
    assert_eq!(out[0].samples(), &vec![9, 10, 11, 12]);
}

#[test]
fn silence_frame_is_zeroed() {
    let f = AudioFrame::silence(5);
    assert_eq!(f.len(), 5);
    assert_eq!(f.samples(), &vec![0i16; 5]);
}

#[test]
fn bridge_activation_checks_format() {
    let negotiated = AudioFormat { sample_rate: 48000, channels: 1, frame_size: 480 };
    let mut bridge = MediaBridge::new(negotiated);
    assert!(!bridge.is_active());
    let mismatched = AudioFormat { sample_rate: 44100, channels: 1, frame_size: 480 };
    assert_eq!(bridge.activate(mismatched), Err(SignalError::DeviceError));
    assert!(!bridge.is_active());
    assert_eq!(bridge.activate(negotiated), Ok(()));
    assert!(bridge.is_active());
    assert!(bridge.deactivate(), "first deactivation tears down");
    assert!(!bridge.deactivate(), "second deactivation is a no-op");
}

#[test]
fn registry_fresh_id_is_uuid_shaped() {
    let r1 = Registry::with_fresh_id();
    let r2 = Registry::with_fresh_id();
    assert_eq!(r1.local_id().len(), 36);
    assert_eq!(r2.local_id().len(), 36);
    assert_ne!(r1.local_id(), r2.local_id(), "two draws almost surely differ");
    assert_eq!(r1.local_id().matches('-').count(), 4);
}

#[test]
fn registry_tracks_room_and_peers() {
    let mut r = Registry::new("me".to_string());
    assert!(r.room().is_none());
    assert!(r.peers().is_empty());
    r.set_room("lobby".to_string());
    assert_eq!(r.room().as_deref(), Some("lobby"));
    r.set_peers(vec!["a".to_string(), "b".to_string()]);
    assert_eq!(r.peers(), &vec!["a".to_string(), "b".to_string()]);
}
