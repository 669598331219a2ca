use voicelink::codec::{decode, encode};
use voicelink::coordinator::{Coordinator, Event};
use voicelink::errors::SignalError;
use voicelink::msg::SignalingMessage;
use voicelink::negotiation::{CallState, CandidateDisposition, Negotiation};
use voicelink::session::PeerSession;
use voicelink::transport::{decode_frames, Transport};

fn offer(room: &str, sdp: &str, from: &str, to: &str) -> SignalingMessage {
    SignalingMessage::Offer {
        room: room.to_string(),
        sdp: sdp.to_string(),
        from: from.to_string(),
        to: to.to_string(),
    }
}

#[test]
fn encode_join_exact() {
    let m = SignalingMessage::Join { room: "r1".to_string(), peer: "alice".to_string() };
    assert_eq!(encode(&m), "{\"kind\":\"join\",\"room\":\"r1\",\"peer\":\"alice\"}");
}

#[test]
fn encode_offer_exact() {
    let m = offer("r1", "sdp-a", "alice", "bob");
    assert_eq!(
        encode(&m),
        "{\"kind\":\"offer\",\"room\":\"r1\",\"sdp\":\"sdp-a\",\"from\":\"alice\",\"to\":\"bob\"}"
    );
}

#[test]
fn encode_peer_list_exact() {
    let m = SignalingMessage::PeerList { peers: vec!["a".to_string(), "b".to_string()] };
    assert_eq!(encode(&m), "{\"kind\":\"peer_list\",\"peers\":[\"a\",\"b\"]}");
    let empty = SignalingMessage::PeerList { peers: vec![] };
    assert_eq!(encode(&empty), "{\"kind\":\"peer_list\",\"peers\":[]}");
}

#[test]
fn encode_request_peer_list_exact() {
    assert_eq!(
        encode(&SignalingMessage::RequestPeerList),
        "{\"kind\":\"request_peer_list\"}"
    );
}

#[test]
fn round_trip_all_kinds() {
    let msgs = vec![
        SignalingMessage::Join { room: "r".to_string(), peer: "p".to_string() },
        SignalingMessage::PeerList { peers: vec![] },
        SignalingMessage::PeerList { peers: vec!["x".to_string()] },
        SignalingMessage::PeerList { peers: vec!["x".to_string(), "y".to_string(), "z".to_string()] },
        offer("r", "s", "a", "b"),
        SignalingMessage::Answer {
            room: "r".to_string(),
            sdp: "s2".to_string(),
            from: "b".to_string(),
            to: "a".to_string(),
        },
        SignalingMessage::IceCandidate {
            room: "r".to_string(),
            candidate: "cand".to_string(),
            from: "a".to_string(),
            to: "b".to_string(),
        },
        SignalingMessage::RequestPeerList,
        SignalingMessage::InitiateCall { peer: "b".to_string(), room: "r".to_string() },
    ];
    for m in msgs {
        let wire = encode(&m);
        assert_eq!(decode(&wire), Some(m.clone()), "failed on {}", wire);
    }
}

#[test]
fn round_trip_with_escapes() {
    let m = offer("r\"1", "a\\b\"c", "pe\\er", "t\"o");
    let wire = encode(&m);
    assert_eq!(decode(&wire), Some(m));
}

#[test]
fn decode_rejects_malformed() {
    assert_eq!(decode(""), None);
    assert_eq!(decode("{\"kind\":\"offer\""), None);
    assert_eq!(decode("not json"), None);
    assert_eq!(decode("{\"kind\":\"join\",\"room\":\"r\"}"), None);
    assert_eq!(decode("{\"kind\":\"request_peer_list\"}x"), None);
    assert_eq!(decode("{\"kind\":\"unknown\",\"room\":\"r\"}"), None);
}

#[test]
fn transport_delivers_in_order() {
    // Send several messages; the single writer drains them in the order
    // sent, and the remote side decodes them back in that order.
    let mut t = Transport::new();
    let sent = vec![
        SignalingMessage::Join { room: "r1".to_string(), peer: "a".to_string() },
        offer("r1", "s1", "a", "b"),
        SignalingMessage::RequestPeerList,
    ];
    for m in &sent {
        assert!(t.send(m).is_ok());
    }
    let mut frames: Vec<String> = Vec::new();
    while let Some(f) = t.next_outbound() {
        frames.push(f);
    }
    let received = decode_frames(&frames);
    assert_eq!(received, sent);
}

#[test]
fn transport_closed_fails_send() {
    let mut t = Transport::new();
    t.mark_closed();
    assert!(t.is_closed());
    assert_eq!(
        t.send(&SignalingMessage::RequestPeerList),
        Err(SignalError::TransportClosed)
    );
    assert_eq!(t.pending(), 0);
}

#[test]
fn transport_skips_malformed_frames() {
    let frames = vec![
        "{\"kind\":\"request_peer_list\"}".to_string(),
        "garbage".to_string(),
        "{\"kind\":\"join\",\"room\":\"r\",\"peer\":\"p\"}".to_string(),
    ];
    let received = decode_frames(&frames);
    assert_eq!(
        received,
        vec![
            SignalingMessage::RequestPeerList,
            SignalingMessage::Join { room: "r".to_string(), peer: "p".to_string() },
        ]
    );
}

#[test]
fn answer_before_initiate_is_invalid_and_stays_idle() {
    let mut n = Negotiation::new("a".to_string(), "b".to_string(), "r".to_string());
    let r = n.on_remote_answer("sdp".to_string());
    assert_eq!(r, Err(SignalError::InvalidTransition));
    assert!(matches!(n.state(), CallState::Idle));
}

#[test]
fn initiate_twice_already_negotiating() {
    let mut n = Negotiation::new("a".to_string(), "b".to_string(), "r".to_string());
    assert!(n.initiate("s1".to_string()).is_ok());
    assert!(matches!(n.state(), CallState::OfferSent));
    let r = n.initiate("s2".to_string());
    assert_eq!(r.unwrap_err(), SignalError::AlreadyNegotiating);
    assert!(matches!(n.state(), CallState::OfferSent));
}

#[test]
fn offer_answer_connect_happy_path() {
    let mut a = Negotiation::new("a".to_string(), "b".to_string(), "r".to_string());
    let off = a.initiate("sdp-a".to_string()).unwrap();
    match off {
        SignalingMessage::Offer { room, sdp, from, to } => {
            assert_eq!(room, "r");
            assert_eq!(sdp, "sdp-a");
            assert_eq!(from, "a");
            assert_eq!(to, "b");
        }
        other => panic!("expected an offer, got {:?}", other),
    }
    assert!(a.on_remote_answer("sdp-b".to_string()).is_ok());
    assert!(matches!(a.state(), CallState::AnsweringOrAwaitingAnswer));
    assert!(a.on_transport_established().is_ok());
    assert!(matches!(a.state(), CallState::Connected));
}

#[test]
fn glare_resolution_is_deterministic() {
    // Both peers offer to each other; the lexicographically smaller one
    // yields and answers, the larger keeps its offer, whichever way the
    // identifiers compare.
    for (x, y) in [("alice", "bob"), ("bob", "alice"), ("1", "2"), ("zz", "za")] {
        let mut mx = Negotiation::new(x.to_string(), y.to_string(), "r".to_string());
        let mut my = Negotiation::new(y.to_string(), x.to_string(), "r".to_string());
        mx.initiate("sx".to_string()).unwrap();
        my.initiate("sy".to_string()).unwrap();
        let rx = mx.on_remote_offer("sy".to_string(), "ax".to_string()).unwrap();
        let ry = my.on_remote_offer("sx".to_string(), "ay".to_string()).unwrap();
        let x_yielded = rx.is_some();
        let y_yielded = ry.is_some();
        assert_ne!(x_yielded, y_yielded, "exactly one side must yield");
        if x_yielded {
            assert!(x < y);
            assert!(matches!(mx.state(), CallState::AnsweringOrAwaitingAnswer));
            assert!(matches!(my.state(), CallState::OfferSent));
            assert_eq!(my.warnings(), 1);
        } else {
            assert!(y < x);
            assert!(matches!(my.state(), CallState::AnsweringOrAwaitingAnswer));
            assert!(matches!(mx.state(), CallState::OfferSent));
            assert_eq!(mx.warnings(), 1);
        }
    }
}

#[test]
fn candidate_before_offer_is_buffered_then_applied() {
    let mut n = Negotiation::new("bob".to_string(), "alice".to_string(), "r".to_string());
    let d = n.on_remote_candidate("cand-1".to_string());
    assert_eq!(d, CandidateDisposition::Buffered);
    assert!(n.applied_candidates().is_empty());
    let answer = n.on_remote_offer("sdp-a".to_string(), "sdp-b".to_string()).unwrap();
    assert!(answer.is_some());
    assert_eq!(n.applied_candidates(), &vec!["cand-1".to_string()]);
}

#[test]
fn candidate_before_answer_is_buffered_then_applied() {
    let mut n = Negotiation::new("a".to_string(), "b".to_string(), "r".to_string());
    n.initiate("s".to_string()).unwrap();
    assert_eq!(
        n.on_remote_candidate("c1".to_string()),
        CandidateDisposition::Buffered
    );
    assert_eq!(
        n.on_remote_candidate("c2".to_string()),
        CandidateDisposition::Buffered
    );
    assert!(n.on_remote_answer("s2".to_string()).is_ok());
    assert_eq!(n.applied_candidates(), &vec!["c1".to_string(), "c2".to_string()]);
    // After the description landed, further candidates apply at once.
    assert_eq!(
        n.on_remote_candidate("c3".to_string()),
        CandidateDisposition::Applied
    );
    assert_eq!(n.applied_candidates().len(), 3);
}

#[test]
fn candidate_on_terminal_session_is_dropped() {
    let mut n = Negotiation::new("a".to_string(), "b".to_string(), "r".to_string());
    n.close();
    assert_eq!(
        n.on_remote_candidate("late".to_string()),
        CandidateDisposition::Dropped
    );
}

#[test]
fn duplicate_answer_warns_not_errors() {
    let mut n = Negotiation::new("a".to_string(), "b".to_string(), "r".to_string());
    n.initiate("s".to_string()).unwrap();
    assert!(n.on_remote_answer("s2".to_string()).is_ok());
    assert_eq!(n.warnings(), 0);
    assert!(n.on_remote_answer("s2-again".to_string()).is_ok());
    assert_eq!(n.warnings(), 1);
    assert!(matches!(n.state(), CallState::AnsweringOrAwaitingAnswer));
}

#[test]
fn fail_is_terminal_and_reports_teardown_once() {
    let mut s = PeerSession::new("a".to_string(), "b".to_string(), "r".to_string());
    s.initiate("s".to_string()).unwrap();
    s.on_remote_answer("s2".to_string()).unwrap();
    s.on_transport_established().unwrap();
    assert!(s.media_active());
    let torn = s.fail("link lost".to_string());
    assert!(torn);
    assert!(matches!(s.state(), CallState::Failed));
    assert!(!s.media_active());
    let torn_again = s.fail("again".to_string());
    assert!(!torn_again);
}

#[test]
fn close_twice_one_teardown() {
    let mut s = PeerSession::new("a".to_string(), "b".to_string(), "r".to_string());
    s.initiate("s".to_string()).unwrap();
    s.on_remote_answer("s2".to_string()).unwrap();
    s.on_transport_established().unwrap();
    assert!(s.media_active());
    let first = s.close();
    assert!(first, "first close tears the media binding down");
    assert!(matches!(s.state(), CallState::Closed));
    let second = s.close();
    assert!(!second, "second close has no side effect");
    assert!(matches!(s.state(), CallState::Closed));
}

#[test]
fn error_descriptions() {
    assert_eq!(SignalError::TransportClosed.describe(), "transport closed");
    assert_eq!(SignalError::SerializationError.describe(), "serialization error");
    assert_eq!(SignalError::AlreadyNegotiating.describe(), "already negotiating");
    assert_eq!(SignalError::InvalidTransition.describe(), "invalid transition");
    assert_eq!(SignalError::NegotiationFailed.describe(), "negotiation failed");
    assert_eq!(SignalError::DeviceError.describe(), "device error");
}

#[test]
fn coordinator_end_to_end_call() {
    // Peer A initiates toward B; the offer crosses the relay; B answers;
    // A applies it; both transports establish; both report Connected.
    let mut a = Coordinator::new("A".to_string(), "r1".to_string());
    let mut b = Coordinator::new("B".to_string(), "r1".to_string());

    let offer_msg = a.initiate_call("B".to_string(), "S1".to_string()).unwrap();
    match &offer_msg {
        SignalingMessage::Offer { room, sdp, from, to } => {
            assert_eq!(room, "r1");
            assert_eq!(sdp, "S1");
            assert_eq!(from, "A");
            assert_eq!(to, "B");
        }
        other => panic!("expected an offer, got {:?}", other),
    }

    // The wire carries the frame to B.
    let wire = encode(&offer_msg);
    let delivered = decode(&wire).unwrap();
    let (sdp, from) = match delivered {
        SignalingMessage::Offer { sdp, from, .. } => (sdp, from),
        other => panic!("expected an offer, got {:?}", other),
    };
    let answer_msg = b.on_offer(from, sdp, "S2".to_string()).unwrap().unwrap();
    match &answer_msg {
        SignalingMessage::Answer { room, sdp, from, to } => {
            assert_eq!(room, "r1");
            assert_eq!(sdp, "S2");
            assert_eq!(from, "B");
            assert_eq!(to, "A");
        }
        other => panic!("expected an answer, got {:?}", other),
    }

    // The answer crosses back and A applies it.
    let wire = encode(&answer_msg);
    let delivered = decode(&wire).unwrap();
    let (sdp, from) = match delivered {
        SignalingMessage::Answer { sdp, from, .. } => (sdp, from),
        other => panic!("expected an answer, got {:?}", other),
    };
    assert!(a.on_answer(&from, sdp).is_ok());

    // Both underlying transports report an established path.
    let ev_a = a.on_established(&"B".to_string()).unwrap();
    let ev_b = b.on_established(&"A".to_string()).unwrap();
    assert_eq!(
        ev_a,
        Event::CallStateChanged { peer: "B".to_string(), state: CallState::Connected }
    );
    assert_eq!(
        ev_b,
        Event::CallStateChanged { peer: "A".to_string(), state: CallState::Connected }
    );
    assert!(matches!(
        a.session_state(&"B".to_string()),
        Some(CallState::Connected)
    ));
    assert!(matches!(
        b.session_state(&"A".to_string()),
        Some(CallState::Connected)
    ));
}

#[test]
fn coordinator_peer_list_updates_registry() {
    let mut c = Coordinator::new("A".to_string(), "r1".to_string());
    let ev = c.on_peer_list(vec!["B".to_string(), "C".to_string()]);
    assert_eq!(
        ev,
        Event::PeerListUpdated { peers: vec!["B".to_string(), "C".to_string()] }
    );
    assert_eq!(c.peers(), &vec!["B".to_string(), "C".to_string()]);
    // The relay's next broadcast replaces the list entirely.
    c.on_peer_list(vec!["D".to_string()]);
    assert_eq!(c.peers(), &vec!["D".to_string()]);
}

#[test]
fn coordinator_drops_candidate_for_unknown_peer() {
    let mut c = Coordinator::new("A".to_string(), "r1".to_string());
    let d = c.on_candidate(&"ghost".to_string(), "cand".to_string());
    assert_eq!(d, CandidateDisposition::Dropped);
    assert!(c.session_state(&"ghost".to_string()).is_none());
}

#[test]
fn coordinator_answer_for_unknown_peer_is_invalid() {
    let mut c = Coordinator::new("A".to_string(), "r1".to_string());
    let r = c.on_answer(&"ghost".to_string(), "sdp".to_string());
    assert_eq!(r, Err(SignalError::InvalidTransition));
}

#[test]
fn coordinator_inbound_offer_creates_session() {
    let mut c = Coordinator::new("A".to_string(), "r1".to_string());
    assert!(c.session_state(&"B".to_string()).is_none());
    let answer = c
        .on_offer("B".to_string(), "S1".to_string(), "S2".to_string())
        .unwrap();
    assert!(answer.is_some());
    assert!(matches!(
        c.session_state(&"B".to_string()),
        Some(CallState::AnsweringOrAwaitingAnswer)
    ));
}

#[test]
fn coordinator_second_offer_is_renegotiation_not_new_session() {
    let mut c = Coordinator::new("A".to_string(), "r1".to_string());
    c.on_offer("B".to_string(), "S1".to_string(), "S2".to_string()).unwrap();
    // A repeated offer for the same peer routes to the same session and is
    // ignored with a warning, not a second session.
    let r = c.on_offer("B".to_string(), "S1b".to_string(), "S2b".to_string()).unwrap();
    assert!(r.is_none());
}

#[test]
fn coordinator_close_session_once() {
    let mut c = Coordinator::new("A".to_string(), "r1".to_string());
    c.initiate_call("B".to_string(), "S1".to_string()).unwrap();
    c.on_answer(&"B".to_string(), "S2".to_string()).unwrap();
    c.on_established(&"B".to_string()).unwrap();
    assert!(c.close_session(&"B".to_string()));
    assert!(matches!(c.session_state(&"B".to_string()), Some(CallState::Closed)));
    assert!(!c.close_session(&"B".to_string()));
    assert!(!c.close_session(&"nobody".to_string()));
}

#[test]
fn coordinator_fail_all_on_link_loss() {
    let mut c = Coordinator::new("A".to_string(), "r1".to_string());
    c.initiate_call("B".to_string(), "S1".to_string()).unwrap();
    c.initiate_call("C".to_string(), "S1".to_string()).unwrap();
    c.fail_all(&"relay link lost".to_string());
    assert!(matches!(c.session_state(&"B".to_string()), Some(CallState::Failed)));
    assert!(matches!(c.session_state(&"C".to_string()), Some(CallState::Failed)));
}

#[test]
fn distinct_messages_have_distinct_encodings() {
    let a = offer("r", "s", "a", "b");
    let b = offer("r", "s", "b", "a");
    assert_ne!(encode(&a), encode(&b));
    let join = SignalingMessage::Join { room: "r".to_string(), peer: "s".to_string() };
    let call = SignalingMessage::InitiateCall { room: "r".to_string(), peer: "s".to_string() };
    assert_ne!(encode(&join), encode(&call));
}

#[test]
fn duplicate_offer_after_answering_warns() {
    let mut n = Negotiation::new("bob".to_string(), "alice".to_string(), "r".to_string());
    let first = n.on_remote_offer("s1".to_string(), "a1".to_string()).unwrap();
    assert!(first.is_some());
    assert_eq!(n.warnings(), 0);
    let second = n.on_remote_offer("s1".to_string(), "a2".to_string()).unwrap();
    assert!(second.is_none(), "a repeated offer is ignored");
    assert_eq!(n.warnings(), 1);
    assert!(matches!(n.state(), CallState::AnsweringOrAwaitingAnswer));
}

#[test]
fn offer_on_closed_session_is_invalid() {
    let mut n = Negotiation::new("a".to_string(), "b".to_string(), "r".to_string());
    n.close();
    let r = n.on_remote_offer("s".to_string(), "a".to_string());
    assert_eq!(r, Err(SignalError::InvalidTransition));
    assert!(matches!(n.state(), CallState::Closed));
}

#[test]
fn empty_transport_has_no_outbound_frame() {
    let mut t = Transport::new();
    assert!(t.next_outbound().is_none());
    t.send(&SignalingMessage::RequestPeerList).unwrap();
    assert!(t.next_outbound().is_some());
    assert!(t.next_outbound().is_none());
}

#[test]
fn coordinator_initiate_twice_refused() {
    let mut c = Coordinator::new("A".to_string(), "r".to_string());
    assert!(c.initiate_call("B".to_string(), "S1".to_string()).is_ok());
    let r = c.initiate_call("B".to_string(), "S1b".to_string());
    assert_eq!(r.unwrap_err(), SignalError::AlreadyNegotiating);
}
