//! The signaling message union exchanged with the relay, together with its
//! mathematical view: the same union over `Seq<char>` payloads.

use vstd::prelude::*;

verus! {

/// One signaling message, as carried over the relay link.
///
/// Peers and rooms are free-form strings; `sdp` and `candidate` are opaque
/// blobs produced by the media layer. Only the kind and the payload matter;
/// the wire encoding is fixed by `codec`.
#[derive(Clone, Debug, PartialEq, Eq)]
pub enum SignalingMessage {
    Join { room: String, peer: String },
    PeerList { peers: Vec<String> },
    Offer { room: String, sdp: String, from: String, to: String },
    Answer { room: String, sdp: String, from: String, to: String },
    IceCandidate { room: String, candidate: String, from: String, to: String },
    RequestPeerList,
    InitiateCall { peer: String, room: String },
}

/// The abstract value of a `SignalingMessage`: the same union with every
/// string replaced by its sequence of characters.
pub enum MsgView {
    Join { room: Seq<char>, peer: Seq<char> },
    PeerList { peers: Seq<Seq<char>> },
    Offer { room: Seq<char>, sdp: Seq<char>, from: Seq<char>, to: Seq<char> },
    Answer { room: Seq<char>, sdp: Seq<char>, from: Seq<char>, to: Seq<char> },
    IceCandidate { room: Seq<char>, candidate: Seq<char>, from: Seq<char>, to: Seq<char> },
    RequestPeerList,
    InitiateCall { peer: Seq<char>, room: Seq<char> },
}

impl View for SignalingMessage {
    type V = MsgView;

    open spec fn view(&self) -> MsgView {
        match self {
            SignalingMessage::Join { room, peer } => MsgView::Join { room: room@, peer: peer@ },
            SignalingMessage::PeerList { peers } => MsgView::PeerList {
                peers: peers@.map_values(|p: String| p@),
            },
            SignalingMessage::Offer { room, sdp, from, to } => MsgView::Offer {
                room: room@,
                sdp: sdp@,
                from: from@,
                to: to@,
            },
            SignalingMessage::Answer { room, sdp, from, to } => MsgView::Answer {
                room: room@,
                sdp: sdp@,
                from: from@,
                to: to@,
            },
            SignalingMessage::IceCandidate { room, candidate, from, to } => MsgView::IceCandidate {
                room: room@,
                candidate: candidate@,
                from: from@,
                to: to@,
            },
            SignalingMessage::RequestPeerList => MsgView::RequestPeerList,
            SignalingMessage::InitiateCall { peer, room } => MsgView::InitiateCall {
                peer: peer@,
                room: room@,
            },
        }
    }
}

} // verus!
