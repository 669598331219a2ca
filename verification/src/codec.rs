//! The wire encoding of `SignalingMessage`: one fixed JSON-style text form
//! per message kind, with `"` and `\` escaped inside string payloads. The
//! decoder is specified as a total spec-level parser; the round-trip lemma
//! proves that decoding an encoded message gives the message back, and the
//! stream lemma extends that to whole sequences, in order.

use crate::msg::MsgView;
use crate::msg::SignalingMessage;
use crate::order::chars_of;
use vstd::prelude::*;

verus! {

/// How one character appears inside a quoted string payload.
pub open spec fn esc_char(c: char) -> Seq<char> {
    if c == '"' || c == '\\' {
        seq!['\\', c]
    } else {
        seq![c]
    }
}

/// How a whole string payload appears inside quotes.
pub open spec fn esc(s: Seq<char>) -> Seq<char>
    decreases s.len(),
{
    if s.len() == 0 {
        Seq::empty()
    } else {
        esc_char(s[0]) + esc(s.drop_first())
    }
}

/// Escaping distributes over concatenation.
pub proof fn lemma_esc_append(a: Seq<char>, b: Seq<char>)
    ensures
        esc(a + b) == esc(a) + esc(b),
    decreases a.len(),
{
    if a.len() == 0 {
        assert(a + b =~= b);
        assert(esc(a) + esc(b) =~= esc(b));
    } else {
        assert((a + b).drop_first() =~= a.drop_first() + b);
        lemma_esc_append(a.drop_first(), b);
        assert(esc(a + b) =~= esc(a) + esc(b));
    }
}

/// Parse a quoted payload up to (not including) its closing quote,
/// undoing the escapes. Returns the payload and the rest of the input,
/// which starts with the closing quote.
pub open spec fn parse_str(t: Seq<char>) -> Option<(Seq<char>, Seq<char>)>
    decreases t.len(),
{
    if t.len() == 0 {
        None
    } else if t[0] == '"' {
        Some((Seq::empty(), t))
    } else if t[0] == '\\' {
        if t.len() >= 2 && (t[1] == '"' || t[1] == '\\') {
            match parse_str(t.skip(2)) {
                None => None,
                Some((v, r)) => Some((seq![t[1]] + v, r)),
            }
        } else {
            None
        }
    } else {
        match parse_str(t.drop_first()) {
            None => None,
            Some((v, r)) => Some((seq![t[0]] + v, r)),
        }
    }
}

/// A successful payload parse never lengthens the input.
pub proof fn lemma_parse_str_shrinks(t: Seq<char>)
    ensures
        parse_str(t) matches Some(vr) ==> vr.1.len() <= t.len() && vr.1.len() >= 1 && vr.1[0]
            == '"',
    decreases t.len(),
{
    if t.len() == 0 {
    } else if t[0] == '"' {
    } else if t[0] == '\\' {
        if t.len() >= 2 && (t[1] == '"' || t[1] == '\\') {
            lemma_parse_str_shrinks(t.skip(2));
        }
    } else {
        lemma_parse_str_shrinks(t.drop_first());
    }
}

/// Parsing undoes escaping: an escaped payload followed by its closing
/// quote parses back to the payload, leaving the rest untouched.
pub proof fn lemma_parse_esc(s: Seq<char>, rest: Seq<char>)
    requires
        rest.len() >= 1,
        rest[0] == '"',
    ensures
        parse_str(esc(s) + rest) == Some((s, rest)),
    decreases s.len(),
{
    let t = esc(s) + rest;
    if s.len() == 0 {
        assert(t =~= rest);
        assert(parse_str(t) == Some((Seq::<char>::empty(), rest)));
        assert(Seq::<char>::empty() =~= s);
    } else {
        let c = s[0];
        lemma_parse_esc(s.drop_first(), rest);
        if c == '"' || c == '\\' {
            assert(t[0] == '\\');
            assert(t[1] == c);
            assert(t.len() >= 2);
            assert(t.skip(2) =~= esc(s.drop_first()) + rest);
            assert(parse_str(t.skip(2)) == Some((s.drop_first(), rest)));
            assert(seq![t[1]] + s.drop_first() =~= s);
        } else {
            assert(t[0] == c);
            assert(t[0] != '"' && t[0] != '\\');
            assert(t.drop_first() =~= esc(s.drop_first()) + rest);
            assert(parse_str(t.drop_first()) == Some((s.drop_first(), rest)));
            assert(seq![t[0]] + s.drop_first() =~= s);
        }
    }
}

/// Parse a list of quoted payloads up to and including its closing `]`.
pub open spec fn parse_list(t: Seq<char>) -> Option<(Seq<Seq<char>>, Seq<char>)>
    decreases t.len(),
    via parse_list_dec
{
    if t.len() == 0 {
        None
    } else if t[0] == ']' {
        Some((Seq::empty(), t.drop_first()))
    } else if t[0] == '"' {
        match parse_str(t.drop_first()) {
            None => None,
            Some((v, r)) => {
                if r.len() >= 2 && r[1] == ']' {
                    Some((seq![v], r.skip(2)))
                } else if r.len() >= 3 && r[1] == ',' && r[2] == '"' {
                    match parse_list(r.skip(2)) {
                        None => None,
                        Some((vs, rest)) => Some((seq![v] + vs, rest)),
                    }
                } else {
                    None
                }
            },
        }
    } else {
        None
    }
}

#[via_fn]
proof fn parse_list_dec(t: Seq<char>) {
    if t.len() > 0 && t[0] != ']' && t[0] == '"' {
        lemma_parse_str_shrinks(t.drop_first());
    }
}

/// One list element on the wire: the payload, escaped, in quotes.
pub open spec fn enc_elem(p: Seq<char>) -> Seq<char> {
    seq!['"'] + esc(p) + seq!['"']
}

/// A whole list body on the wire: elements separated by commas.
pub open spec fn enc_list(ps: Seq<Seq<char>>) -> Seq<char>
    decreases ps.len(),
{
    if ps.len() == 0 {
        Seq::empty()
    } else if ps.len() == 1 {
        enc_elem(ps[0])
    } else {
        enc_elem(ps[0]) + seq![','] + enc_list(ps.drop_first())
    }
}

/// Parsing undoes list encoding.
pub proof fn lemma_parse_enc_list(ps: Seq<Seq<char>>, rest: Seq<char>)
    ensures
        parse_list(enc_list(ps) + seq![']'] + rest) == Some((ps, rest)),
    decreases ps.len(),
{
    let t = enc_list(ps) + seq![']'] + rest;
    if ps.len() == 0 {
        assert(t =~= seq![']'] + rest);
        assert(t[0] == ']');
        assert(t.drop_first() =~= rest);
        assert(Seq::<Seq<char>>::empty() =~= ps);
    } else if ps.len() == 1 {
        assert(t[0] == '"');
        let mid = seq!['"'] + seq![']'] + rest;
        assert(t.drop_first() =~= esc(ps[0]) + mid);
        lemma_parse_esc(ps[0], mid);
        let r = mid;
        assert(r.len() >= 2 && r[1] == ']');
        assert(r.skip(2) =~= rest);
        assert(seq![ps[0]] =~= ps);
    } else {
        assert(t[0] == '"');
        let tail_list = enc_list(ps.drop_first()) + seq![']'] + rest;
        assert(ps.drop_first().len() >= 1);
        assert(enc_list(ps.drop_first())[0] == '"') by {
            if ps.drop_first().len() == 1 {
            } else {
            }
        }
        let mid = seq!['"'] + seq![','] + tail_list;
        assert(t.drop_first() =~= esc(ps[0]) + mid);
        lemma_parse_esc(ps[0], mid);
        let r = mid;
        assert(r.len() >= 3 && r[1] == ',' && r[2] == '"') by {
            assert(r[2] == tail_list[0]);
        }
        assert(r[1] != ']');
        assert(r.skip(2) =~= tail_list);
        lemma_parse_enc_list(ps.drop_first(), rest);
        assert(seq![ps[0]] + ps.drop_first() =~= ps);
    }
}

/// Head of a join message on the wire, up to the opening quote of `room`.
pub open spec fn head_join() -> Seq<char> {
    "{\"kind\":\"join\",\"room\":\""@
}

/// Head of a peer-list message, up to and including the `[` of `peers`.
pub open spec fn head_peer_list() -> Seq<char> {
    "{\"kind\":\"peer_list\",\"peers\":["@
}

/// Head of an offer message, up to the opening quote of `room`.
pub open spec fn head_offer() -> Seq<char> {
    "{\"kind\":\"offer\",\"room\":\""@
}

/// Head of an answer message, up to the opening quote of `room`.
pub open spec fn head_answer() -> Seq<char> {
    "{\"kind\":\"answer\",\"room\":\""@
}

/// Head of a candidate message, up to the opening quote of `room`.
pub open spec fn head_ice() -> Seq<char> {
    "{\"kind\":\"ice_candidate\",\"room\":\""@
}

/// The whole wire form of a peer-list request: it carries no payload.
pub open spec fn lit_request_peer_list() -> Seq<char> {
    "{\"kind\":\"request_peer_list\"}"@
}

/// Head of a call-initiation intent, up to the opening quote of `peer`.
pub open spec fn head_initiate() -> Seq<char> {
    "{\"kind\":\"initiate_call\",\"peer\":\""@
}

/// Separator between a field's closing quote and the `peer` field.
pub open spec fn sep_peer() -> Seq<char> {
    "\",\"peer\":\""@
}

/// Separator between a field's closing quote and the `sdp` field.
pub open spec fn sep_sdp() -> Seq<char> {
    "\",\"sdp\":\""@
}

/// Separator between a field's closing quote and the `from` field.
pub open spec fn sep_from() -> Seq<char> {
    "\",\"from\":\""@
}

/// Separator between a field's closing quote and the `to` field.
pub open spec fn sep_to() -> Seq<char> {
    "\",\"to\":\""@
}

/// Separator between a field's closing quote and the `candidate` field.
pub open spec fn sep_cand() -> Seq<char> {
    "\",\"candidate\":\""@
}

/// Separator between a field's closing quote and the `room` field.
pub open spec fn sep_room() -> Seq<char> {
    "\",\"room\":\""@
}

/// End of an object whose last field is a string: its closing quote and `}`.
pub open spec fn tail_obj() -> Seq<char> {
    "\"}"@
}

/// End of an object whose last field is a list: the list's `]` and `}`.
pub open spec fn tail_list() -> Seq<char> {
    "]}"@
}

/// End of an object after a parsed list (the `]` is already consumed).
pub open spec fn tail_brace() -> Seq<char> {
    "}"@
}

/// The one wire form of each message.
pub open spec fn encode_spec(m: MsgView) -> Seq<char> {
    match m {
        MsgView::Join { room, peer } => head_join() + esc(room) + sep_peer() + esc(peer)
            + tail_obj(),
        MsgView::PeerList { peers } => head_peer_list() + enc_list(peers) + tail_list(),
        MsgView::Offer { room, sdp, from, to } => head_offer() + esc(room) + sep_sdp() + esc(sdp)
            + sep_from() + esc(from) + sep_to() + esc(to) + tail_obj(),
        MsgView::Answer { room, sdp, from, to } => head_answer() + esc(room) + sep_sdp() + esc(sdp)
            + sep_from() + esc(from) + sep_to() + esc(to) + tail_obj(),
        MsgView::IceCandidate { room, candidate, from, to } => head_ice() + esc(room) + sep_cand()
            + esc(candidate) + sep_from() + esc(from) + sep_to() + esc(to) + tail_obj(),
        MsgView::RequestPeerList => lit_request_peer_list(),
        MsgView::InitiateCall { peer, room } => head_initiate() + esc(peer) + sep_room() + esc(room)
            + tail_obj(),
    }
}

/// Does `t` begin with `p`?
pub open spec fn starts_with(t: Seq<char>, p: Seq<char>) -> bool {
    t.len() >= p.len() && t.take(p.len() as int) == p
}

/// What follows the prefix `p` in `t`.
pub open spec fn after(t: Seq<char>, p: Seq<char>) -> Seq<char> {
    t.skip(p.len() as int)
}

/// Parse one string field followed by the given separator.
pub open spec fn parse_field(t: Seq<char>, sep: Seq<char>) -> Option<(Seq<char>, Seq<char>)> {
    match parse_str(t) {
        None => None,
        Some((v, r)) => if starts_with(r, sep) {
            Some((v, after(r, sep)))
        } else {
            None
        },
    }
}

/// Parse the two fields of a join message.
pub open spec fn decode_join(t: Seq<char>) -> Option<MsgView> {
    match parse_field(t, sep_peer()) {
        None => None,
        Some((room, t1)) => match parse_str(t1) {
            None => None,
            Some((peer, t2)) => if t2 == tail_obj() {
                Some(MsgView::Join { room, peer })
            } else {
                None
            },
        },
    }
}

/// Parse the four fields shared by offer, answer and candidate messages;
/// `mid` is the separator naming the kind-specific second field.
pub open spec fn decode_four(t: Seq<char>, mid: Seq<char>) -> Option<
    (Seq<char>, Seq<char>, Seq<char>, Seq<char>),
> {
    match parse_field(t, mid) {
        None => None,
        Some((room, t1)) => match parse_field(t1, sep_from()) {
            None => None,
            Some((second, t2)) => match parse_field(t2, sep_to()) {
                None => None,
                Some((from, t3)) => match parse_str(t3) {
                    None => None,
                    Some((to, t4)) => if t4 == tail_obj() {
                        Some((room, second, from, to))
                    } else {
                        None
                    },
                },
            },
        },
    }
}

/// Parse the two fields of a call-initiation intent.
pub open spec fn decode_initiate(t: Seq<char>) -> Option<MsgView> {
    match parse_field(t, sep_room()) {
        None => None,
        Some((peer, t1)) => match parse_str(t1) {
            None => None,
            Some((room, t2)) => if t2 == tail_obj() {
                Some(MsgView::InitiateCall { peer, room })
            } else {
                None
            },
        },
    }
}

/// The decoder: the unique message whose wire form the input is, if any.
pub open spec fn decode_spec(t: Seq<char>) -> Option<MsgView> {
    if starts_with(t, head_join()) {
        decode_join(after(t, head_join()))
    } else if starts_with(t, head_peer_list()) {
        match parse_list(after(t, head_peer_list())) {
            None => None,
            Some((ps, r)) => if r == tail_brace() {
                Some(MsgView::PeerList { peers: ps })
            } else {
                None
            },
        }
    } else if starts_with(t, head_offer()) {
        match decode_four(after(t, head_offer()), sep_sdp()) {
            None => None,
            Some((room, sdp, from, to)) => Some(MsgView::Offer { room, sdp, from, to }),
        }
    } else if starts_with(t, head_answer()) {
        match decode_four(after(t, head_answer()), sep_sdp()) {
            None => None,
            Some((room, sdp, from, to)) => Some(MsgView::Answer { room, sdp, from, to }),
        }
    } else if starts_with(t, head_ice()) {
        match decode_four(after(t, head_ice()), sep_cand()) {
            None => None,
            Some((room, candidate, from, to)) => Some(
                MsgView::IceCandidate { room, candidate, from, to },
            ),
        }
    } else if t == lit_request_peer_list() {
        Some(MsgView::RequestPeerList)
    } else if starts_with(t, head_initiate()) {
        decode_initiate(after(t, head_initiate()))
    } else {
        None
    }
}

/// A mismatch at one position refutes the whole prefix.
proof fn lemma_not_prefix(t: Seq<char>, p: Seq<char>, i: int)
    requires
        0 <= i < p.len(),
        i < t.len(),
        t[i] != p[i],
    ensures
        !starts_with(t, p),
{
    if starts_with(t, p) {
        assert(t.take(p.len() as int)[i] == t[i]);
    }
}

/// A field followed by its separator parses back to the field.
proof fn lemma_parse_field_enc(v: Seq<char>, sep: Seq<char>, rest: Seq<char>)
    requires
        sep.len() >= 1,
        sep[0] == '"',
    ensures
        parse_field(esc(v) + sep + rest, sep) == Some((v, rest)),
{
    let tail = sep + rest;
    assert(esc(v) + sep + rest =~= esc(v) + tail);
    lemma_parse_esc(v, tail);
    assert(tail.take(sep.len() as int) =~= sep);
    assert(after(tail, sep) =~= rest);
}

/// Reveal every literal of the wire grammar at once.
proof fn reveal_grammar()
    ensures
        head_join().len() == 23 && head_join()[9] == 'j',
        head_peer_list().len() == 29 && head_peer_list()[9] == 'p',
        head_offer().len() == 24 && head_offer()[9] == 'o',
        head_answer().len() == 25 && head_answer()[9] == 'a',
        head_ice().len() == 32 && head_ice()[9] == 'i' && head_ice()[10] == 'c',
        lit_request_peer_list().len() == 28 && lit_request_peer_list()[9] == 'r',
        head_initiate().len() == 32 && head_initiate()[9] == 'i' && head_initiate()[10] == 'n',
        sep_peer().len() == 10 && sep_peer()[0] == '"',
        sep_sdp().len() == 9 && sep_sdp()[0] == '"',
        sep_from().len() == 10 && sep_from()[0] == '"',
        sep_to().len() == 8 && sep_to()[0] == '"',
        sep_cand().len() == 15 && sep_cand()[0] == '"',
        sep_room().len() == 10 && sep_room()[0] == '"',
        tail_obj().len() == 2 && tail_obj()[0] == '"' && tail_obj()[1] == '}',
        tail_list() =~= seq![']'] + tail_brace(),
        tail_brace().len() == 1 && tail_brace()[0] == '}',
{
    reveal_strlit("{\"kind\":\"join\",\"room\":\"");
    reveal_strlit("{\"kind\":\"peer_list\",\"peers\":[");
    reveal_strlit("{\"kind\":\"offer\",\"room\":\"");
    reveal_strlit("{\"kind\":\"answer\",\"room\":\"");
    reveal_strlit("{\"kind\":\"ice_candidate\",\"room\":\"");
    reveal_strlit("{\"kind\":\"request_peer_list\"}");
    reveal_strlit("{\"kind\":\"initiate_call\",\"peer\":\"");
    reveal_strlit("\",\"peer\":\"");
    reveal_strlit("\",\"sdp\":\"");
    reveal_strlit("\",\"from\":\"");
    reveal_strlit("\",\"to\":\"");
    reveal_strlit("\",\"candidate\":\"");
    reveal_strlit("\",\"room\":\"");
    reveal_strlit("\"}");
    reveal_strlit("]}");
    reveal_strlit("}");
}

/// Decoding undoes encoding: every message comes back from its wire form.
#[verifier::rlimit(80)]
#[verifier::spinoff_prover]
pub proof fn lemma_decode_encode(m: MsgView)
    ensures
        decode_spec(encode_spec(m)) == Some(m),
{
    reveal_grammar();
    let t = encode_spec(m);
    match m {
        MsgView::Join { room, peer } => {
            assert(t.take(head_join().len() as int) =~= head_join());
            let body = after(t, head_join());
            assert(body =~= esc(room) + sep_peer() + (esc(peer) + tail_obj()));
            lemma_parse_field_enc(room, sep_peer(), esc(peer) + tail_obj());
            lemma_parse_esc(peer, tail_obj());
        },
        MsgView::PeerList { peers } => {
            assert(t[9] == 'p');
            lemma_not_prefix(t, head_join(), 9);
            assert(t.take(head_peer_list().len() as int) =~= head_peer_list());
            let body = after(t, head_peer_list());
            assert(body =~= enc_list(peers) + seq![']'] + tail_brace());
            lemma_parse_enc_list(peers, tail_brace());
        },
        MsgView::Offer { room, sdp, from, to } => {
            assert(t[9] == 'o');
            lemma_not_prefix(t, head_join(), 9);
            lemma_not_prefix(t, head_peer_list(), 9);
            assert(t.take(head_offer().len() as int) =~= head_offer());
            let body = after(t, head_offer());
            let rest3 = esc(to) + tail_obj();
            let rest2 = esc(from) + sep_to() + rest3;
            let rest1 = esc(sdp) + sep_from() + rest2;
            assert(body =~= esc(room) + sep_sdp() + rest1);
            lemma_parse_field_enc(room, sep_sdp(), rest1);
            assert(rest1 =~= esc(sdp) + sep_from() + rest2);
            lemma_parse_field_enc(sdp, sep_from(), rest2);
            assert(rest2 =~= esc(from) + sep_to() + rest3);
            lemma_parse_field_enc(from, sep_to(), rest3);
            lemma_parse_esc(to, tail_obj());
        },
        MsgView::Answer { room, sdp, from, to } => {
            assert(t[9] == 'a');
            lemma_not_prefix(t, head_join(), 9);
            lemma_not_prefix(t, head_peer_list(), 9);
            lemma_not_prefix(t, head_offer(), 9);
            assert(t.take(head_answer().len() as int) =~= head_answer());
            let body = after(t, head_answer());
            let rest3 = esc(to) + tail_obj();
            let rest2 = esc(from) + sep_to() + rest3;
            let rest1 = esc(sdp) + sep_from() + rest2;
            assert(body =~= esc(room) + sep_sdp() + rest1);
            lemma_parse_field_enc(room, sep_sdp(), rest1);
            assert(rest1 =~= esc(sdp) + sep_from() + rest2);
            lemma_parse_field_enc(sdp, sep_from(), rest2);
            assert(rest2 =~= esc(from) + sep_to() + rest3);
            lemma_parse_field_enc(from, sep_to(), rest3);
            lemma_parse_esc(to, tail_obj());
        },
        MsgView::IceCandidate { room, candidate, from, to } => {
            assert(t[9] == 'i');
            lemma_not_prefix(t, head_join(), 9);
            lemma_not_prefix(t, head_peer_list(), 9);
            lemma_not_prefix(t, head_offer(), 9);
            lemma_not_prefix(t, head_answer(), 9);
            assert(t.take(head_ice().len() as int) =~= head_ice());
            let body = after(t, head_ice());
            let rest3 = esc(to) + tail_obj();
            let rest2 = esc(from) + sep_to() + rest3;
            let rest1 = esc(candidate) + sep_from() + rest2;
            assert(body =~= esc(room) + sep_cand() + rest1);
            lemma_parse_field_enc(room, sep_cand(), rest1);
            assert(rest1 =~= esc(candidate) + sep_from() + rest2);
            lemma_parse_field_enc(candidate, sep_from(), rest2);
            assert(rest2 =~= esc(from) + sep_to() + rest3);
            lemma_parse_field_enc(from, sep_to(), rest3);
            lemma_parse_esc(to, tail_obj());
        },
        MsgView::RequestPeerList => {
            assert(t[9] == 'r');
            lemma_not_prefix(t, head_join(), 9);
            lemma_not_prefix(t, head_peer_list(), 9);
            lemma_not_prefix(t, head_offer(), 9);
            lemma_not_prefix(t, head_answer(), 9);
            lemma_not_prefix(t, head_ice(), 9);
        },
        MsgView::InitiateCall { peer, room } => {
            assert(t[9] == 'i');
            assert(t[10] == 'n');
            lemma_not_prefix(t, head_join(), 9);
            lemma_not_prefix(t, head_peer_list(), 9);
            lemma_not_prefix(t, head_offer(), 9);
            lemma_not_prefix(t, head_answer(), 9);
            lemma_not_prefix(t, head_ice(), 10);
            assert(t != lit_request_peer_list()) by {
                if t == lit_request_peer_list() {
                    assert(t[9] == 'r');
                }
            }
            assert(t.take(head_initiate().len() as int) =~= head_initiate());
            let body = after(t, head_initiate());
            assert(body =~= esc(peer) + sep_room() + (esc(room) + tail_obj()));
            lemma_parse_field_enc(peer, sep_room(), esc(room) + tail_obj());
            lemma_parse_esc(room, tail_obj());
        },
    }
}

/// The wire form identifies the message: two messages with the same
/// encoding are the same message.
pub proof fn lemma_encode_injective(m1: MsgView, m2: MsgView)
    requires
        encode_spec(m1) == encode_spec(m2),
    ensures
        m1 == m2,
{
    lemma_decode_encode(m1);
    lemma_decode_encode(m2);
}

/// What an ordered sequence of inbound frames decodes to: malformed
/// frames are skipped, well-formed ones keep their order.
pub open spec fn decode_frames_spec(frames: Seq<Seq<char>>) -> Seq<MsgView>
    decreases frames.len(),
{
    if frames.len() == 0 {
        Seq::empty()
    } else {
        match decode_spec(frames[0]) {
            Some(m) => seq![m] + decode_frames_spec(frames.drop_first()),
            None => decode_frames_spec(frames.drop_first()),
        }
    }
}

/// In-order delivery: sending any sequence of messages and decoding the
/// frames on the other side yields exactly that sequence, in order.
pub proof fn lemma_ordered_delivery(msgs: Seq<MsgView>)
    ensures
        decode_frames_spec(msgs.map_values(|m: MsgView| encode_spec(m))) == msgs,
    decreases msgs.len(),
{
    let frames = msgs.map_values(|m: MsgView| encode_spec(m));
    if msgs.len() == 0 {
        assert(decode_frames_spec(frames) =~= msgs);
    } else {
        lemma_decode_encode(msgs[0]);
        assert(frames[0] == encode_spec(msgs[0]));
        assert(frames.drop_first() =~= msgs.drop_first().map_values(
            |m: MsgView| encode_spec(m),
        ));
        lemma_ordered_delivery(msgs.drop_first());
        assert(seq![msgs[0]] + msgs.drop_first() =~= msgs);
    }
}


/// Relies on `String: FromIterator<char>`: collecting characters yields
/// exactly the string of those characters, in order.
#[verifier::external_body]
fn string_from_chars(v: &Vec<char>) -> (s: String)
    ensures
        s@ == v@,
{
    v.iter().collect()
}

/// Append a literal to the output.
fn push_lit(out: &mut Vec<char>, lit: &str)
    ensures
        final(out)@ == old(out)@ + lit@,
{
    let cs = chars_of(lit);
    let mut i: usize = 0;
    while i < cs.len()
        invariant
            cs@ == lit@,
            i <= cs.len(),
            out@ == old(out)@ + lit@.take(i as int),
        decreases cs.len() - i,
    {
        out.push(cs[i]);
        proof {
            assert(out@ =~= old(out)@ + lit@.take(i as int + 1));
        }
        i = i + 1;
    }
    proof {
        assert(out@ =~= old(out)@ + lit@);
    }
}

/// Append a payload, escaped.
fn push_escaped(out: &mut Vec<char>, s: &str)
    ensures
        final(out)@ == old(out)@ + esc(s@),
{
    let cs = chars_of(s);
    let mut i: usize = 0;
    proof {
        assert(esc(s@.take(0)) =~= Seq::<char>::empty());
        assert(out@ =~= old(out)@ + esc(s@.take(0)));
    }
    while i < cs.len()
        invariant
            cs@ == s@,
            i <= cs.len(),
            out@ == old(out)@ + esc(s@.take(i as int)),
        decreases cs.len() - i,
    {
        let c = cs[i];
        if c == '"' || c == '\\' {
            out.push('\\');
            out.push(c);
        } else {
            out.push(c);
        }
        proof {
            lemma_esc_append(s@.take(i as int), seq![s@[i as int]]);
            assert(s@.take(i as int) + seq![s@[i as int]] =~= s@.take(i as int + 1));
            assert(seq![s@[i as int]].drop_first() =~= Seq::<char>::empty());
            assert(esc(Seq::<char>::empty()) =~= Seq::<char>::empty());
            assert(esc(seq![s@[i as int]]) =~= esc_char(s@[i as int]));
            assert(out@ =~= old(out)@ + esc(s@.take(i as int + 1)));
        }
        i = i + 1;
    }
    proof {
        assert(s@.take(cs@.len() as int) =~= s@);
    }
}

/// Pushing one more element onto a non-empty list extends its wire form
/// by a comma and the element.
proof fn lemma_enc_list_snoc(ps: Seq<Seq<char>>, p: Seq<char>)
    requires
        ps.len() >= 1,
    ensures
        enc_list(ps.push(p)) == enc_list(ps) + seq![','] + enc_elem(p),
    decreases ps.len(),
{
    if ps.len() == 1 {
        assert(ps.push(p).drop_first() =~= seq![p]);
        assert(enc_list(seq![p]) =~= enc_elem(p));
        assert(enc_list(ps.push(p)) =~= enc_list(ps) + seq![','] + enc_elem(p));
    } else {
        assert(ps.push(p).drop_first() =~= ps.drop_first().push(p));
        lemma_enc_list_snoc(ps.drop_first(), p);
        assert(enc_list(ps.push(p)) =~= enc_list(ps) + seq![','] + enc_elem(p));
    }
}

/// Append a whole peer list body.
fn push_list(out: &mut Vec<char>, ps: &Vec<String>)
    ensures
        final(out)@ == old(out)@ + enc_list(ps@.map_values(|p: String| p@)),
{
    let ghost psv = ps@.map_values(|p: String| p@);
    let mut i: usize = 0;
    proof {
        assert(out@ =~= old(out)@ + enc_list(psv.take(0)));
    }
    while i < ps.len()
        invariant
            psv == ps@.map_values(|p: String| p@),
            i <= ps.len(),
            out@ == old(out)@ + enc_list(psv.take(i as int)),
        decreases ps.len() - i,
    {
        if i > 0 {
            out.push(',');
        }
        out.push('"');
        push_escaped(out, ps[i].as_str());
        out.push('"');
        proof {
            let prefix = psv.take(i as int);
            let elem = psv[i as int];
            assert(psv.take(i as int + 1) =~= prefix.push(elem));
            if i == 0 {
                assert(prefix.push(elem) =~= seq![elem]);
                assert(enc_list(seq![elem]) =~= enc_elem(elem));
                assert(out@ =~= old(out)@ + enc_list(psv.take(i as int + 1)));
            } else {
                lemma_enc_list_snoc(prefix, elem);
                assert(out@ =~= old(out)@ + enc_list(psv.take(i as int + 1)));
            }
        }
        i = i + 1;
    }
    proof {
        assert(psv.take(ps@.len() as int) =~= psv);
    }
}

/// Serialize a message into its one wire form.
pub fn encode(m: &SignalingMessage) -> (r: String)
    ensures
        r@ == encode_spec(m@),
{
    let mut out: Vec<char> = Vec::new();
    proof {
        assert(out@ =~= Seq::<char>::empty());
    }
    match m {
        SignalingMessage::Join { room, peer } => {
            push_lit(&mut out, "{\"kind\":\"join\",\"room\":\"");
            push_escaped(&mut out, room.as_str());
            push_lit(&mut out, "\",\"peer\":\"");
            push_escaped(&mut out, peer.as_str());
            push_lit(&mut out, "\"}");
            proof {
                assert(out@ =~= encode_spec(m@));
            }
        },
        SignalingMessage::PeerList { peers } => {
            push_lit(&mut out, "{\"kind\":\"peer_list\",\"peers\":[");
            push_list(&mut out, peers);
            push_lit(&mut out, "]}");
            proof {
                assert(out@ =~= encode_spec(m@));
            }
        },
        SignalingMessage::Offer { room, sdp, from, to } => {
            push_lit(&mut out, "{\"kind\":\"offer\",\"room\":\"");
            push_escaped(&mut out, room.as_str());
            push_lit(&mut out, "\",\"sdp\":\"");
            push_escaped(&mut out, sdp.as_str());
            push_lit(&mut out, "\",\"from\":\"");
            push_escaped(&mut out, from.as_str());
            push_lit(&mut out, "\",\"to\":\"");
            push_escaped(&mut out, to.as_str());
            push_lit(&mut out, "\"}");
            proof {
                assert(out@ =~= encode_spec(m@));
            }
        },
        SignalingMessage::Answer { room, sdp, from, to } => {
            push_lit(&mut out, "{\"kind\":\"answer\",\"room\":\"");
            push_escaped(&mut out, room.as_str());
            push_lit(&mut out, "\",\"sdp\":\"");
            push_escaped(&mut out, sdp.as_str());
            push_lit(&mut out, "\",\"from\":\"");
            push_escaped(&mut out, from.as_str());
            push_lit(&mut out, "\",\"to\":\"");
            push_escaped(&mut out, to.as_str());
            push_lit(&mut out, "\"}");
            proof {
                assert(out@ =~= encode_spec(m@));
            }
        },
        SignalingMessage::IceCandidate { room, candidate, from, to } => {
            push_lit(&mut out, "{\"kind\":\"ice_candidate\",\"room\":\"");
            push_escaped(&mut out, room.as_str());
            push_lit(&mut out, "\",\"candidate\":\"");
            push_escaped(&mut out, candidate.as_str());
            push_lit(&mut out, "\",\"from\":\"");
            push_escaped(&mut out, from.as_str());
            push_lit(&mut out, "\",\"to\":\"");
            push_escaped(&mut out, to.as_str());
            push_lit(&mut out, "\"}");
            proof {
                assert(out@ =~= encode_spec(m@));
            }
        },
        SignalingMessage::RequestPeerList => {
            push_lit(&mut out, "{\"kind\":\"request_peer_list\"}");
            proof {
                assert(out@ =~= encode_spec(m@));
            }
        },
        SignalingMessage::InitiateCall { peer, room } => {
            push_lit(&mut out, "{\"kind\":\"initiate_call\",\"peer\":\"");
            push_escaped(&mut out, peer.as_str());
            push_lit(&mut out, "\",\"room\":\"");
            push_escaped(&mut out, room.as_str());
            push_lit(&mut out, "\"}");
            proof {
                assert(out@ =~= encode_spec(m@));
            }
        },
    }
    string_from_chars(&out)
}


/// The abstract value of an optional decoded message.
pub open spec fn view_opt_msg(r: Option<SignalingMessage>) -> Option<MsgView> {
    match r {
        Some(m) => Some(m@),
        None => None,
    }
}

/// Relates the parse of the original suffix to the parse of the current
/// suffix, given the payload characters already accumulated.
spec fn parse_rel(
    orig: Option<(Seq<char>, Seq<char>)>,
    acc: Seq<char>,
    cur: Option<(Seq<char>, Seq<char>)>,
) -> bool {
    match cur {
        None => orig is None,
        Some((w, r)) => orig == Some((acc + w, r)),
    }
}

/// Parse one quoted payload of `v` starting at `i`, stopping at the
/// closing quote (which is left in place at the returned index).
fn parse_str_exec(v: &Vec<char>, i: usize) -> (r: Option<(String, usize)>)
    requires
        i <= v@.len(),
    ensures
        match r {
            Some(vj) => {
                &&& parse_str(v@.skip(i as int)) == Some((vj.0@, v@.skip(vj.1 as int)))
                &&& i <= vj.1 < v@.len()
                &&& v@[vj.1 as int] == '"'
            },
            None => parse_str(v@.skip(i as int)) is None,
        },
{
    let ghost orig = parse_str(v@.skip(i as int));
    let mut acc: Vec<char> = Vec::new();
    let mut j: usize = i;
    proof {
        assert(acc@ =~= Seq::<char>::empty());
        match orig {
            Some((w, r)) => {
                assert(acc@ + w =~= w);
            },
            None => {},
        }
    }
    loop
        invariant
            i <= j <= v@.len(),
            orig == parse_str(v@.skip(i as int)),
            parse_rel(orig, acc@, parse_str(v@.skip(j as int))),
        ensures
            ({
                let cur = parse_str(v@.skip(j as int));
                &&& j <= v@.len()
                &&& (cur matches Some(wr) && wr.0 =~= Seq::<char>::empty() && wr.1 == v@.skip(
                    j as int,
                ) && orig == Some((acc@, v@.skip(j as int))) && j < v@.len() && v@[j as int] == '"')
                    || (cur is None && orig is None && j == v@.len())
            }),
        decreases v@.len() - j,
    {
        if j == v.len() {
            proof {
                assert(v@.skip(j as int).len() == 0);
            }
            break ;
        }
        let c = v[j];
        proof {
            assert(v@.skip(j as int)[0] == v@[j as int]);
        }
        if c == '"' {
            proof {
                assert(parse_str(v@.skip(j as int)) == Some(
                    (Seq::<char>::empty(), v@.skip(j as int)),
                ));
                assert(acc@ + Seq::<char>::empty() =~= acc@);
            }
            break ;
        }
        if c == '\\' {
            if j + 1 == v.len() {
                proof {
                    assert(v@.skip(j as int).len() == 1);
                    assert(parse_str(v@.skip(j as int)) is None);
                }
                return None;
            }
            let c2 = v[j + 1];
            proof {
                assert(v@.skip(j as int)[1] == v@[j as int + 1]);
                assert(v@.skip(j as int).len() >= 2);
            }
            if c2 == '"' || c2 == '\\' {
                let ghost acc0 = acc@;
                acc.push(c2);
                proof {
                    assert(v@.skip(j as int).skip(2) =~= v@.skip(j as int + 2));
                    let cur = parse_str(v@.skip(j as int));
                    let nxt = parse_str(v@.skip(j as int + 2));
                    match nxt {
                        None => {
                            assert(cur is None);
                        },
                        Some((w, r)) => {
                            assert(cur == Some((seq![v@[j as int + 1]] + w, r)));
                            assert(acc0 + (seq![v@[j as int + 1]] + w) =~= acc@ + w);
                        },
                    }
                }
                j = j + 2;
            } else {
                proof {
                    assert(parse_str(v@.skip(j as int)) is None);
                }
                return None;
            }
        } else {
            let ghost acc0 = acc@;
            acc.push(c);
            proof {
                assert(v@.skip(j as int).drop_first() =~= v@.skip(j as int + 1));
                let cur = parse_str(v@.skip(j as int));
                let nxt = parse_str(v@.skip(j as int + 1));
                match nxt {
                    None => {
                        assert(cur is None);
                    },
                    Some((w, r)) => {
                        assert(cur == Some((seq![v@[j as int]] + w, r)));
                        assert(acc0 + (seq![v@[j as int]] + w) =~= acc@ + w);
                    },
                }
            }
            j = j + 1;
        }
    }
    if j < v.len() {
        let s = string_from_chars(&acc);
        Some((s, j))
    } else {
        None
    }
}

/// Does the literal `lit` stand at position `i` of `v`? On success the
/// returned index points just past it.
fn match_lit_at(v: &Vec<char>, i: usize, lit: &str) -> (r: Option<usize>)
    requires
        i <= v@.len(),
    ensures
        match r {
            Some(j) => {
                &&& starts_with(v@.skip(i as int), lit@)
                &&& i <= j <= v@.len()
                &&& j == i + lit@.len()
                &&& v@.skip(j as int) == after(v@.skip(i as int), lit@)
            },
            None => !starts_with(v@.skip(i as int), lit@),
        },
{
    let cs = chars_of(lit);
    if v.len() - i < cs.len() {
        proof {
            assert(v@.skip(i as int).len() < lit@.len());
        }
        return None;
    }
    let mut k: usize = 0;
    proof {
        assert(v@.len() <= usize::MAX);
    }
    while k < cs.len()
        invariant
            cs@ == lit@,
            k <= cs.len(),
            i + cs.len() <= v@.len(),
            v@.len() <= usize::MAX,
            forall|t: int| 0 <= t < k ==> v@[i + t] == lit@[t],
        decreases cs.len() - k,
    {
        if v[i + k] != cs[k] {
            proof {
                if starts_with(v@.skip(i as int), lit@) {
                    assert(v@.skip(i as int).take(lit@.len() as int)[k as int] == v@.skip(
                        i as int,
                    )[k as int]);
                    assert(v@.skip(i as int)[k as int] == v@[i + k]);
                }
            }
            return None;
        }
        k = k + 1;
    }
    proof {
        assert(v@.skip(i as int).take(lit@.len() as int) =~= lit@);
        assert(v@.skip(i as int).skip(lit@.len() as int) =~= v@.skip(i as int + lit@.len()));
    }
    Some(i + cs.len())
}

/// Parse one string field followed by the separator `sep`.
fn parse_field_exec(v: &Vec<char>, i: usize, sep: &str) -> (r: Option<(String, usize)>)
    requires
        i <= v@.len(),
    ensures
        match r {
            Some(vj) => {
                &&& parse_field(v@.skip(i as int), sep@) == Some((vj.0@, v@.skip(vj.1 as int)))
                &&& i <= vj.1 <= v@.len()
            },
            None => parse_field(v@.skip(i as int), sep@) is None,
        },
{
    match parse_str_exec(v, i) {
        None => None,
        Some((val, k)) => {
            match match_lit_at(v, k, sep) {
                None => None,
                Some(j) => Some((val, j)),
            }
        },
    }
}

/// Is the rest of `v` from `i` exactly the object tail `"}`?
fn at_tail_obj(v: &Vec<char>, i: usize) -> (r: bool)
    requires
        i <= v@.len(),
    ensures
        r == (v@.skip(i as int) == tail_obj()),
{
    proof {
        reveal_strlit("\"}");
    }
    if v.len() - i == 2 && v[i] == '"' && v[i + 1] == '}' {
        proof {
            assert(v@.skip(i as int) =~= tail_obj());
        }
        true
    } else {
        proof {
            if v@.skip(i as int) == tail_obj() {
                assert(v@.skip(i as int).len() == 2);
                assert(v@[i as int] == tail_obj()[0]);
                assert(v@[i as int + 1] == tail_obj()[1]);
            }
        }
        false
    }
}

/// Relates the original list parse to the current one, given the
/// elements already accumulated.
spec fn list_rel(
    orig: Option<(Seq<Seq<char>>, Seq<char>)>,
    acc: Seq<Seq<char>>,
    cur: Option<(Seq<Seq<char>>, Seq<char>)>,
) -> bool {
    match cur {
        None => orig is None,
        Some((vs, r)) => orig == Some((acc + vs, r)),
    }
}

/// Parse a quoted-string list of `v` starting at `i`, consuming the
/// closing `]`.
fn parse_list_exec(v: &Vec<char>, i: usize) -> (r: Option<(Vec<String>, usize)>)
    requires
        i <= v@.len(),
    ensures
        match r {
            Some(vj) => {
                &&& parse_list(v@.skip(i as int)) == Some(
                    (vj.0@.map_values(|p: String| p@), v@.skip(vj.1 as int)),
                )
                &&& i <= vj.1 <= v@.len()
            },
            None => parse_list(v@.skip(i as int)) is None,
        },
{
    let ghost orig = parse_list(v@.skip(i as int));
    let mut acc: Vec<String> = Vec::new();
    let mut j: usize = i;
    proof {
        assert(acc@.map_values(|p: String| p@) =~= Seq::<Seq<char>>::empty());
        match orig {
            Some((vs, r)) => {
                assert(acc@.map_values(|p: String| p@) + vs =~= vs);
            },
            None => {},
        }
    }
    loop
        invariant
            i <= j <= v@.len(),
            orig == parse_list(v@.skip(i as int)),
            list_rel(orig, acc@.map_values(|p: String| p@), parse_list(v@.skip(j as int))),
        decreases v@.len() - j,
    {
        let ghost accv = acc@.map_values(|p: String| p@);
        if j == v.len() {
            proof {
                assert(v@.skip(j as int).len() == 0);
            }
            return None;
        }
        let c = v[j];
        proof {
            assert(v@.skip(j as int)[0] == v@[j as int]);
        }
        if c == ']' {
            proof {
                assert(v@.skip(j as int).drop_first() =~= v@.skip(j as int + 1));
                assert(parse_list(v@.skip(j as int)) == Some(
                    (Seq::<Seq<char>>::empty(), v@.skip(j as int + 1)),
                ));
                assert(accv + Seq::<Seq<char>>::empty() =~= accv);
            }
            return Some((acc, j + 1));
        }
        if c != '"' {
            proof {
                assert(parse_list(v@.skip(j as int)) is None);
            }
            return None;
        }
        proof {
            assert(v@.skip(j as int).drop_first() =~= v@.skip(j as int + 1));
        }
        match parse_str_exec(v, j + 1) {
            None => {
                proof {
                    assert(parse_list(v@.skip(j as int)) is None);
                }
                return None;
            },
            Some((val, k)) => {
                let ghost rsuf = v@.skip(k as int);
                proof {
                    assert(rsuf[0] == '"');
                    assert(rsuf.len() >= 1);
                }
                if k + 1 < v.len() && v[k + 1] == ']' {
                    acc.push(val);
                    proof {
                        assert(rsuf[1] == v@[k as int + 1]);
                        assert(rsuf.len() >= 2);
                        assert(rsuf.skip(2) =~= v@.skip(k as int + 2));
                        assert(parse_list(v@.skip(j as int)) == Some(
                            (seq![val@], v@.skip(k as int + 2)),
                        ));
                        assert(acc@.map_values(|p: String| p@) =~= accv.push(val@));
                        assert(accv + seq![val@] =~= accv.push(val@));
                    }
                    return Some((acc, k + 2));
                }
                if v.len() - k > 2 && v[k + 1] == ',' && v[k + 2] == '"' {
                    acc.push(val);
                    proof {
                        assert(rsuf[1] == v@[k as int + 1]);
                        assert(rsuf[2] == v@[k as int + 2]);
                        assert(rsuf.len() >= 3);
                        assert(rsuf[1] != ']');
                        assert(rsuf.skip(2) =~= v@.skip(k as int + 2));
                        let cur = parse_list(v@.skip(j as int));
                        let nxt = parse_list(v@.skip(k as int + 2));
                        match nxt {
                            None => {
                                assert(cur is None);
                            },
                            Some((vs, rr)) => {
                                assert(cur == Some((seq![val@] + vs, rr)));
                                assert(acc@.map_values(|p: String| p@) =~= accv.push(val@));
                                assert(accv + (seq![val@] + vs) =~= accv.push(val@) + vs);
                            },
                        }
                    }
                    j = k + 2;
                } else {
                    proof {
                        if rsuf.len() >= 2 && rsuf[1] == ']' {
                            assert(v@[k as int + 1] == ']');
                            assert(k as int + 2 <= v@.len());
                        }
                        if rsuf.len() >= 3 && rsuf[1] == ',' && rsuf[2] == '"' {
                            assert(v@[k as int + 1] == ',');
                            assert(v@[k as int + 2] == '"');
                        }
                        assert(parse_list(v@.skip(j as int)) is None);
                    }
                    return None;
                }
            },
        }
    }
}

/// Decode one frame: the message whose wire form it is, or nothing.
pub fn decode(s: &str) -> (r: Option<SignalingMessage>)
    ensures
        view_opt_msg(r) == decode_spec(s@),
{
    let v = chars_of(s);
    proof {
        assert(v@.skip(0) =~= v@);
    }
    if let Some(i) = match_lit_at(&v, 0, "{\"kind\":\"join\",\"room\":\"") {
        return match parse_field_exec(&v, i, "\",\"peer\":\"") {
            None => None,
            Some((room, j)) => match parse_str_exec(&v, j) {
                None => None,
                Some((peer, k)) => {
                    if at_tail_obj(&v, k) {
                        Some(SignalingMessage::Join { room, peer })
                    } else {
                        None
                    }
                },
            },
        };
    }
    if let Some(i) = match_lit_at(&v, 0, "{\"kind\":\"peer_list\",\"peers\":[") {
        return match parse_list_exec(&v, i) {
            None => None,
            Some((peers, j)) => {
                proof {
                    reveal_strlit("}");
                }
                if v.len() - j == 1 && v[j] == '}' {
                    proof {
                        assert(v@.skip(j as int) =~= tail_brace());
                    }
                    Some(SignalingMessage::PeerList { peers })
                } else {
                    proof {
                        if v@.skip(j as int) == tail_brace() {
                            assert(v@.skip(j as int).len() == 1);
                            assert(v@[j as int] == tail_brace()[0]);
                        }
                    }
                    None
                }
            },
        };
    }
    if let Some(i) = match_lit_at(&v, 0, "{\"kind\":\"offer\",\"room\":\"") {
        return match decode_four_exec(&v, i, "\",\"sdp\":\"") {
            None => None,
            Some((room, sdp, from, to)) => Some(SignalingMessage::Offer { room, sdp, from, to }),
        };
    }
    if let Some(i) = match_lit_at(&v, 0, "{\"kind\":\"answer\",\"room\":\"") {
        return match decode_four_exec(&v, i, "\",\"sdp\":\"") {
            None => None,
            Some((room, sdp, from, to)) => Some(SignalingMessage::Answer { room, sdp, from, to }),
        };
    }
    if let Some(i) = match_lit_at(&v, 0, "{\"kind\":\"ice_candidate\",\"room\":\"") {
        return match decode_four_exec(&v, i, "\",\"candidate\":\"") {
            None => None,
            Some((room, candidate, from, to)) => Some(
                SignalingMessage::IceCandidate { room, candidate, from, to },
            ),
        };
    }
    if let Some(i) = match_lit_at(&v, 0, "{\"kind\":\"request_peer_list\"}") {
        if i == v.len() {
            proof {
                assert(v@.take(lit_request_peer_list().len() as int) =~= v@);
            }
            return Some(SignalingMessage::RequestPeerList);
        }
        proof {
            reveal_grammar();
            assert(v@.take(lit_request_peer_list().len() as int)[9] == v@[9]);
            assert(v@[9] == 'r');
            assert(v@ != lit_request_peer_list()) by {
                if v@ == lit_request_peer_list() {
                    assert(v@.len() == lit_request_peer_list().len());
                }
            }
            lemma_not_prefix(v@, head_initiate(), 9);
        }
        return None;
    }
    proof {
        if v@ == lit_request_peer_list() {
            assert(v@.take(lit_request_peer_list().len() as int) =~= v@);
            assert(starts_with(v@, lit_request_peer_list()));
        }
    }
    if let Some(i) = match_lit_at(&v, 0, "{\"kind\":\"initiate_call\",\"peer\":\"") {
        return match parse_field_exec(&v, i, "\",\"room\":\"") {
            None => None,
            Some((peer, j)) => match parse_str_exec(&v, j) {
                None => None,
                Some((room, k)) => {
                    if at_tail_obj(&v, k) {
                        Some(SignalingMessage::InitiateCall { peer, room })
                    } else {
                        None
                    }
                },
            },
        };
    }
    None
}

/// Parse the room, kind-specific, from and to fields shared by offer,
/// answer and candidate messages.
fn decode_four_exec(v: &Vec<char>, i: usize, mid: &str) -> (r: Option<
    (String, String, String, String),
>)
    requires
        i <= v@.len(),
    ensures
        match r {
            Some(f) => decode_four(v@.skip(i as int), mid@) == Some((f.0@, f.1@, f.2@, f.3@)),
            None => decode_four(v@.skip(i as int), mid@) is None,
        },
{
    match parse_field_exec(v, i, mid) {
        None => None,
        Some((room, j1)) => match parse_field_exec(v, j1, "\",\"from\":\"") {
            None => None,
            Some((second, j2)) => match parse_field_exec(v, j2, "\",\"to\":\"") {
                None => None,
                Some((from, j3)) => match parse_str_exec(v, j3) {
                    None => None,
                    Some((to, j4)) => {
                        if at_tail_obj(v, j4) {
                            Some((room, second, from, to))
                        } else {
                            None
                        }
                    },
                },
            },
        },
    }
}


} // verus!
