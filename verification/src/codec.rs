//! The wire codec: encoding and decoding of the JSON envelope that every
//! frame carries, and of the nested chat payload inside a `Message`
//! envelope.
//!
//! The wire shape of an envelope is a JSON object with a `messageType` key
//! (one of `users`, `register`, `message`), an optional `dataArray` key (a
//! string array or `null`, meaningful for `users`), and an optional `data`
//! key (a string or `null`, required for `register` and `message`). Keys
//! come in that order, without surrounding whitespace, as this codec and
//! its counterpart emit them. The nested chat payload is a JSON object
//! `{"from": string, "message": string}`.

use vstd::prelude::*;

use crate::envelope::{ChatMessage, Envelope, EnvelopeView, WireError};
use crate::json::{
    arr_items_text, arr_text, esc, lemma_parse_items_of_text, lemma_parse_lit_concat,
    lemma_parse_lit_mismatch, lemma_scan_esc, match_lit, parse_items, parse_items_str, parse_lit,
    scan_str, scan_string,
};

verus! {

// ---------------------------------------------------------------------------
// Specification: encoding
// ---------------------------------------------------------------------------

/// The exact frame text an envelope is encoded as.
pub open spec fn spec_encode(v: EnvelopeView) -> Seq<char> {
    match v {
        EnvelopeView::Users(names) => "{\"messageType\":\"".view() + "users\"".view()
            + ",\"dataArray\":".view() + arr_text(names) + "}".view(),
        EnvelopeView::Register(name) => "{\"messageType\":\"".view() + "register\"".view()
            + ",\"data\":\"".view() + esc(name) + "\"}".view(),
        EnvelopeView::Message(body) => "{\"messageType\":\"".view() + "message\"".view()
            + ",\"data\":\"".view() + esc(body) + "\"}".view(),
    }
}

/// The exact text a chat payload is encoded as.
pub open spec fn spec_encode_chat(sender: Seq<char>, body: Seq<char>) -> Seq<char> {
    "{\"from\":\"".view() + esc(sender) + "\",\"message\":\"".view() + esc(body) + "\"}".view()
}

// ---------------------------------------------------------------------------
// Specification: decoding
// ---------------------------------------------------------------------------

/// Parses the optional `data` member and the closing brace; `i` points just
/// past what came before. Yields the `data` string (if present and not
/// `null`) and the index just past the brace.
pub open spec fn parse_data_part(s: Seq<char>, i: int) -> Option<(Option<Seq<char>>, int)> {
    match parse_lit(s, i, "}".view()) {
        Some(j) => Some((None, j)),
        None => match parse_lit(s, i, ",\"data\":null}".view()) {
            Some(j) => Some((None, j)),
            None => match parse_lit(s, i, ",\"data\":\"".view()) {
                Some(j) => match scan_string(s, j) {
                    Some(t_k) => match parse_lit(s, t_k.1, "}".view()) {
                        Some(m) => Some((Some(t_k.0), m)),
                        None => None,
                    },
                    None => None,
                },
                None => None,
            },
        },
    }
}

/// Parses a `dataArray` value: `null`, an empty array, or a non-empty
/// string array.
pub open spec fn parse_array(s: Seq<char>, i: int) -> Option<(Option<Seq<Seq<char>>>, int)> {
    match parse_lit(s, i, "null".view()) {
        Some(j) => Some((None, j)),
        None => match parse_lit(s, i, "[]".view()) {
            Some(j) => Some((Some(Seq::empty()), j)),
            None => match parse_lit(s, i, "[".view()) {
                Some(j) => match parse_items(s, j) {
                    Some(ts_k) => Some((Some(ts_k.0), ts_k.1)),
                    None => None,
                },
                None => None,
            },
        },
    }
}

/// Parses what follows the kind tag: an optional `dataArray` member, an
/// optional `data` member, and the closing brace.
pub open spec fn parse_rest(s: Seq<char>, i: int) -> Option<
    (Option<Seq<Seq<char>>>, Option<Seq<char>>, int),
> {
    match parse_lit(s, i, ",\"dataArray\":".view()) {
        Some(j) => match parse_array(s, j) {
            Some(a_k) => match parse_data_part(s, a_k.1) {
                Some(d_m) => Some((a_k.0, d_m.0, d_m.1)),
                None => None,
            },
            None => None,
        },
        None => match parse_data_part(s, i) {
            Some(d_m) => Some((None, d_m.0, d_m.1)),
            None => None,
        },
    }
}

/// The envelope a frame text decodes to, if it is well-formed. A `users`
/// frame without a `dataArray` (or with `null`) yields the empty roster; a
/// `register` or `message` frame must carry a `data` string.
pub open spec fn spec_decode(s: Seq<char>) -> Option<EnvelopeView> {
    match parse_lit(s, 0, "{\"messageType\":\"".view()) {
        None => None,
        Some(i) => match parse_lit(s, i, "users\"".view()) {
            Some(j) => match parse_rest(s, j) {
                Some(r) => if r.2 == s.len() {
                    Some(
                        EnvelopeView::Users(
                            match r.0 {
                                Some(a) => a,
                                None => Seq::empty(),
                            },
                        ),
                    )
                } else {
                    None
                },
                None => None,
            },
            None => match parse_lit(s, i, "register\"".view()) {
                Some(j) => match parse_rest(s, j) {
                    Some(r) => if r.2 == s.len() {
                        match r.1 {
                            Some(t) => Some(EnvelopeView::Register(t)),
                            None => None,
                        }
                    } else {
                        None
                    },
                    None => None,
                },
                None => match parse_lit(s, i, "message\"".view()) {
                    Some(j) => match parse_rest(s, j) {
                        Some(r) => if r.2 == s.len() {
                            match r.1 {
                                Some(t) => Some(EnvelopeView::Message(t)),
                                None => None,
                            }
                        } else {
                            None
                        },
                        None => None,
                    },
                    None => None,
                },
            },
        },
    }
}

/// The chat payload a text decodes to, if it is well-formed: the sender
/// and the message body.
pub open spec fn spec_decode_chat(s: Seq<char>) -> Option<(Seq<char>, Seq<char>)> {
    match parse_lit(s, 0, "{\"from\":\"".view()) {
        Some(i) => match scan_string(s, i) {
            Some(f_j) => match parse_lit(s, f_j.1, ",\"message\":\"".view()) {
                Some(k) => match scan_string(s, k) {
                    Some(b_m) => match parse_lit(s, b_m.1, "}".view()) {
                        Some(end) => if end == s.len() {
                            Some((f_j.0, b_m.0))
                        } else {
                            None
                        },
                        None => None,
                    },
                    None => None,
                },
                None => None,
            },
            None => None,
        },
        None => None,
    }
}

// ---------------------------------------------------------------------------
// Round trip: decoding inverts encoding
// ---------------------------------------------------------------------------

/// Round trip for the wire envelope: every envelope decodes back from its
/// own encoding.
pub proof fn lemma_round_trip(v: EnvelopeView)
    ensures
        spec_decode(spec_encode(v)) == Some(v),
{
    reveal_strlit("{\"messageType\":\"");
    reveal_strlit("users\"");
    reveal_strlit("register\"");
    reveal_strlit("message\"");
    reveal_strlit(",\"dataArray\":");
    reveal_strlit(",\"data\":null}");
    reveal_strlit(",\"data\":\"");
    reveal_strlit("\"}");
    reveal_strlit("}");
    reveal_strlit("null");
    reveal_strlit("[]");
    reveal_strlit("[");
    let s = spec_encode(v);
    let hdr = "{\"messageType\":\"".view();
    let close = "}".view();
    match v {
        EnvelopeView::Users(names) => {
            let tag = "users\"".view();
            let akey = ",\"dataArray\":".view();
            let rest1 = tag + akey + arr_text(names) + close;
            assert(s =~= Seq::<char>::empty() + hdr + rest1);
            lemma_parse_lit_concat(Seq::<char>::empty(), hdr, rest1);
            let i = hdr.len() as int;
            assert(s =~= hdr + tag + (akey + arr_text(names) + close));
            lemma_parse_lit_concat(hdr, tag, akey + arr_text(names) + close);
            let j = i + tag.len() as int;
            assert(s =~= (hdr + tag) + akey + (arr_text(names) + close));
            lemma_parse_lit_concat(hdr + tag, akey, arr_text(names) + close);
            let k = j + akey.len() as int;
            // the array value
            assert(s[k] == '[');
            lemma_parse_lit_mismatch(s, k, "null".view(), 0);
            if names.len() == 0 {
                assert(arr_text(names) =~= "[]".view());
                assert(s =~= (hdr + tag + akey) + "[]".view() + close);
                lemma_parse_lit_concat(hdr + tag + akey, "[]".view(), close);
                let m = k + 2;
                assert(parse_array(s, k) == Some((Some(Seq::<Seq<char>>::empty()), m)));
                assert(s =~= (hdr + tag + akey + "[]".view()) + close + Seq::<char>::empty());
                lemma_parse_lit_concat(hdr + tag + akey + "[]".view(), close, Seq::<char>::empty());
                assert(parse_data_part(s, m) == Some((None::<Seq<char>>, m + 1)));
                assert(m + 1 == s.len());
                assert(parse_rest(s, j) == Some(
                    (Some(Seq::<Seq<char>>::empty()), None::<Seq<char>>, m + 1),
                ));
                assert(spec_decode(s) == Some(EnvelopeView::Users(Seq::<Seq<char>>::empty())));
                assert(names =~= Seq::<Seq<char>>::empty());
            } else {
                assert(s[k + 1] == arr_items_text(names)[0]);
                assert(arr_items_text(names)[0] == '"');
                lemma_parse_lit_mismatch(s, k, "[]".view(), 1);
                assert(s =~= (hdr + tag + akey) + "[".view() + (arr_items_text(names) + seq![']']
                    + close));
                lemma_parse_lit_concat(
                    hdr + tag + akey,
                    "[".view(),
                    arr_items_text(names) + seq![']'] + close,
                );
                let pre4 = hdr + tag + akey + "[".view();
                assert(s =~= pre4 + arr_items_text(names) + seq![']'] + close);
                lemma_parse_items_of_text(pre4, names, close);
                let m = pre4.len() as int + arr_items_text(names).len() as int + 1;
                assert(parse_items(s, k + 1) == Some((names, m)));
                assert(parse_array(s, k) == Some((Some(names), m)));
                assert(s =~= (pre4 + arr_items_text(names) + seq![']']) + close
                    + Seq::<char>::empty());
                lemma_parse_lit_concat(
                    pre4 + arr_items_text(names) + seq![']'],
                    close,
                    Seq::<char>::empty(),
                );
                assert(parse_data_part(s, m) == Some((None::<Seq<char>>, m + 1)));
                assert(m + 1 == s.len());
                assert(parse_rest(s, j) == Some((Some(names), None::<Seq<char>>, m + 1)));
                assert(spec_decode(s) == Some(EnvelopeView::Users(names)));
            }
        },
        EnvelopeView::Register(name) => {
            let tag = "register\"".view();
            lemma_tail_round_trip(s, hdr, tag, name);
            assert(s[hdr.len() as int] == 'r');
            lemma_parse_lit_mismatch(s, hdr.len() as int, "users\"".view(), 0);
            assert(spec_decode(s) == Some(EnvelopeView::Register(name)));
        },
        EnvelopeView::Message(body) => {
            let tag = "message\"".view();
            lemma_tail_round_trip(s, hdr, tag, body);
            assert(s[hdr.len() as int] == 'm');
            lemma_parse_lit_mismatch(s, hdr.len() as int, "users\"".view(), 0);
            lemma_parse_lit_mismatch(s, hdr.len() as int, "register\"".view(), 0);
            assert(spec_decode(s) == Some(EnvelopeView::Message(body)));
        },
    }
}

/// Shared tail of the round-trip proof for `register` and `message`
/// frames: the header, the given tag, and a `data` string parse back.
proof fn lemma_tail_round_trip(s: Seq<char>, hdr: Seq<char>, tag: Seq<char>, t: Seq<char>)
    requires
        hdr == "{\"messageType\":\"".view(),
        s == hdr + tag + ",\"data\":\"".view() + esc(t) + "\"}".view(),
    ensures
        parse_lit(s, 0, hdr) == Some(hdr.len() as int),
        parse_lit(s, hdr.len() as int, tag) == Some(hdr.len() + tag.len() as int),
        parse_rest(s, hdr.len() + tag.len() as int) == Some(
            (None::<Seq<Seq<char>>>, Some(t), s.len() as int),
        ),
{
    reveal_strlit("{\"messageType\":\"");
    reveal_strlit(",\"dataArray\":");
    reveal_strlit(",\"data\":null}");
    reveal_strlit(",\"data\":\"");
    reveal_strlit("\"}");
    reveal_strlit("}");
    let dkey = ",\"data\":\"".view();
    let close = "}".view();
    assert("\"}".view() =~= seq!['"'] + close);
    let rest1 = tag + dkey + esc(t) + "\"}".view();
    assert(s =~= Seq::<char>::empty() + hdr + rest1);
    lemma_parse_lit_concat(Seq::<char>::empty(), hdr, rest1);
    let i = hdr.len() as int;
    assert(s =~= hdr + tag + (dkey + esc(t) + "\"}".view()));
    lemma_parse_lit_concat(hdr, tag, dkey + esc(t) + "\"}".view());
    let j = i + tag.len() as int;
    // `,"dataArray":` does not match: the seventh character differs
    assert(s[j + 6] == dkey[6]);
    assert(dkey[6] == '"');
    lemma_parse_lit_mismatch(s, j, ",\"dataArray\":".view(), 6);
    // `}` does not match
    assert(s[j] == ',');
    lemma_parse_lit_mismatch(s, j, close, 0);
    // `,"data":null}` does not match: the ninth character differs
    assert(s[j + 8] == dkey[8]);
    assert(dkey[8] == '"');
    lemma_parse_lit_mismatch(s, j, ",\"data\":null}".view(), 8);
    // `,"data":"` matches, then the escaped string, then `}`
    assert(s =~= (hdr + tag) + dkey + (esc(t) + "\"}".view()));
    lemma_parse_lit_concat(hdr + tag, dkey, esc(t) + "\"}".view());
    let k = j + dkey.len() as int;
    let pre = hdr + tag + dkey;
    assert(s =~= pre + esc(t) + seq!['"'] + close);
    lemma_scan_esc(pre, t, close);
    let m = pre.len() as int + esc(t).len() as int + 1;
    assert(scan_string(s, k) == Some((t, m)));
    assert(s =~= (pre + esc(t) + seq!['"']) + close + Seq::<char>::empty());
    lemma_parse_lit_concat(pre + esc(t) + seq!['"'], close, Seq::<char>::empty());
    assert(parse_data_part(s, j) == Some((Some(t), m + 1)));
    assert(m + 1 == s.len());
}

/// Round trip for the chat payload: every sender/body pair decodes back
/// from its own encoding.
pub proof fn lemma_chat_round_trip(sender: Seq<char>, body: Seq<char>)
    ensures
        spec_decode_chat(spec_encode_chat(sender, body)) == Some((sender, body)),
{
    reveal_strlit("{\"from\":\"");
    reveal_strlit("\",\"message\":\"");
    reveal_strlit(",\"message\":\"");
    reveal_strlit("\"}");
    reveal_strlit("}");
    let s = spec_encode_chat(sender, body);
    let fkey = "{\"from\":\"".view();
    let mkey = ",\"message\":\"".view();
    let close = "}".view();
    assert("\",\"message\":\"".view() =~= seq!['"'] + mkey);
    assert("\"}".view() =~= seq!['"'] + close);
    let rest1 = esc(sender) + "\",\"message\":\"".view() + esc(body) + "\"}".view();
    assert(s =~= Seq::<char>::empty() + fkey + rest1);
    lemma_parse_lit_concat(Seq::<char>::empty(), fkey, rest1);
    let i = fkey.len() as int;
    let rest2 = mkey + esc(body) + "\"}".view();
    assert(s =~= fkey + esc(sender) + seq!['"'] + rest2);
    lemma_scan_esc(fkey, sender, rest2);
    let j = fkey.len() as int + esc(sender).len() as int + 1;
    assert(scan_string(s, i) == Some((sender, j)));
    let pre2 = fkey + esc(sender) + seq!['"'];
    assert(s =~= pre2 + mkey + (esc(body) + "\"}".view()));
    lemma_parse_lit_concat(pre2, mkey, esc(body) + "\"}".view());
    let k = j + mkey.len() as int;
    let pre3 = pre2 + mkey;
    assert(s =~= pre3 + esc(body) + seq!['"'] + close);
    lemma_scan_esc(pre3, body, close);
    let m = pre3.len() as int + esc(body).len() as int + 1;
    assert(scan_string(s, k) == Some((body, m)));
    assert(s =~= (pre3 + esc(body) + seq!['"']) + close + Seq::<char>::empty());
    lemma_parse_lit_concat(pre3 + esc(body) + seq!['"'], close, Seq::<char>::empty());
    assert(m + 1 == s.len());
    assert(spec_decode_chat(s) == Some((sender, body)));
}

// ---------------------------------------------------------------------------
// Executable decoding
// ---------------------------------------------------------------------------

/// Executable form of [`parse_data_part`].
fn parse_data_part_str(s: &str, n: usize, i: usize) -> (r: Option<(Option<String>, usize)>)
    requires
        n == s.view().len(),
        i <= n,
    ensures
        match r {
            Some(d_j) => parse_data_part(s.view(), i as int) == Some(
                (d_j.0.deep_view(), d_j.1 as int),
            ) && d_j.1 <= n,
            None => parse_data_part(s.view(), i as int) is None,
        },
{
    if let Some(j) = match_lit(s, n, i, "}") {
        return Some((None, j));
    }
    if let Some(j) = match_lit(s, n, i, ",\"data\":null}") {
        return Some((None, j));
    }
    if let Some(j) = match_lit(s, n, i, ",\"data\":\"") {
        if let Some((t, k)) = scan_str(s, n, j) {
            if let Some(m) = match_lit(s, n, k, "}") {
                return Some((Some(t), m));
            }
        }
        return None;
    }
    None
}

/// Executable form of [`parse_array`].
fn parse_array_str(s: &str, n: usize, i: usize) -> (r: Option<(Option<Vec<String>>, usize)>)
    requires
        n == s.view().len(),
        i <= n,
    ensures
        match r {
            Some(a_j) => parse_array(s.view(), i as int) == Some(
                (a_j.0.deep_view(), a_j.1 as int),
            ) && a_j.1 <= n,
            None => parse_array(s.view(), i as int) is None,
        },
{
    if let Some(j) = match_lit(s, n, i, "null") {
        return Some((None, j));
    }
    if let Some(j) = match_lit(s, n, i, "[]") {
        let empty: Vec<String> = Vec::new();
        proof {
            assert(empty.deep_view() =~= Seq::<Seq<char>>::empty());
        }
        return Some((Some(empty), j));
    }
    if let Some(j) = match_lit(s, n, i, "[") {
        if let Some((ts, k)) = parse_items_str(s, n, j) {
            return Some((Some(ts), k));
        }
        return None;
    }
    None
}

/// Executable form of [`parse_rest`].
fn parse_rest_str(s: &str, n: usize, i: usize) -> (r: Option<
    (Option<Vec<String>>, Option<String>, usize),
>)
    requires
        n == s.view().len(),
        i <= n,
    ensures
        match r {
            Some(adj) => parse_rest(s.view(), i as int) == Some(
                (adj.0.deep_view(), adj.1.deep_view(), adj.2 as int),
            ) && adj.2 <= n,
            None => parse_rest(s.view(), i as int) is None,
        },
{
    if let Some(j) = match_lit(s, n, i, ",\"dataArray\":") {
        if let Some((arr, k)) = parse_array_str(s, n, j) {
            if let Some((d, m)) = parse_data_part_str(s, n, k) {
                return Some((arr, d, m));
            }
        }
        return None;
    }
    if let Some((d, m)) = parse_data_part_str(s, n, i) {
        return Some((None, d, m));
    }
    None
}

/// Decodes a frame into an envelope. Succeeds exactly on the well-formed
/// frame texts described by [`spec_decode`]; anything else is rejected as
/// a malformed envelope.
pub fn decode(s: &str) -> (r: Result<Envelope, WireError>)
    ensures
        match r {
            Ok(env) => spec_decode(s.view()) == Some(env.view()),
            Err(e) => spec_decode(s.view()) is None && e == WireError::MalformedEnvelope,
        },
{
    let n = s.unicode_len();
    let i = match match_lit(s, n, 0, "{\"messageType\":\"") {
        Some(i) => i,
        None => {
            return Err(WireError::MalformedEnvelope);
        },
    };
    if let Some(j) = match_lit(s, n, i, "users\"") {
        if let Some((arr, _d, end)) = parse_rest_str(s, n, j) {
            if end == n {
                let names = match arr {
                    Some(v) => v,
                    None => {
                        let empty_names: Vec<String> = Vec::new();
                        proof {
                            assert(empty_names.deep_view() =~= Seq::<Seq<char>>::empty());
                        }
                        empty_names
                    },
                };
                return Ok(Envelope::Users(names));
            }
        }
        return Err(WireError::MalformedEnvelope);
    }
    if let Some(j) = match_lit(s, n, i, "register\"") {
        if let Some((_arr, d, end)) = parse_rest_str(s, n, j) {
            if end == n {
                if let Some(t) = d {
                    return Ok(Envelope::Register(t));
                }
            }
        }
        return Err(WireError::MalformedEnvelope);
    }
    if let Some(j) = match_lit(s, n, i, "message\"") {
        if let Some((_arr, d, end)) = parse_rest_str(s, n, j) {
            if end == n {
                if let Some(t) = d {
                    return Ok(Envelope::Message(t));
                }
            }
        }
        return Err(WireError::MalformedEnvelope);
    }
    Err(WireError::MalformedEnvelope)
}

/// Decodes the nested chat payload of a `Message` envelope. Succeeds
/// exactly on the well-formed payload texts described by
/// [`spec_decode_chat`]; anything else is rejected as a malformed chat
/// payload.
pub fn decode_chat(s: &str) -> (r: Result<ChatMessage, WireError>)
    ensures
        match r {
            Ok(m) => spec_decode_chat(s.view()) == Some((m.sender.view(), m.body.view())),
            Err(e) => spec_decode_chat(s.view()) is None && e == WireError::MalformedChatPayload,
        },
{
    let n = s.unicode_len();
    if let Some(i) = match_lit(s, n, 0, "{\"from\":\"") {
        if let Some((f, j)) = scan_str(s, n, i) {
            if let Some(k) = match_lit(s, n, j, ",\"message\":\"") {
                if let Some((b, m)) = scan_str(s, n, k) {
                    if let Some(end) = match_lit(s, n, m, "}") {
                        if end == n {
                            return Ok(ChatMessage { sender: f, body: b });
                        }
                    }
                }
            }
        }
    }
    Err(WireError::MalformedChatPayload)
}

// ---------------------------------------------------------------------------
// Executable encoding
// ---------------------------------------------------------------------------

/// Appends the array text of `items` to `out`, brackets included.
fn append_array(out: &mut String, items: &Vec<String>)
    ensures
        final(out).view() == old(out).view() + arr_text(items.deep_view()),
{
    crate::json::push_char(out, '[');
    let mut k: usize = 0;
    while k < items.len()
        invariant
            k <= items.len(),
            out.view() == old(out).view() + seq!['['] + arr_items_text(
                items.deep_view().take(k as int),
            ),
        decreases items.len() - k,
    {
        if k > 0 {
            crate::json::push_char(out, ',');
        }
        crate::json::append_quoted(out, items[k].as_str());
        proof {
            crate::json::lemma_arr_items_text_push(
                items.deep_view().take(k as int),
                items.deep_view()[k as int],
            );
            assert(items.deep_view().take(k as int).push(items.deep_view()[k as int])
                =~= items.deep_view().take(k as int + 1));
            assert(out.view() =~= old(out).view() + seq!['['] + arr_items_text(
                items.deep_view().take(k as int + 1),
            ));
        }
        k += 1;
    }
    crate::json::push_char(out, ']');
    proof {
        assert(items.deep_view().take(items.len() as int) =~= items.deep_view());
        assert(old(out).view() + seq!['['] + arr_items_text(items.deep_view()) + seq![']'] =~= old(
            out,
        ).view() + arr_text(items.deep_view()));
        assert(out.view() =~= old(out).view() + arr_text(items.deep_view()));
    }
}

/// Encodes an envelope as its frame text.
pub fn encode(e: &Envelope) -> (r: String)
    ensures
        r.view() == spec_encode(e.view()),
{
    let mut out = String::new();
    out.append("{\"messageType\":\"");
    match e {
        Envelope::Users(names) => {
            out.append("users\"");
            out.append(",\"dataArray\":");
            append_array(&mut out, names);
            out.append("}");
            proof {
                assert(out.view() =~= spec_encode(e.view()));
            }
        },
        Envelope::Register(name) => {
            out.append("register\"");
            out.append(",\"data\":\"");
            crate::json::append_escaped(&mut out, name.as_str());
            out.append("\"}");
            proof {
                assert(out.view() =~= spec_encode(e.view()));
            }
        },
        Envelope::Message(body) => {
            out.append("message\"");
            out.append(",\"data\":\"");
            crate::json::append_escaped(&mut out, body.as_str());
            out.append("\"}");
            proof {
                assert(out.view() =~= spec_encode(e.view()));
            }
        },
    }
    out
}

/// Encodes a chat message as the nested payload text carried by a
/// `Message` envelope.
pub fn encode_chat(m: &ChatMessage) -> (r: String)
    ensures
        r.view() == spec_encode_chat(m.sender.view(), m.body.view()),
{
    let mut out = String::new();
    out.append("{\"from\":\"");
    crate::json::append_escaped(&mut out, m.sender.as_str());
    out.append("\",\"message\":\"");
    crate::json::append_escaped(&mut out, m.body.as_str());
    out.append("\"}");
    proof {
        assert(out.view() =~= spec_encode_chat(m.sender.view(), m.body.view()));
    }
    out
}

} // verus!
