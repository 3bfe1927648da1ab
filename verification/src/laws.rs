//! The laws of the library that relate several functions, each stated over
//! the spec functions the public contracts use and proved here once and for
//! all inputs.

use vstd::prelude::*;
use crate::handlers::{spec_cookie_lines, spec_cookie_segment_line, spec_echo_body,
    spec_echo_line, spec_render_value};
use crate::parse::{all_name_bytes, is_name_byte, lemma_parsed_names_are_name_bytes, spec_parse,
    ParseModel};
use crate::request::HeaderModel;
use crate::response::{spec_dec_digits, spec_response_bytes};
use crate::route::{spec_route, Route, RouteConfig};
use crate::server::spec_handler_body;
use crate::tokens::{spec_cookie_path, spec_echo_path, spec_response_head_prefix};
use crate::util::{all_visible, find_byte, is_visible_byte, lemma_find_byte, lemma_find_byte_at};

verus! {

/// `s` split on the newline byte; the separator is dropped, so a trailing
/// newline contributes one empty final part.
pub open spec fn spec_split_nl(s: Seq<u8>) -> Seq<Seq<u8>>
    decreases s.len(),
    via spec_split_nl_dec
{
    match find_byte(s, 10) {
        None => seq![s],
        Some(i) => seq![s.subrange(0, i)] + spec_split_nl(s.subrange(i + 1, s.len() as int)),
    }
}

#[via_fn]
proof fn spec_split_nl_dec(s: Seq<u8>) {
    lemma_find_byte(s, 10);
}

/// The lines of `s`: split on newlines, one possible trailing empty part
/// dropped.
pub open spec fn spec_lines(s: Seq<u8>) -> Seq<Seq<u8>> {
    let parts = spec_split_nl(s);
    if parts.len() > 0 && parts.last().len() == 0 {
        parts.drop_last()
    } else {
        parts
    }
}

/// `s` split on the semicolon byte, separators dropped.
pub open spec fn spec_split_semi(s: Seq<u8>) -> Seq<Seq<u8>>
    decreases s.len(),
    via spec_split_semi_dec
{
    match find_byte(s, 59) {
        None => seq![s],
        Some(i) => seq![s.subrange(0, i)] + spec_split_semi(s.subrange(i + 1, s.len() as int)),
    }
}

#[via_fn]
proof fn spec_split_semi_dec(s: Seq<u8>) {
    lemma_find_byte(s, 59);
}

/// One header's entry in the echo body, without its newline.
pub open spec fn spec_echo_content(h: HeaderModel) -> Seq<u8> {
    h.name + seq![58u8, 32u8] + spec_render_value(h.value)
}

/// A header name free of the newline byte, as every parsed name is.
pub open spec fn name_nl_free(h: HeaderModel) -> bool {
    forall|j: int| 0 <= j < h.name.len() ==> h.name[j] != 10
}

/// Splitting a newline-free chunk, its newline, and a tail takes off
/// exactly the chunk.
proof fn lemma_split_nl_chunk(c: Seq<u8>, tail: Seq<u8>)
    requires
        forall|j: int| 0 <= j < c.len() ==> c[j] != 10,
    ensures
        spec_split_nl(c + seq![10u8] + tail) == seq![c] + spec_split_nl(tail),
{
    let s = c + seq![10u8] + tail;
    assert(s[c.len() as int] == 10);
    assert forall|j: int| 0 <= j < c.len() implies s[j] != 10 by {
        assert(s[j] == c[j]);
    }
    lemma_find_byte_at(s, 10, c.len() as int);
    assert(s.subrange(0, c.len() as int) =~= c);
    assert(s.subrange(c.len() as int + 1, s.len() as int) =~= tail);
}

/// Splitting the echo body on newlines gives one part per header, plus the
/// empty part after the final newline.
proof fn lemma_echo_split(hs: Seq<HeaderModel>)
    requires
        forall|k: int| 0 <= k < hs.len() ==> name_nl_free(#[trigger] hs[k]),
    ensures
        spec_split_nl(spec_echo_body(hs)) == hs.map_values(|h: HeaderModel| spec_echo_content(h))
            + seq![Seq::<u8>::empty()],
    decreases hs.len(),
{
    if hs.len() == 0 {
        let e = Seq::<u8>::empty();
        assert(find_byte(e, 10) is None);
        assert(spec_split_nl(spec_echo_body(hs)) =~= seq![e]);
        assert(hs.map_values(|h: HeaderModel| spec_echo_content(h)) + seq![e] =~= seq![e]);
    } else {
        let h = hs[0];
        let t = hs.subrange(1, hs.len() as int);
        let c = spec_echo_content(h);
        assert(name_nl_free(h));
        assert forall|j: int| 0 <= j < c.len() implies c[j] != 10 by {
            if j < h.name.len() {
                assert(c[j] == h.name[j]);
            } else if j < h.name.len() + 2 {
            } else {
                let rv = spec_render_value(h.value);
                assert(c[j] == rv[j - h.name.len() - 2]);
                assert(all_visible(h.value));
                assert(is_visible_byte(rv[j - h.name.len() - 2]));
            }
        }
        assert(spec_echo_line(h) =~= c + seq![10u8]);
        assert(spec_echo_body(hs) =~= c + seq![10u8] + spec_echo_body(t));
        lemma_split_nl_chunk(c, spec_echo_body(t));
        assert forall|k: int| 0 <= k < t.len() implies name_nl_free(#[trigger] t[k]) by {
            assert(t[k] == hs[k + 1]);
        }
        lemma_echo_split(t);
        assert(seq![c] + (t.map_values(|hh: HeaderModel| spec_echo_content(hh)) + seq![
            Seq::<u8>::empty(),
        ]) =~= hs.map_values(|hh: HeaderModel| spec_echo_content(hh)) + seq![Seq::<u8>::empty()]);
    }
}

/// The header echo, line by line: for headers whose names hold no newline
/// byte — every parsed name qualifies — the body's lines, split on the
/// newline byte with the one trailing empty part dropped, carry exactly one
/// entry per header, in request order, each the header's name, a colon and
/// a space, and its shown value.
pub proof fn lemma_echo_body_lines(hs: Seq<HeaderModel>)
    requires
        forall|k: int| 0 <= k < hs.len() ==> name_nl_free(#[trigger] hs[k]),
    ensures
        spec_lines(spec_echo_body(hs)).len() == hs.len(),
        forall|k: int| 0 <= k < hs.len() ==> spec_lines(spec_echo_body(hs))[k]
            == spec_echo_content(#[trigger] hs[k]),
{
    lemma_echo_split(hs);
    let m = hs.map_values(|h: HeaderModel| spec_echo_content(h));
    let parts = spec_split_nl(spec_echo_body(hs));
    assert(parts.last().len() == 0);
    assert(parts.drop_last() =~= m);
}

/// Every parsed request qualifies for the header-echo law: parsed names
/// hold name bytes only, and the newline is none of them.
pub proof fn lemma_parsed_requests_qualify(s: Seq<u8>)
    ensures
        spec_parse(s) matches ParseModel::Parsed(rm, c) ==> forall|k: int|
            0 <= k < rm.headers.len() ==> name_nl_free(#[trigger] rm.headers[k]),
{
    lemma_parsed_names_are_name_bytes(s);
    match spec_parse(s) {
        ParseModel::Parsed(rm, c) => {
            assert forall|k: int| 0 <= k < rm.headers.len() implies name_nl_free(
                #[trigger] rm.headers[k],
            ) by {
                assert(all_name_bytes(rm.headers[k].name));
                assert forall|j: int| 0 <= j < rm.headers[k].name.len() implies rm.headers[k].name[j]
                    != 10 by {
                    assert(is_name_byte(rm.headers[k].name[j]));
                }
            }
        },
        _ => {},
    }
}

/// The cookie echo, segment by segment: the body equals the lines of the
/// raw `Cookie` value's segments, split on `;`, in order, where each
/// segment is trimmed on the left, split at its first `=` into a
/// `name=value` line, and a segment without `=` contributes nothing.
pub proof fn lemma_cookie_lines_follow_segments(raw: Seq<u8>)
    ensures
        spec_cookie_lines(raw) == spec_split_semi(raw).map_values(
            |seg: Seq<u8>| spec_cookie_segment_line(seg),
        ).flatten(),
    decreases raw.len(),
{
    lemma_find_byte(raw, 59);
    match find_byte(raw, 59) {
        None => {
            let m = spec_split_semi(raw).map_values(|seg: Seq<u8>| spec_cookie_segment_line(seg));
            assert(m.len() == 1);
            assert(m[0] == spec_cookie_segment_line(raw));
            assert(m.drop_first() =~= Seq::<Seq<u8>>::empty());
            reveal_with_fuel(Seq::<Seq<u8>>::flatten, 2);
            assert(m.first() == spec_cookie_segment_line(raw));
            assert(spec_cookie_segment_line(raw) + Seq::<u8>::empty()
                =~= spec_cookie_segment_line(raw));
        },
        Some(i) => {
            let head = raw.subrange(0, i);
            let rest = raw.subrange(i + 1, raw.len() as int);
            lemma_cookie_lines_follow_segments(rest);
            let m = spec_split_semi(raw).map_values(|seg: Seq<u8>| spec_cookie_segment_line(seg));
            let mrest = spec_split_semi(rest).map_values(
                |seg: Seq<u8>| spec_cookie_segment_line(seg),
            );
            assert(m[0] == spec_cookie_segment_line(head));
            assert(m.drop_first() =~= mrest);
            assert(m.flatten() == spec_cookie_segment_line(head) + mrest.flatten());
        },
    }
}

/// The POST round trip: a POST to any path other than `/echo` and
/// `/cookie` is answered with exactly its own body, and the head of the
/// response names exactly that body's length.
pub proof fn lemma_post_round_trip(cfg: RouteConfig, r: crate::request::ReqModel)
    requires
        r.method is Post,
        r.path != spec_echo_path(),
        r.path != spec_cookie_path(),
    ensures
        spec_handler_body(cfg, r) == r.body,
        spec_response_bytes(spec_handler_body(cfg, r)) == spec_response_head_prefix()
            + spec_dec_digits(r.body.len()) + seq![13u8, 10u8, 13u8, 10u8] + r.body,
{
    assert(spec_route(cfg, r.path) is Fallback);
}

/// Idempotence: parsing, the answer and the keep-alive decision are
/// functions of the connection's bytes alone, so the same request sent on
/// two different connections parses the same way and is answered
/// byte-identically.
pub proof fn lemma_equal_bytes_equal_answers(
    cfg: RouteConfig,
    b1: Seq<u8>,
    b2: Seq<u8>,
    r1: crate::request::ReqModel,
    r2: crate::request::ReqModel,
    c1: int,
    c2: int,
)
    requires
        b1 == b2,
        spec_parse(b1) == ParseModel::Parsed(r1, c1),
        spec_parse(b2) == ParseModel::Parsed(r2, c2),
    ensures
        r1 == r2,
        c1 == c2,
        spec_response_bytes(spec_handler_body(cfg, r1)) == spec_response_bytes(
            spec_handler_body(cfg, r2),
        ),
        crate::server::spec_keep_alive(r1) == crate::server::spec_keep_alive(r2),
{
}

} // verus!
