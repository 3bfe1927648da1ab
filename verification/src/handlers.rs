//! The two formatting handlers: the header echo served on `/echo` and the
//! cookie echo served on `/cookie`.

use vstd::prelude::*;
use crate::request::{find_header, Header, HeaderModel};
use crate::tokens::{cookie_header_name, spec_cookie_header_name};
use crate::util::{all_visible, check_visible, find_byte, find_byte_in, is_ows_byte,
    lemma_find_byte, lemma_trim_start_ows, subvec, trim_start_ows};

verus! {

/// How a header value is shown: verbatim when every byte renders as text,
/// else as the empty string.  Showing a value never fails and never drops
/// the line it stands on.
pub open spec fn spec_render_value(v: Seq<u8>) -> Seq<u8> {
    if all_visible(v) {
        v
    } else {
        Seq::empty()
    }
}

/// One line of the header echo: `name`, a colon and a space, the shown
/// value, and a newline.
pub open spec fn spec_echo_line(h: HeaderModel) -> Seq<u8> {
    h.name + seq![58u8, 32u8] + spec_render_value(h.value) + seq![10u8]
}

/// The body served on `/echo`: one line per header, in request order.
pub open spec fn spec_echo_body(hs: Seq<HeaderModel>) -> Seq<u8>
    decreases hs.len(),
{
    if hs.len() == 0 {
        Seq::empty()
    } else {
        spec_echo_line(hs[0]) + spec_echo_body(hs.subrange(1, hs.len() as int))
    }
}

/// The header-echo body grows by one line per header appended.
pub proof fn lemma_echo_body_snoc(hs: Seq<HeaderModel>, h: HeaderModel)
    ensures
        spec_echo_body(hs.push(h)) == spec_echo_body(hs) + spec_echo_line(h),
    decreases hs.len(),
{
    reveal_with_fuel(spec_echo_body, 2);
    if hs.len() == 0 {
        assert(hs.push(h)[0] == h);
        assert(hs.push(h).subrange(1, 1) =~= Seq::<HeaderModel>::empty());
        assert(spec_echo_line(h) + Seq::<u8>::empty() =~= spec_echo_line(h));
        assert(Seq::<u8>::empty() + spec_echo_line(h) =~= spec_echo_line(h));
    } else {
        let t = hs.subrange(1, hs.len() as int);
        lemma_echo_body_snoc(t, h);
        assert(hs.push(h)[0] == hs[0]);
        assert(hs.push(h).subrange(1, hs.push(h).len() as int) =~= t.push(h));
        assert(spec_echo_line(hs[0]) + (spec_echo_body(t) + spec_echo_line(h)) =~= (spec_echo_line(
            hs[0],
        ) + spec_echo_body(t)) + spec_echo_line(h));
    }
}

/// The shown form of one header value.
pub fn render_value(v: &Vec<u8>) -> (r: Vec<u8>)
    ensures
        r@ == spec_render_value(v@),
{
    if check_visible(v) {
        let r = subvec(v, 0, v.len());
        proof {
            assert(r@ =~= v@);
        }
        r
    } else {
        let r: Vec<u8> = Vec::new();
        proof {
            assert(r@ =~= Seq::<u8>::empty());
        }
        r
    }
}

/// Appends all of `src` to `dst`.
pub fn append_bytes(dst: &mut Vec<u8>, src: &Vec<u8>)
    ensures
        final(dst)@ == old(dst)@ + src@,
{
    let mut j: usize = 0;
    while j < src.len()
        invariant
            j <= src@.len(),
            dst@ == old(dst)@ + src@.subrange(0, j as int),
        decreases src@.len() - j,
    {
        dst.push(src[j]);
        proof {
            assert(old(dst)@ + src@.subrange(0, j as int) + seq![src@[j as int]] =~= old(dst)@
                + src@.subrange(0, j + 1));
        }
        j = j + 1;
    }
    proof {
        assert(src@.subrange(0, src@.len() as int) =~= src@);
    }
}

/// The body served on `/echo`: one `name: value` line per request header,
/// in the order received.
pub fn echo_body(headers: &Vec<Header>) -> (r: Vec<u8>)
    ensures
        r@ == spec_echo_body(headers@.map_values(|h: Header| h@)),
{
    let ghost models = headers@.map_values(|h: Header| h@);
    let mut out: Vec<u8> = Vec::new();
    let mut i: usize = 0;
    while i < headers.len()
        invariant
            i <= headers@.len(),
            models == headers@.map_values(|h: Header| h@),
            out@ == spec_echo_body(models.subrange(0, i as int)),
        decreases headers@.len() - i,
    {
        let ghost before = out@;
        append_bytes(&mut out, &headers[i].name);
        out.push(58);
        out.push(32);
        let rv = render_value(&headers[i].value);
        append_bytes(&mut out, &rv);
        out.push(10);
        proof {
            assert(models[i as int] == headers@[i as int]@);
            assert(out@ =~= before + spec_echo_line(models[i as int]));
            lemma_echo_body_snoc(models.subrange(0, i as int), models[i as int]);
            assert(models.subrange(0, i as int).push(models[i as int]) =~= models.subrange(
                0,
                i + 1,
            ));
        }
        i = i + 1;
    }
    proof {
        assert(models.subrange(0, models.len() as int) =~= models);
    }
    out
}

/// The line one semicolon-separated cookie segment contributes: the segment
/// is trimmed on the left only, split at its first `=`, and shown as
/// `name=value` with a newline; a segment without `=` contributes nothing.
pub open spec fn spec_cookie_segment_line(seg: Seq<u8>) -> Seq<u8> {
    let t = trim_start_ows(seg);
    match find_byte(t, 61) {
        None => Seq::empty(),
        Some(i) => t.subrange(0, i) + seq![61u8] + t.subrange(i + 1, t.len() as int) + seq![10u8],
    }
}

/// The lines of every segment of a raw `Cookie` value, split on `;`, in
/// order.
pub open spec fn spec_cookie_lines(s: Seq<u8>) -> Seq<u8>
    decreases s.len(),
    via spec_cookie_lines_dec
{
    match find_byte(s, 59) {
        None => spec_cookie_segment_line(s),
        Some(i) => spec_cookie_segment_line(s.subrange(0, i)) + spec_cookie_lines(
            s.subrange(i + 1, s.len() as int),
        ),
    }
}

#[via_fn]
proof fn spec_cookie_lines_dec(s: Seq<u8>) {
    lemma_find_byte(s, 59);
}

/// The body served on `/cookie`: the lines of the first `Cookie` header's
/// value, or empty when that header is absent or does not render as text.
pub open spec fn spec_cookie_body(hs: Seq<HeaderModel>) -> Seq<u8> {
    match find_header(hs, spec_cookie_header_name()) {
        None => Seq::empty(),
        Some(raw) => if all_visible(raw) {
            spec_cookie_lines(raw)
        } else {
            Seq::empty()
        },
    }
}

/// The line contributed by the segment `v[from..to]`.
fn cookie_segment_line(v: &Vec<u8>, from: usize, to: usize) -> (r: Vec<u8>)
    requires
        from <= to <= v@.len(),
    ensures
        r@ == spec_cookie_segment_line(v@.subrange(from as int, to as int)),
{
    let ghost seg = v@.subrange(from as int, to as int);
    let mut a: usize = from;
    while a < to && (v[a] == 32 || v[a] == 9)
        invariant
            from <= a <= to <= v@.len(),
            forall|j: int| from <= j < a ==> is_ows_byte(#[trigger] v@[j]),
        decreases to - a,
    {
        a = a + 1;
    }
    proof {
        assert forall|j: int| 0 <= j < a - from implies is_ows_byte(#[trigger] seg[j]) by {
            assert(seg[j] == v@[from + j]);
        }
        if a < to {
            assert(seg[a - from] == v@[a as int]);
        }
        lemma_trim_start_ows(seg, a - from);
        assert(seg.subrange(a - from, seg.len() as int) =~= v@.subrange(a as int, to as int));
    }
    let ghost t = trim_start_ows(seg);
    match find_byte_in(v, a, to, 61) {
        None => {
            let r: Vec<u8> = Vec::new();
            proof {
                assert(r@ =~= Seq::<u8>::empty());
            }
            r
        },
        Some(e) => {
            let mut r = subvec(v, a, e);
            r.push(61);
            let tail = subvec(v, e + 1, to);
            append_bytes(&mut r, &tail);
            r.push(10);
            proof {
                let i = e - a;
                assert(t.subrange(0, i) =~= v@.subrange(a as int, e as int));
                assert(t.subrange(i + 1, t.len() as int) =~= v@.subrange(e + 1, to as int));
                assert(r@ =~= t.subrange(0, i) + seq![61u8] + t.subrange(i + 1, t.len() as int)
                    + seq![10u8]);
            }
            r
        },
    }
}

/// The lines of every segment of `v[from..]`.
fn cookie_lines_from(v: &Vec<u8>, from: usize) -> (r: Vec<u8>)
    requires
        from <= v@.len(),
    ensures
        r@ == spec_cookie_lines(v@.subrange(from as int, v@.len() as int)),
    decreases v@.len() - from,
{
    let ghost s = v@.subrange(from as int, v@.len() as int);
    match find_byte_in(v, from, v.len(), 59) {
        None => cookie_segment_line(v, from, v.len()),
        Some(k) => {
            let mut line = cookie_segment_line(v, from, k);
            let rest = cookie_lines_from(v, k + 1);
            append_bytes(&mut line, &rest);
            proof {
                assert(s.subrange(0, k - from) =~= v@.subrange(from as int, k as int));
                assert(s.subrange(k - from + 1, s.len() as int) =~= v@.subrange(
                    k + 1,
                    v@.len() as int,
                ));
            }
            line
        },
    }
}

/// The body served on `/cookie`, from the request's headers.
pub fn cookie_body(headers: &Vec<Header>) -> (r: Vec<u8>)
    ensures
        r@ == spec_cookie_body(headers@.map_values(|h: Header| h@)),
{
    let name = cookie_header_name();
    match crate::request::lookup_header(headers, &name) {
        None => {
            let r: Vec<u8> = Vec::new();
            proof {
                assert(r@ =~= Seq::<u8>::empty());
            }
            r
        },
        Some(raw) => {
            if check_visible(&raw) {
                let r = cookie_lines_from(&raw, 0);
                proof {
                    assert(raw@.subrange(0, raw@.len() as int) =~= raw@);
                }
                r
            } else {
                let r: Vec<u8> = Vec::new();
                proof {
                    assert(r@ =~= Seq::<u8>::empty());
                }
                r
            }
        },
    }
}

} // verus!
