//! The HTTP/1.1 request parser: one request is read out of the front of a
//! byte buffer.  The outcome distinguishes a buffer that does not yet hold a
//! whole request (read more), one whose front can never parse (close the
//! connection), and a parsed request with the number of bytes it consumed.
//!
//! The grammar: a request line `method SP target SP version CRLF` whose
//! method and target are non-empty runs of visible non-blank bytes and whose
//! version is `HTTP/1.1` or `HTTP/1.0`; header lines `name: value CRLF` with
//! a non-empty name of visible bytes other than the colon and a value
//! trimmed of surrounding blanks; an empty line; then the body.  A
//! `Transfer-Encoding: chunked` header declares a chunked body: size lines
//! of one to sixteen hexadecimal digits, each chunk closed by CRLF, ended
//! by a zero-size chunk and a bare CRLF (no chunk extensions, no
//! trailers).  Any other `Transfer-Encoding` is not served and parses as
//! malformed.  Otherwise a `Content-Length` header names how many body
//! bytes follow; its numeral is refused beyond nineteen digits as a
//! machine limit.  Neither header means an empty body.

use vstd::prelude::*;
use crate::request::{find_header, Header, HeaderModel, Method, ReqModel, Request, Version};
use crate::request::{bytes_eq_ignore_case, lookup_header};
use crate::handlers::append_bytes;
use crate::tokens::{chunked_token, spec_chunked_token};
use crate::util::{all_hex_digits, eq_ignore_ascii_case, hex_value, is_hex_digit,
    lemma_hex_value_bounds, lemma_pow16_16, lemma_pow16_le, pow16};
use crate::tokens::{content_length_name, spec_content_length_name, spec_get_token,
    spec_http10_token, spec_http11_token, spec_post_token, spec_transfer_encoding_name,
    transfer_encoding_name};
use crate::tokens::{get_token, http10_token, http11_token, post_token};
use crate::util::{all_digits, dec_value, find_byte, find_byte_in, find_crlf, find_crlf_in,
    is_digit, lemma_find_crlf, pow10, subvec, trim_ows, trim_ows_vec};
use crate::util::bytes_eq;

verus! {

/// A byte a method or target token may hold: visible ASCII, no blank.
pub open spec fn is_token_byte(b: u8) -> bool {
    33 <= b && b <= 126
}

/// Every byte of `s` may stand in a method or target token.
pub open spec fn all_token_bytes(s: Seq<u8>) -> bool {
    forall|i: int| 0 <= i < s.len() ==> is_token_byte(#[trigger] s[i])
}

/// A byte a header name may hold: a token byte other than the colon.
pub open spec fn is_name_byte(b: u8) -> bool {
    33 <= b && b <= 126 && b != 58
}

/// Every byte of `s` may stand in a header name.
pub open spec fn all_name_bytes(s: Seq<u8>) -> bool {
    forall|i: int| 0 <= i < s.len() ==> is_name_byte(#[trigger] s[i])
}

/// The method a request-line token denotes.
pub open spec fn spec_method_of(tok: Seq<u8>) -> Method {
    if tok == spec_get_token() {
        Method::Get
    } else if tok == spec_post_token() {
        Method::Post
    } else {
        Method::Other
    }
}

/// The parsed request line.
pub ghost struct RequestLine {
    pub method: Method,
    pub path: Seq<u8>,
    pub version: Version,
}

/// What a request line parses to, if anything: the bytes before the first
/// blank are the method token, those before the next blank the target, the
/// rest the version token.
pub open spec fn spec_parse_request_line(line: Seq<u8>) -> Option<RequestLine> {
    match find_byte(line, 32) {
        None => None,
        Some(i) => {
            let tok = line.subrange(0, i);
            let rest = line.subrange(i + 1, line.len() as int);
            match find_byte(rest, 32) {
                None => None,
                Some(j) => {
                    let path = rest.subrange(0, j);
                    let ver = rest.subrange(j + 1, rest.len() as int);
                    if tok.len() > 0 && all_token_bytes(tok) && path.len() > 0 && all_token_bytes(
                        path,
                    ) && (ver == spec_http11_token() || ver == spec_http10_token()) {
                        Some(
                            RequestLine {
                                method: spec_method_of(tok),
                                path: path,
                                version: if ver == spec_http11_token() {
                                    Version::Http11
                                } else {
                                    Version::Http10
                                },
                            },
                        )
                    } else {
                        None
                    }
                },
            }
        },
    }
}

/// What a header line parses to, if anything: the bytes before the first
/// colon are the name, the rest, trimmed of surrounding blanks, the value.
pub open spec fn spec_parse_header_line(line: Seq<u8>) -> Option<HeaderModel> {
    match find_byte(line, 58) {
        None => None,
        Some(i) => {
            let name = line.subrange(0, i);
            let value = trim_ows(line.subrange(i + 1, line.len() as int));
            if name.len() > 0 && all_name_bytes(name) {
                Some(HeaderModel { name, value })
            } else {
                None
            }
        },
    }
}

/// How far the header block after the request line has got.
pub ghost enum HeadersPhase {
    /// The closing empty line has not arrived yet.
    Incomplete,
    /// Some line can never parse as a header.
    Malformed,
    /// All header lines up to the empty line, and the index just past it.
    Done(Seq<HeaderModel>, int),
}

/// Parses header lines from `pos` up to the closing empty line.
pub open spec fn spec_headers_from(s: Seq<u8>, pos: int) -> HeadersPhase
    decreases s.len() - pos,
    via spec_headers_from_dec
{
    if !(0 <= pos <= s.len()) {
        HeadersPhase::Malformed
    } else {
        let rest = s.subrange(pos, s.len() as int);
        match find_crlf(rest) {
            None => HeadersPhase::Incomplete,
            Some(k) => if k == 0 {
                HeadersPhase::Done(Seq::empty(), pos + 2)
            } else {
                match spec_parse_header_line(s.subrange(pos, pos + k)) {
                    None => HeadersPhase::Malformed,
                    Some(h) => match spec_headers_from(s, pos + k + 2) {
                        HeadersPhase::Incomplete => HeadersPhase::Incomplete,
                        HeadersPhase::Malformed => HeadersPhase::Malformed,
                        HeadersPhase::Done(hs, e) => HeadersPhase::Done(seq![h] + hs, e),
                    },
                }
            },
        }
    }
}

#[via_fn]
proof fn spec_headers_from_dec(s: Seq<u8>, pos: int) {
    if 0 <= pos <= s.len() {
        lemma_find_crlf(s.subrange(pos, s.len() as int));
    }
}

/// Every header the block parser hands out has a non-empty name of name
/// bytes: what `spec_parse_header_line` accepts.
pub proof fn lemma_headers_from_wf(s: Seq<u8>, pos: int)
    ensures
        spec_headers_from(s, pos) matches HeadersPhase::Done(hs, e) ==> forall|k: int|
            0 <= k < hs.len() ==> (#[trigger] hs[k]).name.len() > 0 && all_name_bytes(hs[k].name),
    decreases s.len() - pos,
{
    if 0 <= pos <= s.len() {
        let rest = s.subrange(pos, s.len() as int);
        lemma_find_crlf(rest);
        match find_crlf(rest) {
            None => {},
            Some(k) => {
                if k != 0 {
                    match spec_parse_header_line(s.subrange(pos, pos + k)) {
                        None => {},
                        Some(h) => {
                            lemma_headers_from_wf(s, pos + k + 2);
                            match spec_headers_from(s, pos + k + 2) {
                                HeadersPhase::Done(hs, e) => {
                                    let all = seq![h] + hs;
                                    assert forall|j: int| 0 <= j < all.len() implies (
                                    #[trigger] all[j]).name.len() > 0 && all_name_bytes(
                                        all[j].name,
                                    ) by {
                                        if j == 0 {
                                            assert(all[0] == h);
                                        } else {
                                            assert(all[j] == hs[j - 1]);
                                        }
                                    }
                                },
                                _ => {},
                            }
                        },
                    }
                }
            },
        }
    }
}

/// Every parsed request's header names qualify for the header-echo law:
/// they are non-empty and hold name bytes only, so in particular no
/// newline.
pub proof fn lemma_parsed_names_are_name_bytes(s: Seq<u8>)
    ensures
        spec_parse(s) matches ParseModel::Parsed(rm, c) ==> forall|k: int|
            0 <= k < rm.headers.len() ==> (#[trigger] rm.headers[k]).name.len() > 0
                && all_name_bytes(rm.headers[k].name),
{
    match find_crlf(s) {
        None => {},
        Some(i) => {
            lemma_headers_from_wf(s, i + 2);
        },
    }
}

/// How far a chunked body has got.
pub ghost enum BodyPhase {
    /// The terminating zero-size chunk has not arrived whole yet.
    Incomplete,
    /// Some size line or chunk framing can never parse.
    Malformed,
    /// The decoded body, and the index just past the final CRLF.
    Done(Seq<u8>, int),
}

/// Decodes a chunked body from `pos`: size lines of one to sixteen
/// hexadecimal digits, each chunk closed by CRLF, ended by a zero-size
/// chunk and a bare CRLF.
pub open spec fn spec_chunks_from(s: Seq<u8>, pos: int) -> BodyPhase
    decreases s.len() - pos,
    via spec_chunks_from_dec
{
    if !(0 <= pos <= s.len()) {
        BodyPhase::Malformed
    } else {
        let rest = s.subrange(pos, s.len() as int);
        match find_crlf(rest) {
            None => BodyPhase::Incomplete,
            Some(k) => {
                let szline = s.subrange(pos, pos + k);
                if !(1 <= szline.len() <= 16 && all_hex_digits(szline)) {
                    BodyPhase::Malformed
                } else {
                    let n = hex_value(szline);
                    let data_start = pos + k + 2;
                    if n == 0 {
                        if data_start + 2 > s.len() {
                            BodyPhase::Incomplete
                        } else if s[data_start] == 13 && s[data_start + 1] == 10 {
                            BodyPhase::Done(Seq::empty(), data_start + 2)
                        } else {
                            BodyPhase::Malformed
                        }
                    } else {
                        if data_start + n + 2 > s.len() {
                            BodyPhase::Incomplete
                        } else if s[data_start + n] == 13 && s[data_start + n + 1] == 10 {
                            match spec_chunks_from(s, data_start + n + 2) {
                                BodyPhase::Incomplete => BodyPhase::Incomplete,
                                BodyPhase::Malformed => BodyPhase::Malformed,
                                BodyPhase::Done(b, e) => BodyPhase::Done(
                                    s.subrange(data_start, data_start + n) + b,
                                    e,
                                ),
                            }
                        } else {
                            BodyPhase::Malformed
                        }
                    }
                }
            },
        }
    }
}

#[via_fn]
proof fn spec_chunks_from_dec(s: Seq<u8>, pos: int) {
    if 0 <= pos <= s.len() {
        let rest = s.subrange(pos, s.len() as int);
        lemma_find_crlf(rest);
        match find_crlf(rest) {
            Some(k) => {
                lemma_hex_value_bounds(s.subrange(pos, pos + k));
            },
            None => {},
        }
    }
}

/// Reads a chunk-size numeral: one to sixteen hexadecimal digits.
fn parse_hex_size(v: &Vec<u8>) -> (r: Option<u64>)
    ensures
        match r {
            Some(n) => 1 <= v@.len() <= 16 && all_hex_digits(v@) && n as int == hex_value(v@),
            None => !(1 <= v@.len() <= 16 && all_hex_digits(v@)),
        },
{
    if v.len() == 0 || v.len() > 16 {
        return None;
    }
    let mut acc: u64 = 0;
    let mut i: usize = 0;
    while i < v.len()
        invariant
            i <= v@.len(),
            v@.len() <= 16,
            all_hex_digits(v@.subrange(0, i as int)),
            acc as int == hex_value(v@.subrange(0, i as int)),
            (acc as int) < pow16(i as nat),
        decreases v@.len() - i,
    {
        let b = v[i];
        let d: u64 = if 48 <= b && b <= 57 {
            (b - 48) as u64
        } else if 97 <= b && b <= 102 {
            (b - 87) as u64
        } else if 65 <= b && b <= 70 {
            (b - 55) as u64
        } else {
            proof {
                assert(v@.subrange(0, v@.len() as int) =~= v@);
            }
            return None;
        };
        proof {
            lemma_pow16_le(i as nat, 15);
            assert(pow16(16) == 16 * pow16(15));
            lemma_pow16_16();
            assert(v@.subrange(0, i + 1).drop_last() =~= v@.subrange(0, i as int));
            assert(v@.subrange(0, i + 1).last() == v@[i as int]);
            assert forall|j: int| 0 <= j < i + 1 implies is_hex_digit(
                #[trigger] v@.subrange(0, i + 1)[j],
            ) by {
                if j < i {
                    assert(v@.subrange(0, i + 1)[j] == v@.subrange(0, i as int)[j]);
                }
            }
        }
        acc = acc * 16 + d;
        i = i + 1;
    }
    proof {
        assert(v@.subrange(0, v@.len() as int) =~= v@);
    }
    Some(acc)
}

/// How far a chunked body has got, executable form.
enum BodyOut {
    Incomplete,
    Malformed,
    Done(Vec<u8>, usize),
}

/// Whether the executable chunked-body outcome means what the spec one
/// says.
spec fn body_out_matches(out: BodyOut, m: BodyPhase) -> bool {
    match out {
        BodyOut::Incomplete => m is Incomplete,
        BodyOut::Malformed => m is Malformed,
        BodyOut::Done(b, e) => m matches BodyPhase::Done(mb, me) && b@ == mb && e as int == me,
    }
}

/// Decodes a chunked body from `pos`.
fn chunks_from(buf: &Vec<u8>, pos: usize) -> (out: BodyOut)
    requires
        pos <= buf@.len(),
    ensures
        body_out_matches(out, spec_chunks_from(buf@, pos as int)),
        out matches BodyOut::Done(b, e) ==> pos <= e <= buf@.len(),
    decreases buf@.len() - pos,
{
    let buf_len = buf.len();
    let k_abs = match find_crlf_in(buf, pos) {
        None => {
            return BodyOut::Incomplete;
        },
        Some(k) => k,
    };
    let szline = subvec(buf, pos, k_abs);
    let n = match parse_hex_size(&szline) {
        None => {
            return BodyOut::Malformed;
        },
        Some(n) => n,
    };
    let data_start = k_abs + 2;
    if n == 0 {
        if buf_len - data_start < 2 {
            return BodyOut::Incomplete;
        }
        if buf[data_start] == 13 && buf[data_start + 1] == 10 {
            let b: Vec<u8> = Vec::new();
            proof {
                assert(b@ =~= Seq::<u8>::empty());
            }
            BodyOut::Done(b, data_start + 2)
        } else {
            BodyOut::Malformed
        }
    } else {
        let avail = buf_len - data_start;
        if n > avail as u64 {
            return BodyOut::Incomplete;
        }
        let nn = n as usize;
        if avail - nn < 2 {
            return BodyOut::Incomplete;
        }
        if buf[data_start + nn] == 13 && buf[data_start + nn + 1] == 10 {
            match chunks_from(buf, data_start + nn + 2) {
                BodyOut::Incomplete => BodyOut::Incomplete,
                BodyOut::Malformed => BodyOut::Malformed,
                BodyOut::Done(b, e) => {
                    let mut d = subvec(buf, data_start, data_start + nn);
                    append_bytes(&mut d, &b);
                    BodyOut::Done(d, e)
                },
            }
        } else {
            BodyOut::Malformed
        }
    }
}

/// What parsing one request out of the front of `s` yields.
pub ghost enum ParseModel {
    /// `s` does not yet hold a whole request.
    Incomplete,
    /// The front of `s` can never parse as a request.
    Malformed,
    /// The parsed request and the number of bytes it consumed.
    Parsed(ReqModel, int),
}

/// The body phase: a `Transfer-Encoding: chunked` header declares a
/// chunked body and any other `Transfer-Encoding` is refused; otherwise a
/// `Content-Length` header names how many bytes follow the head, and
/// neither header means an empty body.
pub open spec fn spec_finish(rl: RequestLine, hs: Seq<HeaderModel>, s: Seq<u8>, pos: int) -> ParseModel {
    if find_header(hs, spec_transfer_encoding_name()) is Some {
        let tev = find_header(hs, spec_transfer_encoding_name())->Some_0;
        if !eq_ignore_ascii_case(tev, spec_chunked_token()) {
            ParseModel::Malformed
        } else {
            match spec_chunks_from(s, pos) {
                BodyPhase::Incomplete => ParseModel::Incomplete,
                BodyPhase::Malformed => ParseModel::Malformed,
                BodyPhase::Done(b, e) => ParseModel::Parsed(
                    ReqModel {
                        method: rl.method,
                        version: rl.version,
                        path: rl.path,
                        headers: hs,
                        body: b,
                    },
                    e,
                ),
            }
        }
    } else {
        match find_header(hs, spec_content_length_name()) {
            None => ParseModel::Parsed(
                ReqModel {
                    method: rl.method,
                    version: rl.version,
                    path: rl.path,
                    headers: hs,
                    body: Seq::empty(),
                },
                pos,
            ),
            Some(v) => if !(1 <= v.len() <= 19 && all_digits(v)) {
                ParseModel::Malformed
            } else {
                let n = dec_value(v);
                if pos + n > s.len() {
                    ParseModel::Incomplete
                } else {
                    ParseModel::Parsed(
                        ReqModel {
                            method: rl.method,
                            version: rl.version,
                            path: rl.path,
                            headers: hs,
                            body: s.subrange(pos, pos + n),
                        },
                        pos + n,
                    )
                }
            },
        }
    }
}

/// Parsing one request out of the front of `s`.
pub open spec fn spec_parse(s: Seq<u8>) -> ParseModel {
    match find_crlf(s) {
        None => ParseModel::Incomplete,
        Some(i) => match spec_parse_request_line(s.subrange(0, i)) {
            None => ParseModel::Malformed,
            Some(rl) => match spec_headers_from(s, i + 2) {
                HeadersPhase::Incomplete => ParseModel::Incomplete,
                HeadersPhase::Malformed => ParseModel::Malformed,
                HeadersPhase::Done(hs, bodystart) => spec_finish(rl, hs, s, bodystart),
            },
        },
    }
}

/// Whether every byte of `v[from..to]` may stand in a method or target
/// token.
fn check_token_bytes(v: &Vec<u8>, from: usize, to: usize) -> (r: bool)
    requires
        from <= to <= v@.len(),
    ensures
        r == all_token_bytes(v@.subrange(from as int, to as int)),
{
    let ghost s = v@.subrange(from as int, to as int);
    let mut i: usize = from;
    while i < to
        invariant
            from <= i <= to <= v@.len(),
            s == v@.subrange(from as int, to as int),
            forall|j: int| from <= j < i ==> is_token_byte(#[trigger] v@[j]),
        decreases to - i,
    {
        let b = v[i];
        if !(33 <= b && b <= 126) {
            proof {
                assert(s[i - from] == v@[i as int]);
            }
            return false;
        }
        i = i + 1;
    }
    proof {
        assert forall|j: int| 0 <= j < s.len() implies is_token_byte(#[trigger] s[j]) by {
            assert(s[j] == v@[from + j]);
        }
    }
    true
}

/// Whether every byte of `v[from..to]` may stand in a header name.
fn check_name_bytes(v: &Vec<u8>, from: usize, to: usize) -> (r: bool)
    requires
        from <= to <= v@.len(),
    ensures
        r == all_name_bytes(v@.subrange(from as int, to as int)),
{
    let ghost s = v@.subrange(from as int, to as int);
    let mut i: usize = from;
    while i < to
        invariant
            from <= i <= to <= v@.len(),
            s == v@.subrange(from as int, to as int),
            forall|j: int| from <= j < i ==> is_name_byte(#[trigger] v@[j]),
        decreases to - i,
    {
        let b = v[i];
        if !(33 <= b && b <= 126 && b != 58) {
            proof {
                assert(s[i - from] == v@[i as int]);
            }
            return false;
        }
        i = i + 1;
    }
    proof {
        assert forall|j: int| 0 <= j < s.len() implies is_name_byte(#[trigger] s[j]) by {
            assert(s[j] == v@[from + j]);
        }
    }
    true
}

/// Parses one request line.
fn parse_request_line(line: &Vec<u8>) -> (r: Option<(Method, Version, Vec<u8>)>)
    ensures
        match r {
            Some(t) => spec_parse_request_line(line@) == Some(
                RequestLine { method: t.0, path: t.2@, version: t.1 },
            ),
            None => spec_parse_request_line(line@) is None,
        },
{
    proof {
        assert(line@.subrange(0, line@.len() as int) =~= line@);
    }
    let i = match find_byte_in(line, 0, line.len(), 32) {
        None => {
            return None;
        },
        Some(i) => i,
    };
    let ghost rest = line@.subrange(i + 1, line@.len() as int);
    let j_abs = match find_byte_in(line, i + 1, line.len(), 32) {
        None => {
            return None;
        },
        Some(j) => j,
    };
    proof {
        assert(rest =~= line@.subrange(i + 1, line@.len() as int));
    }
    let ghost j = j_abs - (i + 1);
    let ghost tok = line@.subrange(0, i as int);
    let ghost path_s = rest.subrange(0, j);
    let ghost ver_s = rest.subrange(j + 1, rest.len() as int);
    proof {
        assert(path_s =~= line@.subrange(i + 1, j_abs as int));
        assert(ver_s =~= line@.subrange(j_abs + 1, line@.len() as int));
    }
    if i == 0 || !check_token_bytes(line, 0, i) {
        return None;
    }
    if j_abs == i + 1 || !check_token_bytes(line, i + 1, j_abs) {
        return None;
    }
    let ver = subvec(line, j_abs + 1, line.len());
    let v11 = http11_token();
    let v10 = http10_token();
    let is11 = bytes_eq(&ver, &v11);
    let is10 = bytes_eq(&ver, &v10);
    if !is11 && !is10 {
        return None;
    }
    let version = if is11 {
        Version::Http11
    } else {
        Version::Http10
    };
    let tok_v = subvec(line, 0, i);
    let g = get_token();
    let p = post_token();
    let method = if bytes_eq(&tok_v, &g) {
        Method::Get
    } else if bytes_eq(&tok_v, &p) {
        Method::Post
    } else {
        Method::Other
    };
    let path = subvec(line, i + 1, j_abs);
    Some((method, version, path))
}

/// Parses one header line.
fn parse_header_line(line: &Vec<u8>) -> (r: Option<Header>)
    ensures
        match r {
            Some(h) => spec_parse_header_line(line@) == Some(h@),
            None => spec_parse_header_line(line@) is None,
        },
{
    proof {
        assert(line@.subrange(0, line@.len() as int) =~= line@);
    }
    let i = match find_byte_in(line, 0, line.len(), 58) {
        None => {
            return None;
        },
        Some(i) => i,
    };
    if i == 0 || !check_name_bytes(line, 0, i) {
        return None;
    }
    let name = subvec(line, 0, i);
    let value = trim_ows_vec(line, i + 1, line.len());
    Some(Header { name, value })
}

/// How far the header block has got, executable form.
pub enum HeadersOut {
    Incomplete,
    Malformed,
    Done(Vec<Header>, usize),
}

/// Whether the executable header-block outcome means what the spec one
/// says.
pub open spec fn headers_out_matches(out: HeadersOut, m: HeadersPhase) -> bool {
    match out {
        HeadersOut::Incomplete => m is Incomplete,
        HeadersOut::Malformed => m is Malformed,
        HeadersOut::Done(hs, e) => m matches HeadersPhase::Done(ms, me) && hs@.map_values(
            |h: Header| h@,
        ) == ms && e as int == me,
    }
}

/// Parses header lines from `pos` up to the closing empty line.
fn headers_from(buf: &Vec<u8>, pos: usize) -> (out: HeadersOut)
    requires
        pos <= buf@.len(),
    ensures
        headers_out_matches(out, spec_headers_from(buf@, pos as int)),
        out matches HeadersOut::Done(hs, e) ==> pos <= e <= buf@.len(),
    decreases buf@.len() - pos,
{
    let buf_len = buf.len();
    let k_abs = match find_crlf_in(buf, pos) {
        None => {
            return HeadersOut::Incomplete;
        },
        Some(k) => k,
    };
    proof {
        assert(k_abs + 2 <= buf_len);
    }
    if k_abs == pos {
        let hs: Vec<Header> = Vec::new();
        proof {
            assert(hs@.map_values(|h: Header| h@) =~= Seq::<HeaderModel>::empty());
        }
        return HeadersOut::Done(hs, pos + 2);
    }
    let line = subvec(buf, pos, k_abs);
    let h = match parse_header_line(&line) {
        None => {
            return HeadersOut::Malformed;
        },
        Some(h) => h,
    };
    match headers_from(buf, k_abs + 2) {
        HeadersOut::Incomplete => HeadersOut::Incomplete,
        HeadersOut::Malformed => HeadersOut::Malformed,
        HeadersOut::Done(mut hs, e) => {
            let ghost tail_models = hs@.map_values(|h: Header| h@);
            hs.insert(0, h);
            proof {
                assert(hs@.map_values(|h: Header| h@) =~= seq![h@] + tail_models);
            }
            HeadersOut::Done(hs, e)
        },
    }
}

/// Reads a `Content-Length` numeral: up to nineteen decimal digits.
fn parse_content_length(v: &Vec<u8>) -> (r: Option<u64>)
    ensures
        match r {
            Some(n) => 1 <= v@.len() <= 19 && all_digits(v@) && n as int == dec_value(v@),
            None => !(1 <= v@.len() <= 19 && all_digits(v@)),
        },
{
    if v.len() == 0 || v.len() > 19 {
        return None;
    }
    let mut acc: u64 = 0;
    let mut i: usize = 0;
    while i < v.len()
        invariant
            i <= v@.len(),
            v@.len() <= 19,
            all_digits(v@.subrange(0, i as int)),
            acc as int == dec_value(v@.subrange(0, i as int)),
            (acc as int) < pow10(i as nat),
        decreases v@.len() - i,
    {
        let b = v[i];
        if !(48 <= b && b <= 57) {
            proof {
                assert(v@.subrange(0, v@.len() as int) =~= v@);
            }
            return None;
        }
        proof {
            crate::util::lemma_pow10_le(i as nat, 18);
            assert(pow10(19) == 10 * pow10(18));
            crate::util::lemma_pow10_19();
            assert(v@.subrange(0, i + 1).drop_last() =~= v@.subrange(0, i as int));
            assert(v@.subrange(0, i + 1).last() == v@[i as int]);
            assert forall|j: int| 0 <= j < i + 1 implies is_digit(
                #[trigger] v@.subrange(0, i + 1)[j],
            ) by {
                if j < i {
                    assert(v@.subrange(0, i + 1)[j] == v@.subrange(0, i as int)[j]);
                }
            }
        }
        acc = acc * 10 + ((b - 48) as u64);
        i = i + 1;
    }
    proof {
        assert(v@.subrange(0, v@.len() as int) =~= v@);
    }
    Some(acc)
}

/// What parsing one request out of the front of a buffer yields,
/// executable form.
pub enum ParseOutcome {
    /// The buffer does not yet hold a whole request: read more bytes.
    Incomplete,
    /// The front of the buffer can never parse: close the connection.
    Malformed,
    /// The parsed request and the number of bytes it consumed.
    Parsed(Request, usize),
}

/// Whether the executable outcome means what the spec one says.
pub open spec fn parse_outcome_matches(out: ParseOutcome, m: ParseModel) -> bool {
    match out {
        ParseOutcome::Incomplete => m is Incomplete,
        ParseOutcome::Malformed => m is Malformed,
        ParseOutcome::Parsed(req, c) => m matches ParseModel::Parsed(rm, cm) && req@ == rm && c
            as int == cm,
    }
}

/// Parses one request out of the front of `buf`.
pub fn parse_request(buf: &Vec<u8>) -> (out: ParseOutcome)
    ensures
        parse_outcome_matches(out, spec_parse(buf@)),
        out matches ParseOutcome::Parsed(req, c) ==> c <= buf@.len(),
{
    proof {
        assert(buf@.subrange(0, buf@.len() as int) =~= buf@);
    }
    let i = match find_crlf_in(buf, 0) {
        None => {
            return ParseOutcome::Incomplete;
        },
        Some(i) => i,
    };
    let buf_len = buf.len();
    proof {
        assert(i + 2 <= buf_len);
    }
    let line = subvec(buf, 0, i);
    let (method, version, path) = match parse_request_line(&line) {
        None => {
            return ParseOutcome::Malformed;
        },
        Some(t) => t,
    };
    let (headers, bodystart) = match headers_from(buf, i + 2) {
        HeadersOut::Incomplete => {
            return ParseOutcome::Incomplete;
        },
        HeadersOut::Malformed => {
            return ParseOutcome::Malformed;
        },
        HeadersOut::Done(hs, e) => (hs, e),
    };
    let ghost models = headers@.map_values(|h: Header| h@);
    let te = transfer_encoding_name();
    if let Some(tev) = lookup_header(&headers, &te) {
        let ck = chunked_token();
        if !bytes_eq_ignore_case(&tev, &ck) {
            return ParseOutcome::Malformed;
        }
        match chunks_from(buf, bodystart) {
            BodyOut::Incomplete => {
                return ParseOutcome::Incomplete;
            },
            BodyOut::Malformed => {
                return ParseOutcome::Malformed;
            },
            BodyOut::Done(body, end) => {
                let req = Request { method, version, path, headers, body };
                return ParseOutcome::Parsed(req, end);
            },
        }
    }
    let cl = content_length_name();
    let clv = match lookup_header(&headers, &cl) {
        None => {
            let req = Request { method, version, path, headers, body: Vec::new() };
            proof {
                assert(req@.body =~= Seq::<u8>::empty());
            }
            return ParseOutcome::Parsed(req, bodystart);
        },
        Some(v) => v,
    };
    let n = match parse_content_length(&clv) {
        None => {
            return ParseOutcome::Malformed;
        },
        Some(n) => n,
    };
    if n > (buf.len() - bodystart) as u64 {
        return ParseOutcome::Incomplete;
    }
    let nn = n as usize;
    let body = subvec(buf, bodystart, bodystart + nn);
    let req = Request { method, version, path, headers, body };
    ParseOutcome::Parsed(req, bodystart + nn)
}

} // verus!
