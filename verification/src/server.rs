//! The per-request service: dispatching a parsed request to its handler,
//! answering, the keep-alive rule, and the port taken from the command
//! line.  One call of `serve_step` is everything the server decides between
//! reading bytes and writing bytes.

use vstd::prelude::*;
use crate::handlers::{cookie_body, echo_body, spec_cookie_body, spec_echo_body};
use crate::parse::{parse_request, spec_parse, ParseModel, ParseOutcome};
use crate::request::{bytes_eq_ignore_case, find_header, lookup_header, Header, Method, ReqModel,
    Request, Version};
use crate::response::{build_response, serialize_response, spec_response_bytes, Response};
use crate::route::{route, spec_route, Route, RouteConfig};
use crate::tokens::{close_token, connection_name, ok_body, spec_close_token,
    spec_connection_name, spec_ok_body};
use crate::util::{all_digits, dec_value, eq_ignore_ascii_case, is_digit, lemma_dec_value_bounds,
    subvec};

verus! {

/// The body a request is answered with: the header echo on `/echo`, the
/// cookie echo on `/cookie`, and otherwise the request body for POST or the
/// literal `OK` for every other method.
pub open spec fn spec_handler_body(cfg: RouteConfig, r: ReqModel) -> Seq<u8> {
    match spec_route(cfg, r.path) {
        Route::Echo => spec_echo_body(r.headers),
        Route::Cookie => spec_cookie_body(r.headers),
        Route::Fallback => if r.method is Post {
            r.body
        } else {
            spec_ok_body()
        },
    }
}

/// Answers one parsed request: status 200 and the handler's body.
pub fn handle(cfg: RouteConfig, req: &Request) -> (resp: Response)
    ensures
        resp.wf(),
        resp.body@ == spec_handler_body(cfg, req@),
{
    let body = match route(cfg, &req.path) {
        Route::Echo => echo_body(&req.headers),
        Route::Cookie => cookie_body(&req.headers),
        Route::Fallback => {
            if req.method == Method::Post {
                let b = subvec(&req.body, 0, req.body.len());
                proof {
                    assert(b@ =~= req.body@);
                }
                b
            } else {
                ok_body()
            }
        },
    };
    build_response(body)
}

/// The wire bytes one parsed request is answered with.
pub fn respond(cfg: RouteConfig, req: &Request) -> (r: Vec<u8>)
    ensures
        r@ == spec_response_bytes(spec_handler_body(cfg, req@)),
{
    let resp = handle(cfg, req);
    serialize_response(&resp)
}

/// The keep-alive rule of HTTP/1.1: the connection stays open unless the
/// request is HTTP/1.0 or its first `Connection` header says `close` up to
/// ASCII case.
pub open spec fn spec_keep_alive(r: ReqModel) -> bool {
    r.version is Http11 && match find_header(r.headers, spec_connection_name()) {
        None => true,
        Some(v) => !eq_ignore_ascii_case(v, spec_close_token()),
    }
}

/// Whether another request may be read on the connection that carried
/// `req`.
pub fn keep_alive(req: &Request) -> (r: bool)
    ensures
        r == spec_keep_alive(req@),
{
    if !(req.version == Version::Http11) {
        return false;
    }
    let name = connection_name();
    match lookup_header(&req.headers, &name) {
        None => true,
        Some(v) => {
            let close = close_token();
            !bytes_eq_ignore_case(&v, &close)
        },
    }
}

/// What the server does after looking at the bytes read so far on a
/// connection.
pub enum StepOutcome {
    /// No whole request yet: read more bytes.
    NeedMoreData,
    /// The front of the buffer can never parse: close the connection
    /// without answering.
    CloseConnection,
    /// Answer: the response bytes to write, the request bytes consumed,
    /// and whether to read another request afterwards.
    Respond { bytes: Vec<u8>, consumed: usize, keep_alive: bool },
}

/// One step of the connection loop: everything the server decides between
/// reading and writing.
pub fn serve_step(cfg: RouteConfig, buf: &Vec<u8>) -> (out: StepOutcome)
    ensures
        match spec_parse(buf@) {
            ParseModel::Incomplete => out is NeedMoreData,
            ParseModel::Malformed => out is CloseConnection,
            ParseModel::Parsed(rm, cm) => out matches StepOutcome::Respond {
                bytes,
                consumed,
                keep_alive,
            } && bytes@ == spec_response_bytes(spec_handler_body(cfg, rm)) && consumed as int == cm
                && keep_alive == spec_keep_alive(rm),
        },
{
    match parse_request(buf) {
        ParseOutcome::Incomplete => StepOutcome::NeedMoreData,
        ParseOutcome::Malformed => StepOutcome::CloseConnection,
        ParseOutcome::Parsed(req, consumed) => {
            let ka = keep_alive(&req);
            let bytes = respond(cfg, &req);
            StepOutcome::Respond { bytes, consumed, keep_alive: ka }
        },
    }
}

/// Which port the process listens on: the first command-line argument when
/// it is a decimal port number as Rust reads one (an optional leading plus,
/// then digits, value at most 65535), else the variant's default.
pub open spec fn spec_port_of(arg: Option<Seq<u8>>, default: u16) -> int {
    match arg {
        None => default as int,
        Some(s) => {
            let t = if s.len() > 0 && s[0] == 43 {
                s.subrange(1, s.len() as int)
            } else {
                s
            };
            if t.len() > 0 && all_digits(t) && dec_value(t) <= 65535 {
                dec_value(t)
            } else {
                default as int
            }
        },
    }
}

/// The spec-level image of an optional byte-string argument.
pub open spec fn arg_view(arg: Option<&Vec<u8>>) -> Option<Seq<u8>> {
    match arg {
        None => None,
        Some(v) => Some(v@),
    }
}

/// Reads the listening port from the optional first command-line argument.
pub fn parse_port(arg: Option<&Vec<u8>>, default: u16) -> (p: u16)
    ensures
        p as int == spec_port_of(arg_view(arg), default),
{
    let v = match arg {
        None => {
            return default;
        },
        Some(v) => v,
    };
    let start: usize = if v.len() > 0 && v[0] == 43 {
        1
    } else {
        0
    };
    let ghost t = if v@.len() > 0 && v@[0] == 43 {
        v@.subrange(1, v@.len() as int)
    } else {
        v@
    };
    proof {
        assert(t =~= v@.subrange(start as int, v@.len() as int));
    }
    if start >= v.len() {
        return default;
    }
    let mut acc: u32 = 0;
    let mut over: bool = false;
    let mut i: usize = start;
    while i < v.len()
        invariant
            start <= i <= v@.len(),
            arg_view(arg) == Some(v@),
            start == if v@.len() > 0 && v@[0] == 43 {
                1int
            } else {
                0int
            },
            t == v@.subrange(start as int, v@.len() as int),
            all_digits(v@.subrange(start as int, i as int)),
            !over ==> acc <= 65535 && acc as int == dec_value(v@.subrange(start as int, i as int)),
            over ==> dec_value(v@.subrange(start as int, i as int)) > 65535,
        decreases v@.len() - i,
    {
        let b = v[i];
        if !(48 <= b && b <= 57) {
            proof {
                assert(t[i - start] == v@[i as int]);
                assert(!is_digit(t[i - start]));
            }
            return default;
        }
        let ghost pre = v@.subrange(start as int, i as int);
        let ghost pre1 = v@.subrange(start as int, i + 1);
        proof {
            assert(pre1.drop_last() =~= pre);
            assert(pre1.last() == v@[i as int]);
            assert forall|j: int| 0 <= j < pre1.len() implies is_digit(#[trigger] pre1[j]) by {
                if j < pre.len() {
                    assert(pre1[j] == pre[j]);
                }
            }
            if over {
                lemma_dec_value_bounds(pre);
            }
        }
        if !over {
            let next: u32 = acc * 10 + ((b - 48) as u32);
            if next > 65535 {
                over = true;
            } else {
                acc = next;
            }
        }
        i = i + 1;
    }
    proof {
        assert(v@.subrange(start as int, i as int) =~= t);
    }
    if over {
        default
    } else {
        acc as u16
    }
}

} // verus!
