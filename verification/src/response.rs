//! The response builder: every defined behaviour answers 200 with a
//! `text/plain` body, and the `Content-Length` head field always carries the
//! exact byte length of the body that follows.

use vstd::prelude::*;
use crate::handlers::append_bytes;
use crate::tokens::{response_head_prefix, spec_response_head_prefix};

verus! {

/// One response: the status code and the body.  Every defined behaviour
/// fixes the status at 200.
pub struct Response {
    pub status: u16,
    pub body: Vec<u8>,
}

impl Response {
    /// A response is well formed when its status is the one the behaviour
    /// defines.
    pub open spec fn wf(&self) -> bool {
        self.status == 200
    }
}

/// The decimal numeral of `n`, most significant digit first, no sign and no
/// leading zero.
pub open spec fn spec_dec_digits(n: nat) -> Seq<u8>
    decreases n,
{
    if n < 10 {
        seq![(48 + n) as u8]
    } else {
        spec_dec_digits(n / 10).push((48 + n % 10) as u8)
    }
}

/// The decimal numeral of `n`.
pub fn dec_digits(n: u64) -> (v: Vec<u8>)
    ensures
        v@ == spec_dec_digits(n as nat),
    decreases n,
{
    if n < 10 {
        let mut v: Vec<u8> = Vec::new();
        v.push(48 + n as u8);
        proof {
            assert(v@ =~= spec_dec_digits(n as nat));
        }
        v
    } else {
        let mut v = dec_digits(n / 10);
        v.push(48 + (n % 10) as u8);
        proof {
            assert(n as nat / 10 == (n / 10) as nat);
            assert((48 + n as nat % 10) as u8 == 48 + (n % 10) as u8);
        }
        v
    }
}

/// Builds the 200 response around a handler's body.
pub fn build_response(body: Vec<u8>) -> (r: Response)
    ensures
        r.wf(),
        r.body@ == body@,
{
    Response { status: 200, body }
}

/// The wire form of a response: the fixed head, the body length in decimal,
/// an empty line, and the body.  By construction the length named in the
/// head is the length of the body written after it.
pub open spec fn spec_response_bytes(body: Seq<u8>) -> Seq<u8> {
    spec_response_head_prefix() + spec_dec_digits(body.len()) + seq![13u8, 10u8, 13u8, 10u8]
        + body
}

/// Serializes a response for the wire.
pub fn serialize_response(resp: &Response) -> (r: Vec<u8>)
    requires
        resp.wf(),
    ensures
        r@ == spec_response_bytes(resp.body@),
{
    let mut out = response_head_prefix();
    let len64: u64 = resp.body.len() as u64;
    let digits = dec_digits(len64);
    append_bytes(&mut out, &digits);
    out.push(13);
    out.push(10);
    out.push(13);
    out.push(10);
    append_bytes(&mut out, &resp.body);
    proof {
        assert(len64 as nat == resp.body@.len());
        assert(out@ =~= spec_response_bytes(resp.body@));
    }
    out
}

} // verus!
