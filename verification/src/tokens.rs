//! The literal byte strings of the protocol and of the routes, each as a
//! spec-level sequence beside the function that builds it.

use vstd::prelude::*;

verus! {

/// The route of the header-echo handler: `/echo`.
pub open spec fn spec_echo_path() -> Seq<u8> {
    seq![47u8, 101u8, 99u8, 104u8, 111u8]
}

/// The route of the header-echo handler: `/echo`.
pub fn echo_path() -> (v: Vec<u8>)
    ensures
        v@ == spec_echo_path(),
{
    let mut v: Vec<u8> = Vec::new();
    v.push(47);
    v.push(101);
    v.push(99);
    v.push(104);
    v.push(111);
    proof {
        assert(v@ =~= spec_echo_path());
    }
    v
}

/// The route of the cookie-echo handler: `/cookie`.
pub open spec fn spec_cookie_path() -> Seq<u8> {
    seq![47u8, 99u8, 111u8, 111u8, 107u8, 105u8, 101u8]
}

/// The route of the cookie-echo handler: `/cookie`.
pub fn cookie_path() -> (v: Vec<u8>)
    ensures
        v@ == spec_cookie_path(),
{
    let mut v: Vec<u8> = Vec::new();
    v.push(47);
    v.push(99);
    v.push(111);
    v.push(111);
    v.push(107);
    v.push(105);
    v.push(101);
    proof {
        assert(v@ =~= spec_cookie_path());
    }
    v
}

/// The request-line token of the GET method.
pub open spec fn spec_get_token() -> Seq<u8> {
    seq![71u8, 69u8, 84u8]
}

/// The request-line token of the GET method.
pub fn get_token() -> (v: Vec<u8>)
    ensures
        v@ == spec_get_token(),
{
    let mut v: Vec<u8> = Vec::new();
    v.push(71);
    v.push(69);
    v.push(84);
    proof {
        assert(v@ =~= spec_get_token());
    }
    v
}

/// The request-line token of the POST method.
pub open spec fn spec_post_token() -> Seq<u8> {
    seq![80u8, 79u8, 83u8, 84u8]
}

/// The request-line token of the POST method.
pub fn post_token() -> (v: Vec<u8>)
    ensures
        v@ == spec_post_token(),
{
    let mut v: Vec<u8> = Vec::new();
    v.push(80);
    v.push(79);
    v.push(83);
    v.push(84);
    proof {
        assert(v@ =~= spec_post_token());
    }
    v
}

/// The request-line version token of HTTP/1.0.
pub open spec fn spec_http10_token() -> Seq<u8> {
    seq![72u8, 84u8, 84u8, 80u8, 47u8, 49u8, 46u8, 48u8]
}

/// The request-line version token of HTTP/1.0.
pub fn http10_token() -> (v: Vec<u8>)
    ensures
        v@ == spec_http10_token(),
{
    let mut v: Vec<u8> = Vec::new();
    v.push(72);
    v.push(84);
    v.push(84);
    v.push(80);
    v.push(47);
    v.push(49);
    v.push(46);
    v.push(48);
    proof {
        assert(v@ =~= spec_http10_token());
    }
    v
}

/// The request-line version token of HTTP/1.1.
pub open spec fn spec_http11_token() -> Seq<u8> {
    seq![72u8, 84u8, 84u8, 80u8, 47u8, 49u8, 46u8, 49u8]
}

/// The request-line version token of HTTP/1.1.
pub fn http11_token() -> (v: Vec<u8>)
    ensures
        v@ == spec_http11_token(),
{
    let mut v: Vec<u8> = Vec::new();
    v.push(72);
    v.push(84);
    v.push(84);
    v.push(80);
    v.push(47);
    v.push(49);
    v.push(46);
    v.push(49);
    proof {
        assert(v@ =~= spec_http11_token());
    }
    v
}

/// The `Cookie` header name, lower-cased.
pub open spec fn spec_cookie_header_name() -> Seq<u8> {
    seq![99u8, 111u8, 111u8, 107u8, 105u8, 101u8]
}

/// The `Cookie` header name, lower-cased.
pub fn cookie_header_name() -> (v: Vec<u8>)
    ensures
        v@ == spec_cookie_header_name(),
{
    let mut v: Vec<u8> = Vec::new();
    v.push(99);
    v.push(111);
    v.push(111);
    v.push(107);
    v.push(105);
    v.push(101);
    proof {
        assert(v@ =~= spec_cookie_header_name());
    }
    v
}

/// The `Content-Length` header name, lower-cased.
pub open spec fn spec_content_length_name() -> Seq<u8> {
    seq![99u8, 111u8, 110u8, 116u8, 101u8, 110u8, 116u8, 45u8, 108u8, 101u8, 110u8, 103u8, 116u8, 104u8]
}

/// The `Content-Length` header name, lower-cased.
pub fn content_length_name() -> (v: Vec<u8>)
    ensures
        v@ == spec_content_length_name(),
{
    let mut v: Vec<u8> = Vec::new();
    v.push(99);
    v.push(111);
    v.push(110);
    v.push(116);
    v.push(101);
    v.push(110);
    v.push(116);
    v.push(45);
    v.push(108);
    v.push(101);
    v.push(110);
    v.push(103);
    v.push(116);
    v.push(104);
    proof {
        assert(v@ =~= spec_content_length_name());
    }
    v
}

/// The `Transfer-Encoding` header name, lower-cased.
pub open spec fn spec_transfer_encoding_name() -> Seq<u8> {
    seq![116u8, 114u8, 97u8, 110u8, 115u8, 102u8, 101u8, 114u8, 45u8, 101u8, 110u8, 99u8, 111u8, 100u8, 105u8, 110u8, 103u8]
}

/// The `Transfer-Encoding` header name, lower-cased.
pub fn transfer_encoding_name() -> (v: Vec<u8>)
    ensures
        v@ == spec_transfer_encoding_name(),
{
    let mut v: Vec<u8> = Vec::new();
    v.push(116);
    v.push(114);
    v.push(97);
    v.push(110);
    v.push(115);
    v.push(102);
    v.push(101);
    v.push(114);
    v.push(45);
    v.push(101);
    v.push(110);
    v.push(99);
    v.push(111);
    v.push(100);
    v.push(105);
    v.push(110);
    v.push(103);
    proof {
        assert(v@ =~= spec_transfer_encoding_name());
    }
    v
}

/// The `Connection` header name, lower-cased.
pub open spec fn spec_connection_name() -> Seq<u8> {
    seq![99u8, 111u8, 110u8, 110u8, 101u8, 99u8, 116u8, 105u8, 111u8, 110u8]
}

/// The `Connection` header name, lower-cased.
pub fn connection_name() -> (v: Vec<u8>)
    ensures
        v@ == spec_connection_name(),
{
    let mut v: Vec<u8> = Vec::new();
    v.push(99);
    v.push(111);
    v.push(110);
    v.push(110);
    v.push(101);
    v.push(99);
    v.push(116);
    v.push(105);
    v.push(111);
    v.push(110);
    proof {
        assert(v@ =~= spec_connection_name());
    }
    v
}

/// The `chunked` value of the `Transfer-Encoding` header.
pub open spec fn spec_chunked_token() -> Seq<u8> {
    seq![99u8, 104u8, 117u8, 110u8, 107u8, 101u8, 100u8]
}

/// The `chunked` value of the `Transfer-Encoding` header.
pub fn chunked_token() -> (v: Vec<u8>)
    ensures
        v@ == spec_chunked_token(),
{
    let mut v: Vec<u8> = Vec::new();
    v.push(99);
    v.push(104);
    v.push(117);
    v.push(110);
    v.push(107);
    v.push(101);
    v.push(100);
    proof {
        assert(v@ =~= spec_chunked_token());
    }
    v
}

/// The `close` value of the `Connection` header.
pub open spec fn spec_close_token() -> Seq<u8> {
    seq![99u8, 108u8, 111u8, 115u8, 101u8]
}

/// The `close` value of the `Connection` header.
pub fn close_token() -> (v: Vec<u8>)
    ensures
        v@ == spec_close_token(),
{
    let mut v: Vec<u8> = Vec::new();
    v.push(99);
    v.push(108);
    v.push(111);
    v.push(115);
    v.push(101);
    proof {
        assert(v@ =~= spec_close_token());
    }
    v
}

/// The fallback body for non-POST requests: `OK`.
pub open spec fn spec_ok_body() -> Seq<u8> {
    seq![79u8, 75u8]
}

/// The fallback body for non-POST requests: `OK`.
pub fn ok_body() -> (v: Vec<u8>)
    ensures
        v@ == spec_ok_body(),
{
    let mut v: Vec<u8> = Vec::new();
    v.push(79);
    v.push(75);
    proof {
        assert(v@ =~= spec_ok_body());
    }
    v
}

/// Everything of the response head before the `Content-Length` digits.
pub open spec fn spec_response_head_prefix() -> Seq<u8> {
    seq![72u8, 84u8, 84u8, 80u8, 47u8, 49u8, 46u8, 49u8, 32u8, 50u8, 48u8, 48u8, 32u8, 79u8, 75u8, 13u8, 10u8, 67u8, 111u8, 110u8, 116u8, 101u8, 110u8, 116u8, 45u8, 84u8, 121u8, 112u8, 101u8, 58u8, 32u8, 116u8, 101u8, 120u8, 116u8, 47u8, 112u8, 108u8, 97u8, 105u8, 110u8, 13u8, 10u8, 67u8, 111u8, 110u8, 116u8, 101u8, 110u8, 116u8, 45u8, 76u8, 101u8, 110u8, 103u8, 116u8, 104u8, 58u8, 32u8]
}

/// Everything of the response head before the `Content-Length` digits.
#[verifier::rlimit(60)]
pub fn response_head_prefix() -> (v: Vec<u8>)
    ensures
        v@ == spec_response_head_prefix(),
{
    let mut v: Vec<u8> = Vec::new();
    v.push(72);
    v.push(84);
    v.push(84);
    v.push(80);
    v.push(47);
    v.push(49);
    v.push(46);
    v.push(49);
    v.push(32);
    v.push(50);
    v.push(48);
    v.push(48);
    v.push(32);
    v.push(79);
    v.push(75);
    v.push(13);
    v.push(10);
    v.push(67);
    v.push(111);
    v.push(110);
    v.push(116);
    v.push(101);
    v.push(110);
    v.push(116);
    v.push(45);
    v.push(84);
    v.push(121);
    v.push(112);
    v.push(101);
    v.push(58);
    v.push(32);
    v.push(116);
    v.push(101);
    v.push(120);
    v.push(116);
    v.push(47);
    v.push(112);
    v.push(108);
    v.push(97);
    v.push(105);
    v.push(110);
    v.push(13);
    v.push(10);
    v.push(67);
    v.push(111);
    v.push(110);
    v.push(116);
    v.push(101);
    v.push(110);
    v.push(116);
    v.push(45);
    v.push(76);
    v.push(101);
    v.push(110);
    v.push(103);
    v.push(116);
    v.push(104);
    v.push(58);
    v.push(32);
    proof {
        assert(v@ =~= spec_response_head_prefix());
    }
    v
}

} // verus!
