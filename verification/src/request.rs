//! The request data model: method, protocol version, headers, path and body,
//! with their spec-level views and the first-match header lookup.

use vstd::prelude::*;
use crate::util::{ascii_lower, eq_ignore_ascii_case};
use crate::util::subvec;

verus! {

/// The request method, as far as the behaviour distinguishes it.
#[derive(Clone, Copy, PartialEq, Eq, Structural, Debug)]
pub enum Method {
    Get,
    Post,
    /// Any well-formed method token other than `GET` or `POST`.
    Other,
}

/// The protocol version of the request line.
#[derive(Clone, Copy, PartialEq, Eq, Structural, Debug)]
pub enum Version {
    Http10,
    Http11,
}

/// One request header, name and value as received.
pub struct Header {
    pub name: Vec<u8>,
    pub value: Vec<u8>,
}

/// The spec-level image of a header.
pub ghost struct HeaderModel {
    pub name: Seq<u8>,
    pub value: Seq<u8>,
}

impl View for Header {
    type V = HeaderModel;

    open spec fn view(&self) -> HeaderModel {
        HeaderModel { name: self.name@, value: self.value@ }
    }
}

/// One parsed request.  Headers keep their order and their case; duplicates
/// are all preserved.
pub struct Request {
    pub method: Method,
    pub version: Version,
    pub path: Vec<u8>,
    pub headers: Vec<Header>,
    pub body: Vec<u8>,
}

/// The spec-level image of a request.
pub ghost struct ReqModel {
    pub method: Method,
    pub version: Version,
    pub path: Seq<u8>,
    pub headers: Seq<HeaderModel>,
    pub body: Seq<u8>,
}

impl View for Request {
    type V = ReqModel;

    open spec fn view(&self) -> ReqModel {
        ReqModel {
            method: self.method,
            version: self.version,
            path: self.path@,
            headers: self.headers@.map_values(|h: Header| h@),
            body: self.body@,
        }
    }
}

/// The value of the first header whose name equals `name` up to ASCII case,
/// if any.
pub open spec fn find_header(hs: Seq<HeaderModel>, name: Seq<u8>) -> Option<Seq<u8>>
    decreases hs.len(),
{
    if hs.len() == 0 {
        None
    } else if eq_ignore_ascii_case(hs[0].name, name) {
        Some(hs[0].value)
    } else {
        find_header(hs.subrange(1, hs.len() as int), name)
    }
}

/// Whether `a` and `b` are equal up to ASCII case.
pub fn bytes_eq_ignore_case(a: &Vec<u8>, b: &Vec<u8>) -> (r: bool)
    ensures
        r == eq_ignore_ascii_case(a@, b@),
{
    if a.len() != b.len() {
        return false;
    }
    let mut i: usize = 0;
    while i < a.len()
        invariant
            i <= a@.len(),
            a@.len() == b@.len(),
            forall|j: int| 0 <= j < i ==> ascii_lower(#[trigger] a@[j]) == ascii_lower(b@[j]),
        decreases a@.len() - i,
    {
        let x = a[i];
        let y = b[i];
        let xl = if 65 <= x && x <= 90 {
            x + 32
        } else {
            x
        };
        let yl = if 65 <= y && y <= 90 {
            y + 32
        } else {
            y
        };
        if xl != yl {
            return false;
        }
        i = i + 1;
    }
    true
}

/// The value of the first header named `name` up to ASCII case, copied out.
pub fn lookup_header(headers: &Vec<Header>, name: &Vec<u8>) -> (r: Option<Vec<u8>>)
    ensures
        match r {
            Some(v) => find_header(headers@.map_values(|h: Header| h@), name@) == Some(v@),
            None => find_header(headers@.map_values(|h: Header| h@), name@) is None,
        },
{
    let ghost models = headers@.map_values(|h: Header| h@);
    proof {
        assert(models.subrange(0, models.len() as int) =~= models);
    }
    let mut i: usize = 0;
    while i < headers.len()
        invariant
            i <= headers@.len(),
            models == headers@.map_values(|h: Header| h@),
            find_header(models, name@) == find_header(
                models.subrange(i as int, models.len() as int),
                name@,
            ),
        decreases headers@.len() - i,
    {
        let ghost rest = models.subrange(i as int, models.len() as int);
        if bytes_eq_ignore_case(&headers[i].name, name) {
            proof {
                assert(rest[0] == models[i as int]);
                assert(models[i as int] == headers@[i as int]@);
            }
            let v = subvec(&headers[i].value, 0, headers[i].value.len());
            proof {
                assert(v@ =~= headers@[i as int]@.value);
            }
            return Some(v);
        }
        proof {
            assert(rest[0] == models[i as int]);
            assert(models[i as int] == headers@[i as int]@);
            assert(rest.subrange(1, rest.len() as int) =~= models.subrange(
                i + 1,
                models.len() as int,
            ));
        }
        i = i + 1;
    }
    proof {
        assert(models.subrange(i as int, models.len() as int).len() == 0);
    }
    None
}

} // verus!
