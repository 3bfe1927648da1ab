//! The request router: a fixed precedence over a configurable set of
//! special routes, with the body handler as the universal fallback.

use vstd::prelude::*;
use crate::tokens::{cookie_path, echo_path, spec_cookie_path, spec_echo_path};
use crate::util::bytes_eq;

verus! {

/// The handler a request is dispatched to.
#[derive(Clone, Copy, PartialEq, Eq, Structural, Debug)]
pub enum Route {
    /// The header echo, served on `/echo`.
    Echo,
    /// The cookie echo, served on `/cookie`.
    Cookie,
    /// The body handler, serving every other request.
    Fallback,
}

/// Which special routes a deployment registers.  Every observed deployment
/// registers either both or neither; the router takes the set as data.
#[derive(Clone, Copy, PartialEq, Eq, Structural, Debug)]
pub struct RouteConfig {
    pub echo_enabled: bool,
    pub cookie_enabled: bool,
}

impl RouteConfig {
    /// The configuration with both special routes registered.
    pub fn full() -> (c: RouteConfig)
        ensures
            c == (RouteConfig { echo_enabled: true, cookie_enabled: true }),
    {
        RouteConfig { echo_enabled: true, cookie_enabled: true }
    }

    /// The configuration with no special route: everything falls back to
    /// the body handler.
    pub fn fallback_only() -> (c: RouteConfig)
        ensures
            c == (RouteConfig { echo_enabled: false, cookie_enabled: false }),
    {
        RouteConfig { echo_enabled: false, cookie_enabled: false }
    }
}

/// Routing: `/echo` first, `/cookie` second, the fallback otherwise, each
/// special route only where the configuration registers it.
pub open spec fn spec_route(cfg: RouteConfig, path: Seq<u8>) -> Route {
    if cfg.echo_enabled && path == spec_echo_path() {
        Route::Echo
    } else if cfg.cookie_enabled && path == spec_cookie_path() {
        Route::Cookie
    } else {
        Route::Fallback
    }
}

/// Selects the handler for `path` under `cfg`.
pub fn route(cfg: RouteConfig, path: &Vec<u8>) -> (r: Route)
    ensures
        r == spec_route(cfg, path@),
{
    let echo = echo_path();
    if cfg.echo_enabled && bytes_eq(path, &echo) {
        return Route::Echo;
    }
    let cookie = cookie_path();
    if cfg.cookie_enabled && bytes_eq(path, &cookie) {
        return Route::Cookie;
    }
    Route::Fallback
}

} // verus!
