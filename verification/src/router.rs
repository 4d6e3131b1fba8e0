//! Routing: matching the request path against the fixed rule set, first
//! match winning: the exact path "/", the prefix "/echo/", the prefix
//! "/files/", a second path segment equal to "user-agent", and otherwise
//! no route.

use vstd::prelude::*;
use vstd::slice::slice_subrange;
use crate::bytes::{bytes_of, bytes_eq, str_bytes, starts_with, starts_with_spec, find_from};

verus! {

/// The first position of byte `b` in `s`, if any.
pub open spec fn first_byte(s: Seq<u8>, b: u8) -> Option<int>
    decreases s.len(),
{
    if s.len() == 0 {
        None
    } else if s[0] == b {
        Some(0)
    } else {
        match first_byte(s.skip(1), b) {
            None => None,
            Some(i) => Some(i + 1),
        }
    }
}

/// The first position of `b` is the first place `b` occurs.
proof fn lemma_first_byte_at(s: Seq<u8>, b: u8, i: int)
    requires
        0 <= i <= s.len(),
        forall|j: int| 0 <= j < i ==> s[j] != b,
    ensures
        i < s.len() && s[i] == b ==> first_byte(s, b) == Some(i),
        i == s.len() ==> first_byte(s, b) is None,
    decreases i,
{
    if i > 0 {
        assert(s[0] != b);
        assert forall|j: int| 0 <= j < i - 1 implies s.skip(1)[j] != b by {
            assert(s.skip(1)[j] == s[j + 1]);
        }
        lemma_first_byte_at(s.skip(1), b, i - 1);
    }
}

/// Whether the path's second `/`-delimited segment is exactly
/// "user-agent", that is, everything after the first slash reads so.
pub open spec fn is_user_agent_path(p: Seq<u8>) -> bool {
    match first_byte(p, 47) {
        Some(i) => p.skip(i + 1) == bytes_of("user-agent"@),
        None => false,
    }
}

/// The route a path selects.
#[derive(PartialEq, Eq, Structural, Clone, Copy, Debug)]
pub enum Route {
    Ping,
    Echo,
    Files,
    UserAgent,
    NoRoute,
}

/// The routing rules, evaluated in fixed order, first match winning.
pub open spec fn route_of(p: Seq<u8>) -> Route {
    if p == bytes_of("/"@) {
        Route::Ping
    } else if starts_with_spec(p, bytes_of("/echo/"@)) {
        Route::Echo
    } else if starts_with_spec(p, bytes_of("/files/"@)) {
        Route::Files
    } else if is_user_agent_path(p) {
        Route::UserAgent
    } else {
        Route::NoRoute
    }
}

/// Selects the route for a request path.
pub fn route(path: &[u8]) -> (r: Route)
    ensures
        r == route_of(path@),
{
    proof {
        reveal_strlit("/");
        reveal_strlit("/echo/");
        reveal_strlit("/files/");
        reveal_strlit("user-agent");
    }
    let l = path.len();
    if bytes_eq(path, str_bytes("/")) {
        Route::Ping
    } else if starts_with(path, str_bytes("/echo/")) {
        Route::Echo
    } else if starts_with(path, str_bytes("/files/")) {
        Route::Files
    } else {
        match find_from(path, 0, 47) {
            Some(i) => {
                proof {
                    lemma_first_byte_at(path@, 47, i as int);
                }
                let tail = slice_subrange(path, i + 1, l);
                proof {
                    assert(tail@ =~= path@.skip(i + 1));
                }
                if bytes_eq(tail, str_bytes("user-agent")) {
                    Route::UserAgent
                } else {
                    Route::NoRoute
                }
            },
            None => {
                proof {
                    lemma_first_byte_at(path@, 47, path@.len() as int);
                }
                Route::NoRoute
            },
        }
    }
}

} // verus!
