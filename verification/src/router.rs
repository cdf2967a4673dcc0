//! The route table and the per-connection dispatch logic.
//!
//! A route maps an exact `(Method, path)` key to a handler; registering the
//! same key again overwrites the handler, so the table never holds two
//! handlers for one key.  Dispatching a connection's buffer decodes it,
//! looks the request up, invokes the matching handler (or falls back to the
//! fixed 404 response), and encodes the result; a buffer that fails to
//! decode yields the decode error and no response text.

use vstd::prelude::*;
use crate::request::{Request, Method, DecodeError, ReqModel, spec_decode_text, lossy_of};
use crate::response::{Response, RespModel, spec_render};
use crate::strutil::str_eq;

verus! {

/// A handler capability: anything that turns a request into a response.
/// The server's user supplies implementations; nothing is assumed about
/// what they return.
pub trait Handler {
    /// Computes the response for a request.
    fn handle(&self, req: &Request) -> Response;
}

/// The entries of a route table: method, path, handler.
pub type Routes<H> = Seq<(Method, Seq<char>, H)>;

/// Index of the first route with key `(m, p)` at or after position `i`, if
/// any.
pub open spec fn find_route_from<H>(rs: Routes<H>, m: Method, p: Seq<char>, i: int) -> Option<int>
    decreases rs.len() - i,
    when 0 <= i
{
    if i >= rs.len() {
        None
    } else if rs[i].0 == m && rs[i].1 == p {
        Some(i)
    } else {
        find_route_from(rs, m, p, i + 1)
    }
}

/// What `find_route_from` returns: the first position at or after `i`
/// keyed `(m, p)`, or `None` when no route from `i` on has that key.
pub proof fn lemma_find_route_from<H>(rs: Routes<H>, m: Method, p: Seq<char>, i: int)
    requires
        0 <= i,
    ensures
        match find_route_from(rs, m, p, i) {
            Some(j) => i <= j < rs.len() && rs[j].0 == m && rs[j].1 == p && forall|l: int|
                i <= l < j ==> !(rs[l].0 == m && rs[l].1 == p),
            None => forall|l: int| i <= l < rs.len() ==> !(rs[l].0 == m && rs[l].1 == p),
        },
    decreases rs.len() - i,
{
    if i < rs.len() && !(rs[i].0 == m && rs[i].1 == p) {
        lemma_find_route_from(rs, m, p, i + 1);
    }
}

/// Conversely, a position keyed `(m, p)` with no earlier occurrence at or
/// after `a` is what `find_route_from` returns.
pub proof fn lemma_find_route_first<H>(rs: Routes<H>, m: Method, p: Seq<char>, a: int, j: int)
    requires
        0 <= a <= j < rs.len(),
        rs[j].0 == m && rs[j].1 == p,
        forall|l: int| a <= l < j ==> !(rs[l].0 == m && rs[l].1 == p),
    ensures
        find_route_from(rs, m, p, a) == Some(j),
    decreases j - a,
{
    if a < j {
        lemma_find_route_first(rs, m, p, a + 1, j);
    }
}

/// The handler registered for `(m, p)`, if any.
pub open spec fn route_get<H>(rs: Routes<H>, m: Method, p: Seq<char>) -> Option<H> {
    match find_route_from(rs, m, p, 0) {
        None => None,
        Some(j) => if 0 <= j < rs.len() {
            Some(rs[j].2)
        } else {
            None
        },
    }
}

/// `rs` with `h` registered for `(m, p)`: the first route with that key is
/// overwritten in place, or a new route is appended when none exists.
pub open spec fn route_insert<H>(rs: Routes<H>, m: Method, p: Seq<char>, h: H) -> Routes<H> {
    match find_route_from(rs, m, p, 0) {
        None => rs.push((m, p, h)),
        Some(j) => if 0 <= j < rs.len() {
            rs.update(j, (m, p, h))
        } else {
            rs.push((m, p, h))
        },
    }
}

/// No two routes share a `(Method, path)` key.
pub open spec fn routes_wf<H>(rs: Routes<H>) -> bool {
    forall|i: int, j: int|
        0 <= i < j < rs.len() ==> !(rs[i].0 == rs[j].0 && rs[i].1 == rs[j].1)
}

/// After a registration, looking up the registered key yields the new
/// handler: the last registration for a key wins.
pub proof fn lemma_route_get_insert_same<H>(rs: Routes<H>, m: Method, p: Seq<char>, h: H)
    ensures
        route_get(route_insert(rs, m, p, h), m, p) == Some(h),
{
    lemma_find_route_from(rs, m, p, 0);
    let rs2 = route_insert(rs, m, p, h);
    match find_route_from(rs, m, p, 0) {
        None => {
            lemma_find_route_first(rs2, m, p, 0, rs.len() as int);
        },
        Some(j) => {
            lemma_find_route_first(rs2, m, p, 0, j);
        },
    }
}

/// A registration leaves every other key's handler unchanged.
pub proof fn lemma_route_get_insert_other<H>(
    rs: Routes<H>,
    m: Method,
    p: Seq<char>,
    h: H,
    m2: Method,
    p2: Seq<char>,
)
    requires
        !(m2 == m && p2 == p),
    ensures
        route_get(route_insert(rs, m, p, h), m2, p2) == route_get(rs, m2, p2),
{
    lemma_find_route_from(rs, m, p, 0);
    let rs2 = route_insert(rs, m, p, h);
    lemma_find_route_from(rs2, m2, p2, 0);
    lemma_find_route_from(rs, m2, p2, 0);
    match find_route_from(rs, m2, p2, 0) {
        None => {
            if find_route_from(rs2, m2, p2, 0) is Some {
                let j2 = find_route_from(rs2, m2, p2, 0)->0;
                assert(rs2[j2].0 == m2 && rs2[j2].1 == p2);
                assert(false);
            }
        },
        Some(j2) => {
            lemma_find_route_first(rs2, m2, p2, 0, j2);
        },
    }
}

/// Registering the same key twice keeps only the second handler: looking
/// the key up after both registrations yields the later one.
pub proof fn lemma_register_overwrite<H>(
    rs: Routes<H>,
    m: Method,
    p: Seq<char>,
    h: H,
    h2: H,
)
    ensures
        route_get(route_insert(route_insert(rs, m, p, h), m, p, h2), m, p) == Some(h2),
{
    lemma_route_get_insert_same(route_insert(rs, m, p, h), m, p, h2);
}

/// A registration preserves the absence of duplicate keys, so a table
/// built by registrations alone never holds two handlers for one key.
pub proof fn lemma_route_insert_wf<H>(rs: Routes<H>, m: Method, p: Seq<char>, h: H)
    requires
        routes_wf(rs),
    ensures
        routes_wf(route_insert(rs, m, p, h)),
{
    lemma_find_route_from(rs, m, p, 0);
}

/// A route table: an exact-match map from `(Method, path)` keys to
/// handlers, with no duplicate keys.
pub struct Router<H> {
    routes: Vec<(Method, String, H)>,
}

impl<H> View for Router<H> {
    type V = Routes<H>;

    closed spec fn view(&self) -> Routes<H> {
        Seq::new(self.routes@.len(), |i: int| (self.routes@[i].0, self.routes@[i].1@, self.routes@[i].2))
    }
}

impl<H> Router<H> {
    /// Creates an empty route table.
    pub fn new() -> (r: Router<H>)
        ensures
            r@ == Seq::<(Method, Seq<char>, H)>::empty(),
    {
        let r = Router { routes: Vec::new() };
        proof {
            assert(r@ =~= Seq::<(Method, Seq<char>, H)>::empty());
        }
        r
    }

    /// Position of the first route keyed `(method, path)`, if any.
    fn find_index(&self, method: &Method, path: &str) -> (r: Option<usize>)
        ensures
            match r {
                Some(j) => Some(j as int) == find_route_from(self@, *method, path@, 0),
                None => find_route_from(self@, *method, path@, 0) is None,
            },
    {
        let n = self.routes.len();
        let mut i: usize = 0;
        while i < n
            invariant
                i <= n,
                n == self@.len(),
                find_route_from(self@, *method, path@, 0) == find_route_from(
                    self@,
                    *method,
                    path@,
                    i as int,
                ),
            decreases n - i,
        {
            if self.routes[i].0 == *method && str_eq(self.routes[i].1.as_str(), path) {
                return Some(i);
            }
            i = i + 1;
        }
        None
    }

    /// Registers `handler` for the exact key `(method, path)`, overwriting
    /// any handler registered for it before.
    pub fn add_route(&mut self, method: Method, path: &str, handler: H)
        ensures
            final(self)@ == route_insert(old(self)@, method, path@, handler),
    {
        proof {
            lemma_find_route_from(self@, method, path@, 0);
        }
        match self.find_index(&method, path) {
            Some(i) => {
                self.routes.remove(i);
                self.routes.insert(i, (method, path.to_owned(), handler));
                proof {
                    assert(self@ =~= route_insert(old(self)@, method, path@, handler));
                }
            },
            None => {
                self.routes.push((method, path.to_owned(), handler));
                proof {
                    assert(self@ =~= route_insert(old(self)@, method, path@, handler));
                }
            },
        }
    }

    /// Looks up the handler registered for the exact key `(method, path)`;
    /// an unregistered key is a normal miss, not an error.
    pub fn lookup<'a>(&'a self, method: &Method, path: &str) -> (r: Option<&'a H>)
        ensures
            match r {
                Some(h) => route_get(self@, *method, path@) == Some(*h),
                None => route_get(self@, *method, path@) is None,
            },
    {
        proof {
            lemma_find_route_from(self@, *method, path@, 0);
        }
        match self.find_index(method, path) {
            Some(i) => Some(&self.routes[i].2),
            None => None,
        }
    }
}

impl<H: Handler> Router<H> {
    /// Handles one connection's buffer: decodes it, dispatches the request
    /// to the registered handler or to the fixed 404 response on a miss,
    /// and encodes the outcome.  A buffer that fails to decode yields the
    /// decode error, and the connection is to be closed without a
    /// response.
    pub fn dispatch_buffer(&self, buffer: &[u8]) -> (r: Result<String, DecodeError>)
        ensures
            ({
                let d = spec_decode_text(lossy_of(buffer@));
                match r {
                    Err(e) => d == Err::<ReqModel, DecodeError>(e),
                    Ok(text) => d is Ok && match route_get(self@, d->Ok_0.method, d->Ok_0.path) {
                        None => text@ == spec_render(
                            RespModel {
                                status: 404,
                                content: "404 - Not Found"@,
                                headers: seq![("Content-Type"@, "text/plain"@)],
                            },
                        ),
                        Some(_) => exists|resp: RespModel| text@ == spec_render(resp),
                    },
                }
            }),
    {
        let request = match Request::from_u8_buffer(buffer) {
            Ok(q) => q,
            Err(e) => {
                return Err(e);
            },
        };
        let method = request.get_method();
        let path = request.get_path();
        let response = match self.lookup(&method, path.as_str()) {
            Some(handler) => handler.handle(&request),
            None => Response::default_response(),
        };
        let text = response.build_http_response();
        proof {
            assert(text@ == spec_render(response@));
        }
        Ok(text)
    }
}

} // verus!
