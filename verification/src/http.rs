use vstd::prelude::*;
use vstd::string::{StrSliceExecFns, StringExecFns};

use crate::text::str_eq;

verus! {

/// The handlers a route table entry can point at.
#[derive(Clone, Copy, Debug, PartialEq, Eq, Structural)]
pub enum HttpHandler {
    HomePage,
}

/// One entry of the route table: an HTTP method, an exact path, a handler.
/// The table is built once at startup and never mutated.
pub struct Route {
    pub method: String,
    pub path: String,
    pub handler: HttpHandler,
}

/// An outbound HTTP response.
pub struct HttpResponse {
    pub status: u16,
    pub content_type: String,
    pub body: String,
}

/// The fixed HTML document served on the root path.
pub open spec fn home_page_chars() -> Seq<char> {
    "<h1>Hello, World!</h1>"@
}

/// The body of the plain not-found response.
pub open spec fn not_found_chars() -> Seq<char> {
    "not found"@
}

/// The path part of a request target: everything before the first '?'.
pub open spec fn spec_path_of(target: Seq<char>) -> Seq<char>
    decreases target.len(),
{
    if target.len() == 0 {
        target
    } else if target[0] == '?' {
        Seq::empty()
    } else {
        seq![target[0]] + spec_path_of(target.drop_first())
    }
}

/// The handler an exact (method, path) match finds, walking the table front
/// to back; unknown pairs find none.
pub open spec fn spec_route_match(routes: Seq<Route>, method: Seq<char>, path: Seq<char>) -> Option<
    HttpHandler,
>
    decreases routes.len(),
{
    if routes.len() == 0 {
        None
    } else if routes[0].method@ == method && routes[0].path@ == path {
        Some(routes[0].handler)
    } else {
        spec_route_match(routes.drop_first(), method, path)
    }
}

/// The path part is the target up to its first '?': taking at the first '?',
/// or the whole target when it has none, is what `spec_path_of` returns.
pub proof fn lemma_path_of_take(target: Seq<char>, i: int)
    requires
        0 <= i <= target.len(),
        forall|j: int| 0 <= j < i ==> target[j] != '?',
        i == target.len() || target[i] == '?',
    ensures
        spec_path_of(target) == target.take(i),
    decreases target.len(),
{
    if target.len() == 0 {
        assert(target.take(i) =~= target);
    } else if target[0] == '?' {
        assert(i == 0);
        assert(target.take(0) =~= Seq::<char>::empty());
    } else {
        lemma_path_of_take(target.drop_first(), i - 1);
        assert(seq![target[0]] + target.drop_first().take(i - 1) =~= target.take(i));
    }
}

/// The query string never changes the matched path: for a path free of '?',
/// the path part of `path + "?" + query` is the path itself, whatever the
/// query holds.
pub proof fn lemma_query_ignored(path: Seq<char>, query: Seq<char>)
    requires
        forall|j: int| 0 <= j < path.len() ==> path[j] != '?',
    ensures
        spec_path_of(path + seq!['?'] + query) == path,
{
    let t = path + seq!['?'] + query;
    lemma_path_of_take(t, path.len() as int);
    assert(t.take(path.len() as int) =~= path);
}

/// Computes the path part of a request target.
pub fn path_of<'a>(target: &'a str) -> (r: &'a str)
    ensures
        r@ == spec_path_of(target@),
{
    let n = target.unicode_len();
    let mut i: usize = 0;
    while i < n
        invariant
            n == target@.len(),
            i <= n,
            forall|j: int| 0 <= j < i ==> target@[j] != '?',
        decreases n - i,
    {
        if target.get_char(i) == '?' {
            let p = target.substring_char(0, i);
            proof {
                lemma_path_of_take(target@, i as int);
                assert(p@ =~= target@.take(i as int));
            }
            return p;
        }
        i = i + 1;
    }
    proof {
        lemma_path_of_take(target@, n as int);
        assert(target@.take(n as int) =~= target@);
    }
    target
}

/// A static table mapping (method, path) pairs to handlers.
pub struct Router {
    pub routes: Vec<Route>,
}

/// What the HTTP surface owes for a (method, target) pair: the matched
/// handler's exact response, or the plain not-found response for an
/// unmatched pair.
pub open spec fn http_response_ok(
    routes: Seq<Route>,
    method: Seq<char>,
    target: Seq<char>,
    r: HttpResponse,
) -> bool {
    match spec_route_match(routes, method, spec_path_of(target)) {
        Some(HttpHandler::HomePage) => r.status == 200 && r.content_type@ == "text/html"@
            && r.body@ == home_page_chars(),
        None => r.status == 404 && r.content_type@ == "text/plain"@ && r.body@
            == not_found_chars(),
    }
}

impl Router {
    /// Looks an exact (method, path) pair up in the table.
    pub fn route(&self, method: &str, path: &str) -> (r: Option<HttpHandler>)
        ensures
            r == spec_route_match(self.routes@, method@, path@),
    {
        let mut i: usize = 0;
        proof {
            assert(self.routes@.skip(0) =~= self.routes@);
        }
        while i < self.routes.len()
            invariant
                i <= self.routes@.len(),
                spec_route_match(self.routes@, method@, path@) == spec_route_match(
                    self.routes@.skip(i as int),
                    method@,
                    path@,
                ),
            decreases self.routes@.len() - i,
        {
            let rt = &self.routes[i];
            proof {
                assert(self.routes@.skip(i as int)[0] == self.routes@[i as int]);
            }
            if str_eq(rt.method.as_str(), method) && str_eq(rt.path.as_str(), path) {
                return Some(rt.handler);
            }
            proof {
                assert(self.routes@.skip(i as int).drop_first() =~= self.routes@.skip(i + 1));
            }
            i = i + 1;
        }
        proof {
            assert(self.routes@.skip(i as int) =~= Seq::<Route>::empty());
        }
        None
    }

    /// Serves one request: the matched handler's response for a known
    /// (method, path-part-of-target) pair, and the plain not-found response
    /// for every other pair — never anything else.
    pub fn handle(&self, method: &str, target: &str) -> (r: HttpResponse)
        ensures
            http_response_ok(self.routes@, method@, target@, r),
    {
        let path = path_of(target);
        match self.route(method, path) {
            Some(HttpHandler::HomePage) => HttpResponse {
                status: 200,
                content_type: "text/html".to_owned(),
                body: home_page(),
            },
            None => HttpResponse {
                status: 404,
                content_type: "text/plain".to_owned(),
                body: "not found".to_owned(),
            },
        }
    }
}

/// Renders the fixed HTML document of the root path.
pub fn home_page() -> (r: String)
    ensures
        r@ == home_page_chars(),
{
    "<h1>Hello, World!</h1>".to_owned()
}

/// The route table of this server: exactly one entry, GET of the root path.
pub fn default_router() -> (r: Router)
    ensures
        r.routes@.len() == 1,
        r.routes@[0].method@ == "GET"@,
        r.routes@[0].path@ == "/"@,
        r.routes@[0].handler == HttpHandler::HomePage,
{
    let mut routes: Vec<Route> = Vec::new();
    routes.push(
        Route { method: "GET".to_owned(), path: "/".to_owned(), handler: HttpHandler::HomePage },
    );
    Router { routes }
}

/// On the default table, a GET whose path part is the root always reaches the
/// home page handler.
pub proof fn lemma_get_root_reaches_home(routes: Seq<Route>, method: Seq<char>, path: Seq<char>)
    requires
        routes.len() == 1,
        routes[0].method@ == "GET"@,
        routes[0].path@ == "/"@,
        routes[0].handler == HttpHandler::HomePage,
        method == "GET"@,
        path == "/"@,
    ensures
        spec_route_match(routes, method, path) == Some(HttpHandler::HomePage),
{
}

/// On the default table, every pair other than GET of the root finds no
/// handler, so it is answered by the not-found response and nothing else.
pub proof fn lemma_unmatched_pair_has_no_handler(
    routes: Seq<Route>,
    method: Seq<char>,
    path: Seq<char>,
)
    requires
        routes.len() == 1,
        routes[0].method@ == "GET"@,
        routes[0].path@ == "/"@,
        !(method == "GET"@ && path == "/"@),
    ensures
        spec_route_match(routes, method, path) is None,
{
    assert(routes.drop_first().len() == 0);
    assert(spec_route_match(routes.drop_first(), method, path) is None);
}

} // verus!
