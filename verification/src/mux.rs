use vstd::prelude::*;
use vstd::slice::{slice_index_get, slice_subrange, slice_to_vec};
use vstd::utf8::{decode_utf8, valid_utf8};

use crate::codec::DecodeError;
use crate::http::{
    default_router, home_page_chars, http_response_ok, lemma_get_root_reaches_home,
    lemma_unmatched_pair_has_no_handler, not_found_chars, spec_path_of, HttpHandler, HttpResponse,
    Route, Router,
};
use crate::reflect::{greeter_service, is_standard_services, reflection_service};
use crate::rpc::{spec_handle_frame, RpcOutcome, RpcServer};
use crate::text::string_from_utf8;

verus! {

broadcast use vstd::slice::group_slice_axioms;

/// The protocol of an inbound unit of data, told apart on its first bytes,
/// before any protocol-specific parsing commits resources.
#[derive(Clone, Copy, Debug, PartialEq, Eq, Structural)]
pub enum Protocol {
    Rpc,
    Http,
}

/// The four bytes an RPC connection opens with: the letters "RPC" and a zero
/// byte — no HTTP request line can start with them, since its method is
/// letters up to the first space.
pub open spec fn spec_rpc_preface() -> Seq<u8> {
    seq![0x52u8, 0x50u8, 0x43u8, 0x00u8]
}

/// Whether inbound data opens with the RPC preface; everything else is HTTP.
pub open spec fn spec_is_rpc(data: Seq<u8>) -> bool {
    data.len() >= 4 && data.subrange(0, 4) == spec_rpc_preface()
}

/// Renders the RPC preface, for a client or listener to prepend or strip.
pub fn rpc_preface() -> (r: Vec<u8>)
    ensures
        r@ == spec_rpc_preface(),
{
    let mut out: Vec<u8> = Vec::new();
    out.push(0x52u8);
    out.push(0x50u8);
    out.push(0x43u8);
    out.push(0x00u8);
    proof {
        assert(out@ =~= spec_rpc_preface());
    }
    out
}

/// Classifies one inbound unit by its first bytes alone.
pub fn classify(data: &[u8]) -> (r: Protocol)
    ensures
        (r == Protocol::Rpc) == spec_is_rpc(data@),
        (r == Protocol::Http) == !spec_is_rpc(data@),
{
    if data.len() >= 4 {
        let b0 = *slice_index_get(data, 0);
        let b1 = *slice_index_get(data, 1);
        let b2 = *slice_index_get(data, 2);
        let b3 = *slice_index_get(data, 3);
        if b0 == 0x52 && b1 == 0x50 && b2 == 0x43 && b3 == 0x00 {
            proof {
                assert(data@.subrange(0, 4) =~= spec_rpc_preface());
            }
            return Protocol::Rpc;
        }
        proof {
            if data@.subrange(0, 4) == spec_rpc_preface() {
                assert(data@[0] == 0x52u8 && data@[1] == 0x50u8 && data@[2] == 0x43u8 && data@[3]
                    == 0x00u8) by {
                    assert(data@.subrange(0, 4)[0] == data@[0]);
                    assert(data@.subrange(0, 4)[1] == data@[1]);
                    assert(data@.subrange(0, 4)[2] == data@[2]);
                    assert(data@.subrange(0, 4)[3] == data@[3]);
                }
            }
        }
    }
    Protocol::Http
}

/// The bytes before the first space, and those after it; nothing when the
/// data holds no space at all.
pub open spec fn spec_split_space(data: Seq<u8>) -> Option<(Seq<u8>, Seq<u8>)>
    decreases data.len(),
{
    if data.len() == 0 {
        None
    } else if data[0] == 0x20u8 {
        Some((Seq::empty(), data.drop_first()))
    } else {
        match spec_split_space(data.drop_first()) {
            None => None,
            Some(p) => Some((seq![data[0]] + p.0, p.1)),
        }
    }
}

/// What parsing an HTTP request line yields: the method and the target, the
/// two fields before the first two spaces, both UTF-8 text.
pub open spec fn spec_parse_request_line(data: Seq<u8>) -> Result<
    (Seq<char>, Seq<char>),
    DecodeError,
> {
    match spec_split_space(data) {
        None => Err(DecodeError::Truncated),
        Some((m, rest)) => match spec_split_space(rest) {
            None => Err(DecodeError::Truncated),
            Some((t, _)) => if valid_utf8(m) && valid_utf8(t) {
                Ok((decode_utf8(m), decode_utf8(t)))
            } else {
                Err(DecodeError::InvalidText)
            },
        },
    }
}

/// Splitting at the first space: when `i` is the first space of `data`, the
/// split yields the bytes before `i` and those after it.
proof fn lemma_split_space_at(data: Seq<u8>, i: int)
    requires
        0 <= i < data.len(),
        data[i] == 0x20u8,
        forall|j: int| 0 <= j < i ==> data[j] != 0x20u8,
    ensures
        spec_split_space(data) == Some((data.take(i), data.skip(i + 1))),
    decreases data.len(),
{
    if i == 0 {
        assert(data.take(0) =~= Seq::<u8>::empty());
        assert(data.skip(1) =~= data.drop_first());
    } else {
        lemma_split_space_at(data.drop_first(), i - 1);
        assert(seq![data[0]] + data.drop_first().take(i - 1) =~= data.take(i));
        assert(data.drop_first().skip(i) =~= data.skip(i + 1));
    }
}

/// A stretch of data without any space does not split.
proof fn lemma_split_space_none(data: Seq<u8>)
    requires
        forall|j: int| 0 <= j < data.len() ==> data[j] != 0x20u8,
    ensures
        spec_split_space(data) is None,
    decreases data.len(),
{
    if data.len() > 0 {
        lemma_split_space_none(data.drop_first());
    }
}

/// Finds the first space at or after `from`.
fn find_space(data: &[u8], from: usize) -> (r: Option<usize>)
    requires
        from <= data@.len(),
    ensures
        r matches Some(i) ==> from <= i < data@.len() && data@[i as int] == 0x20u8 && forall|j: int|
            from <= j < i ==> data@[j] != 0x20u8,
        r is None ==> forall|j: int| from <= j < data@.len() ==> data@[j] != 0x20u8,
{
    let mut i: usize = from;
    while i < data.len()
        invariant
            from <= i <= data@.len(),
            forall|j: int| from <= j < i ==> data@[j] != 0x20u8,
        decreases data@.len() - i,
    {
        if *slice_index_get(data, i) == 0x20 {
            return Some(i);
        }
        i = i + 1;
    }
    None
}

/// Parses an HTTP request line into its method and target.
pub fn parse_request_line(data: &[u8]) -> (r: Result<(String, String), DecodeError>)
    ensures
        r matches Ok(mt) ==> spec_parse_request_line(data@) == Ok::<_, DecodeError>(
            (mt.0@, mt.1@),
        ),
        r matches Err(e) ==> spec_parse_request_line(data@) == Err::<(Seq<char>, Seq<char>), _>(e),
{
    let i = match find_space(data, 0) {
        None => {
            proof {
                lemma_split_space_none(data@);
            }
            return Err(DecodeError::Truncated);
        },
        Some(i) => i,
    };
    proof {
        lemma_split_space_at(data@, i as int);
    }
    let n = data.len();
    proof {
        assert(i + 1 <= n);
    }
    let j = match find_space(data, i + 1) {
        None => {
            proof {
                lemma_split_space_none(data@.skip(i + 1));
            }
            return Err(DecodeError::Truncated);
        },
        Some(j) => j,
    };
    proof {
        lemma_split_space_at(data@.skip(i + 1), j - (i + 1));
        assert(data@.skip(i + 1).take(j - (i + 1)) =~= data@.subrange(i + 1, j as int));
        assert(data@.take(i as int) =~= data@.subrange(0, i as int));
    }
    let method_bytes = slice_to_vec(slice_subrange(data, 0, i));
    let target_bytes = slice_to_vec(slice_subrange(data, i + 1, j));
    let method = match string_from_utf8(method_bytes) {
        None => {
            return Err(DecodeError::InvalidText);
        },
        Some(s) => s,
    };
    let target = match string_from_utf8(target_bytes) {
        None => {
            return Err(DecodeError::InvalidText);
        },
        Some(s) => s,
    };
    Ok((method, target))
}

/// The composed server: one RPC surface and one HTTP surface behind a single
/// inbound entry point, with no state shared across requests.
pub struct ComposedServer {
    pub rpc: RpcServer,
    pub http: Router,
}

/// What one classified inbound unit produced.
pub enum Outcome {
    /// The data opened with the RPC preface: the RPC outcome.
    Rpc(RpcOutcome),
    /// Anything else is HTTP: the response, a 400 one when the request line
    /// cannot be read.
    Http(HttpResponse),
}

impl ComposedServer {
    /// Classifies one inbound unit and routes it whole: data opening with the
    /// RPC preface reaches only the RPC server, everything else reaches only
    /// the HTTP router — an unmatched HTTP request is answered by the router's
    /// not-found response and can never fall through to the RPC side.
    pub fn handle_inbound(&self, data: &[u8]) -> (r: Outcome)
        requires
            self.rpc.wf(),
        ensures
            spec_is_rpc(data@) ==> (r matches Outcome::Rpc(o) && o@ == spec_handle_frame(
                self.rpc.services@,
                data@.skip(4),
            )),
            !spec_is_rpc(data@) ==> (r matches Outcome::Http(resp) && (
            match spec_parse_request_line(data@) {
                Ok((m, t)) => http_response_ok(self.http.routes@, m, t, resp),
                Err(_) => resp.status == 400 && resp.content_type@ == "text/plain"@ && resp.body@
                    == "bad request"@,
            })),
    {
        match classify(data) {
            Protocol::Rpc => {
                let frame = slice_subrange(data, 4, data.len());
                proof {
                    assert(data@.subrange(4, data@.len() as int) =~= data@.skip(4));
                }
                Outcome::Rpc(self.rpc.handle_frame(frame))
            },
            Protocol::Http => {
                match parse_request_line(data) {
                    Result::Ok(mt) => Outcome::Http(
                        self.http.handle(mt.0.as_str(), mt.1.as_str()),
                    ),
                    Result::Err(_) => Outcome::Http(
                        HttpResponse {
                            status: 400,
                            content_type: "text/plain".to_owned(),
                            body: "bad request".to_owned(),
                        },
                    ),
                }
            },
        }
    }
}

/// A GET whose target's path part is the root is always served the fixed
/// page with status 200 on the default route table, whatever query string or
/// further request data follows.
pub proof fn lemma_root_get_served(
    routes: Seq<Route>,
    method: Seq<char>,
    target: Seq<char>,
    resp: HttpResponse,
)
    requires
        routes.len() == 1,
        routes[0].method@ == "GET"@,
        routes[0].path@ == "/"@,
        routes[0].handler == HttpHandler::HomePage,
        method == "GET"@,
        spec_path_of(target) == "/"@,
        http_response_ok(routes, method, target, resp),
    ensures
        resp.status == 200,
        resp.body@ == home_page_chars(),
{
    lemma_get_root_reaches_home(routes, method, spec_path_of(target));
}

/// Every other (method, path) pair is answered by the router's not-found
/// response — it never reaches any handler, the RPC side included.
pub proof fn lemma_unmatched_request_not_found(
    routes: Seq<Route>,
    method: Seq<char>,
    target: Seq<char>,
    resp: HttpResponse,
)
    requires
        routes.len() == 1,
        routes[0].method@ == "GET"@,
        routes[0].path@ == "/"@,
        !(method == "GET"@ && spec_path_of(target) == "/"@),
        http_response_ok(routes, method, target, resp),
    ensures
        resp.status == 404,
        resp.body@ == not_found_chars(),
{
    lemma_unmatched_pair_has_no_handler(routes, method, spec_path_of(target));
}

/// Builds the server this process runs: the greeting service registered, the
/// reflection pseudo-service beside it when asked for, and the route table
/// with the one root entry.
pub fn new_server(reflection: bool) -> (r: ComposedServer)
    ensures
        r.rpc.wf(),
        is_standard_services(r.rpc.services@, reflection),
        r.http.routes@.len() == 1,
        r.http.routes@[0].method@ == "GET"@,
        r.http.routes@[0].path@ == "/"@,
        r.http.routes@[0].handler == HttpHandler::HomePage,
{
    let mut rpc = RpcServer::new();
    rpc.register(greeter_service());
    if reflection {
        rpc.register(reflection_service());
    }
    ComposedServer { rpc, http: default_router() }
}

} // verus!
