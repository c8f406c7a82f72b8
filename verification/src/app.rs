//! The application assembly: parsed requests, registered endpoints, and
//! first-match route lookup over them.

use crate::parse_headers::{req_eq, RequestType};
use crate::string_map::StringMap;
use crate::text::str_eq;
use vstd::prelude::*;

verus! {

/// One parsed HTTP request, as a handler receives it.
pub struct Request {
    pub headers: StringMap,
    pub body: String,
    pub url_params: StringMap,
}

/// A registered route: a slash-trimmed path, a method, and the handler
/// value dispatched to when both match.
pub struct Endpoint<F> {
    pub path: String,
    pub request: RequestType,
    pub mapper: F,
}

/// An application: its routes, in registration order.
pub struct App<F> {
    pub endpoints: Vec<Endpoint<F>>,
}

/// Whether an endpoint serves the pair (path, method).
pub open spec fn endpoint_matches<F>(e: Endpoint<F>, path: Seq<char>, rt: RequestType) -> bool {
    e.path@ == path && req_eq(e.request, rt)
}

/// The index of the first endpoint serving (path, method), or the length
/// when none does: registration order decides and the earliest wins.
pub open spec fn match_index<F>(es: Seq<Endpoint<F>>, path: Seq<char>, rt: RequestType) -> int
    decreases es.len(),
{
    if es.len() == 0 {
        0
    } else if endpoint_matches(es[0], path, rt) {
        0
    } else {
        1 + match_index(es.drop_first(), path, rt)
    }
}

/// What [`match_index`] returns: a position in bounds, a serving endpoint
/// at it when short of the length, and none earlier.
pub proof fn lemma_match_index<F>(es: Seq<Endpoint<F>>, path: Seq<char>, rt: RequestType)
    ensures
        0 <= match_index(es, path, rt) <= es.len(),
        match_index(es, path, rt) < es.len() ==> endpoint_matches(
            es[match_index(es, path, rt)],
            path,
            rt,
        ),
        forall|k: int|
            0 <= k < match_index(es, path, rt) ==> !endpoint_matches(#[trigger] es[k], path, rt),
    decreases es.len(),
{
    if es.len() == 0 {
    } else if endpoint_matches(es[0], path, rt) {
    } else {
        lemma_match_index(es.drop_first(), path, rt);
        assert forall|k: int|
            0 <= k < match_index(es, path, rt) implies !endpoint_matches(
            #[trigger] es[k],
            path,
            rt,
        ) by {
            if k > 0 {
                assert(es.drop_first()[k - 1] == es[k]);
            }
        }
        if match_index(es, path, rt) < es.len() {
            assert(es.drop_first()[match_index(es, path, rt) - 1] == es[match_index(
                es,
                path,
                rt,
            )]);
        }
    }
}

/// Of two endpoints registered for the same path and method, the lookup
/// never reaches the later one: the earlier registration shadows it for
/// the lifetime of the table.
pub proof fn lemma_later_duplicate_shadowed<F>(es: Seq<Endpoint<F>>, i: int, j: int)
    requires
        0 <= i < j < es.len(),
        es[i].path@ == es[j].path@,
        req_eq(es[i].request, es[j].request),
    ensures
        match_index(es, es[j].path@, es[j].request) <= i,
        match_index(es, es[j].path@, es[j].request) != j,
{
    lemma_match_index(es, es[j].path@, es[j].request);
    assert(endpoint_matches(es[i], es[j].path@, es[j].request));
    if match_index(es, es[j].path@, es[j].request) > i {
        assert(!endpoint_matches(es[i], es[j].path@, es[j].request));
    }
}

impl<F> App<F> {
    /// An application with no routes yet.
    pub fn new() -> (r: App<F>)
        ensures
            r.endpoints@ == Seq::<Endpoint<F>>::empty(),
    {
        let r = App { endpoints: Vec::new() };
        proof {
            assert(r.endpoints@ =~= Seq::<Endpoint<F>>::empty());
        }
        r
    }

    /// Appends a route. Duplicate (path, method) pairs are legal; the
    /// earlier registration wins every lookup (see
    /// [`lemma_later_duplicate_shadowed`]).
    pub fn add_endpoint(&mut self, path: &str, request: RequestType, mapper: F)
        ensures
            final(self).endpoints@.len() == old(self).endpoints@.len() + 1,
            forall|i: int|
                0 <= i < old(self).endpoints@.len() ==> final(self).endpoints@[i] == old(
                    self,
                ).endpoints@[i],
            final(self).endpoints@.last().path@ == path@,
            final(self).endpoints@.last().request == request,
            final(self).endpoints@.last().mapper == mapper,
    {
        let endpoint = Endpoint { path: path.to_owned(), request, mapper };
        self.endpoints.push(endpoint);
    }

    /// First-match lookup by exact path and method equality, in
    /// registration order; with no serving endpoint the lookup reports
    /// the miss rather than failing.
    pub fn match_endpoint(&self, path: &str, request_type: RequestType) -> (r: Result<
        &Endpoint<F>,
        &'static str,
    >)
        ensures
            ({
                let mi = match_index(self.endpoints@, path@, request_type);
                match r {
                    Ok(e) => mi < self.endpoints@.len() && *e == self.endpoints@[mi],
                    Err(m) => mi == self.endpoints@.len() && m@
                        == "No matching endpoint found"@,
                }
            }),
    {
        proof {
            lemma_match_index(self.endpoints@, path@, request_type);
        }
        let ghost mi = match_index(self.endpoints@, path@, request_type);
        let n = self.endpoints.len();
        let mut i: usize = 0;
        while i < n
            invariant
                n == self.endpoints@.len(),
                0 <= i <= n,
                mi == match_index(self.endpoints@, path@, request_type),
                0 <= mi <= n,
                mi < n ==> endpoint_matches(self.endpoints@[mi], path@, request_type),
                forall|k: int|
                    0 <= k < mi ==> !endpoint_matches(
                        #[trigger] self.endpoints@[k],
                        path@,
                        request_type,
                    ),
                forall|k: int|
                    0 <= k < i ==> !endpoint_matches(
                        #[trigger] self.endpoints@[k],
                        path@,
                        request_type,
                    ),
            decreases n - i,
        {
            let e = &self.endpoints[i];
            if str_eq(e.path.as_str(), path) && e.request == request_type {
                proof {
                    assert(endpoint_matches(self.endpoints@[i as int], path@, request_type));
                }
                return Ok(e);
            }
            i += 1;
        }
        Err("No matching endpoint found")
    }
}

} // verus!
