//! The route table: one trie per method, the handlers by method and pattern,
//! and an optional handler for the root path.

use vstd::prelude::*;
use crate::fields::with_entry;
use crate::request::RequestMethod;
pub use crate::route_matcher::RouteError;
use crate::route_matcher::{
    has_key, is_first_param, key_place, nodes_after, normalize, normalized, param_place,
    resolve_in, segments_of, strip_colons, url_of, wf_nodes, Node, PathParams,
};
use crate::text::{text_eq, trim_of};

verus! {

/// A registered handler with the method and the normalized pattern it serves.
pub struct Route<H> {
    /// The method that the route serves.
    pub method: RequestMethod,
    /// The pattern, trimmed and lowercased, as the trie stamps it.
    pub pattern: String,
    /// The handler.
    pub handler: H,
}

/// Whether `i` is the place of the first route for `method` and `pattern`.
pub open spec fn is_first_route<H>(
    routes: Seq<Route<H>>,
    method: RequestMethod,
    pattern: Seq<char>,
    i: int,
) -> bool {
    &&& 0 <= i < routes.len()
    &&& routes[i].method == method
    &&& routes[i].pattern@ == pattern
    &&& forall|j: int|
        0 <= j < i ==> !((#[trigger] routes[j]).method == method && routes[j].pattern@ == pattern)
}

/// The handler registered for `method` and `pattern`, if there is one.
pub open spec fn handler_of<H>(
    routes: Seq<Route<H>>,
    method: RequestMethod,
    pattern: Seq<char>,
) -> Option<H> {
    if exists|i: int| is_first_route(routes, method, pattern, i) {
        Some(routes[choose|i: int| is_first_route(routes, method, pattern, i)].handler)
    } else {
        None
    }
}

/// Whether a route for `method` and `pattern` is registered.
pub open spec fn has_route<H>(routes: Seq<Route<H>>, method: RequestMethod, pattern: Seq<char>) -> bool {
    exists|i: int|
        0 <= i < routes.len() && (#[trigger] routes[i]).method == method && routes[i].pattern@
            == pattern
}

/// Whether every pattern stamped on `nodes` and below them is that of a
/// route for `method`.
pub open spec fn stamps_registered<H>(
    nodes: Seq<Node>,
    routes: Seq<Route<H>>,
    method: RequestMethod,
) -> bool
    decreases nodes,
{
    forall|i: int|
        0 <= i < nodes.len() ==> {
            &&& (#[trigger] nodes[i]).url matches Some(u) ==> has_route(routes, method, u@)
            &&& stamps_registered(nodes[i].children@, routes, method)
        }
}

/// A registered route has a first place in the table.
pub proof fn lemma_first_route_exists<H>(
    routes: Seq<Route<H>>,
    method: RequestMethod,
    pattern: Seq<char>,
    k: int,
)
    requires
        0 <= k < routes.len(),
        routes[k].method == method,
        routes[k].pattern@ == pattern,
    ensures
        handler_of(routes, method, pattern) is Some,
    decreases k,
{
    if exists|j: int|
        0 <= j < k && (#[trigger] routes[j]).method == method && routes[j].pattern@ == pattern {
        let j = choose|j: int|
            0 <= j < k && (#[trigger] routes[j]).method == method && routes[j].pattern@
                == pattern;
        lemma_first_route_exists(routes, method, pattern, j);
    } else {
        assert(is_first_route(routes, method, pattern, k));
    }
}

/// A table with one more route at its end still holds every route that it
/// held.
pub proof fn lemma_stamps_stay_registered<H>(
    nodes: Seq<Node>,
    routes: Seq<Route<H>>,
    more: Seq<Route<H>>,
    method: RequestMethod,
)
    requires
        stamps_registered(nodes, routes, method),
        more.len() == routes.len() + 1,
        more.drop_last() == routes,
    ensures
        stamps_registered(nodes, more, method),
    decreases nodes,
{
    assert forall|i: int| 0 <= i < nodes.len() implies {
        &&& (#[trigger] nodes[i]).url matches Some(u) ==> has_route(more, method, u@)
        &&& stamps_registered(nodes[i].children@, more, method)
    } by {
        lemma_stamps_stay_registered(nodes[i].children@, routes, more, method);
        if let Some(u) = nodes[i].url {
            let k = choose|k: int|
                0 <= k < routes.len() && (#[trigger] routes[k]).method == method
                    && routes[k].pattern@ == u@;
            assert(more.drop_last()[k] == more[k]);
        }
    }
}

/// Registering a pattern together with its route keeps every stamp
/// registered.
pub proof fn lemma_registration_keeps_stamps<H>(
    before: Seq<Node>,
    after: Seq<Node>,
    segs: Seq<Seq<char>>,
    url: Seq<char>,
    routes: Seq<Route<H>>,
    more: Seq<Route<H>>,
    method: RequestMethod,
)
    requires
        stamps_registered(before, routes, method),
        nodes_after(before, after, segs, url),
        more.len() == routes.len() + 1,
        more.drop_last() == routes,
        more.last().method == method,
        more.last().pattern@ == url,
    ensures
        stamps_registered(after, more, method),
    decreases segs.len(),
{
    lemma_stamps_stay_registered(before, routes, more, method);
    if segs.len() > 0 {
        let key = trim_of(segs[0]);
        let i = if has_key(before, key) {
            key_place(before, key)
        } else {
            before.len() as int
        };
        let stop = segs.len() == 1 || segs[1] == seq!['*'];
        let below = if has_key(before, key) {
            before[i].children@
        } else {
            Seq::<Node>::empty()
        };
        let rest = if stop {
            Seq::<Seq<char>>::empty()
        } else {
            segs.drop_first()
        };
        assert(nodes_after(below, after[i].children@, rest, url));
        assert(stamps_registered(below, routes, method)) by {
            if has_key(before, key) {
                assert(stamps_registered(before[i].children@, routes, method));
            }
        }
        lemma_registration_keeps_stamps(below, after[i].children@, rest, url, routes, more, method);
        assert(has_route(more, method, url)) by {
            assert(more[more.len() - 1].pattern@ == url);
        }
        assert forall|j: int| 0 <= j < after.len() implies {
            &&& (#[trigger] after[j]).url matches Some(u) ==> has_route(more, method, u@)
            &&& stamps_registered(after[j].children@, more, method)
        } by {
            if j != i {
                assert(after[j] == before[j]);
            } else if let Some(u) = after[i].url {
                if !stop {
                    assert(url_of(after[i]) == Some(u@));
                    assert(has_key(before, key));
                    assert(before[i].url is Some);
                }
            }
        }
    }
}

/// What resolves among nodes whose stamps are registered is the pattern of
/// a registered route.
pub proof fn lemma_resolved_is_registered<H>(
    nodes: Seq<Node>,
    segs: Seq<Seq<char>>,
    params: Seq<(Seq<char>, Seq<char>)>,
    routes: Seq<Route<H>>,
    method: RequestMethod,
)
    requires
        wf_nodes(nodes),
        stamps_registered(nodes, routes, method),
        resolve_in(nodes, segs, params) is Some,
    ensures
        has_route(routes, method, resolve_in(nodes, segs, params).unwrap().0),
    decreases segs.len(),
{
    let key = trim_of(segs[0]);
    let rest = segs.drop_first();
    if has_key(nodes, key) {
        let n = nodes[key_place(nodes, key)];
        if !((n.is_terminal && rest.len() == 0) || n.is_wildcard) {
            lemma_resolved_is_registered(n.children@, rest, params, routes, method);
        }
    } else {
        let a = param_place(nodes);
        assert(is_first_param(nodes, a));
        let n = nodes[a];
        if !(n.is_terminal && rest.len() == 0) {
            lemma_resolved_is_registered(
                n.children@,
                rest,
                with_entry(params, strip_colons(n.value@), segs[0]),
                routes,
                method,
            );
        }
    }
}

/// The route table.
pub struct Router<H> {
    tries: Vec<Node>,
    routes: Vec<Route<H>>,
    index_handler: Option<H>,
}

impl<H> Router<H> {
    /// The invariant: one well-formed trie for each of the seven methods,
    /// and a route for every pattern that a trie is stamped with.
    pub closed spec fn wf(&self) -> bool {
        &&& self.tries@.len() == 7
        &&& forall|i: int| 0 <= i < 7 ==> (#[trigger] self.tries@[i]).wf()
        &&& forall|m: RequestMethod|
            stamps_registered((#[trigger] self.tries@[m.slot_of()]).children@, self.routes@, m)
    }

    /// Every pattern that a trie resolves a path to has its handler.
    pub proof fn lemma_match_has_handler(&self, method: RequestMethod, path: Seq<char>)
        requires
            self.wf(),
            self.trie(method).match_of(path) is Some,
        ensures
            handler_of(self.routes(), method, self.trie(method).match_of(path).unwrap().0) is Some,
    {
        let nodes = self.tries@[method.slot_of()].children@;
        lemma_resolved_is_registered(nodes, segments_of(path), Seq::empty(), self.routes@, method);
        let pattern = self.trie(method).match_of(path).unwrap().0;
        let k = choose|k: int|
            0 <= k < self.routes@.len() && (#[trigger] self.routes@[k]).method == method
                && self.routes@[k].pattern@ == pattern;
        lemma_first_route_exists(self.routes@, method, pattern, k);
    }

    /// The trie of a method.
    pub closed spec fn trie(&self, method: RequestMethod) -> Node {
        self.tries@[method.slot_of()]
    }

    /// The registered routes, in the order of registration.
    pub closed spec fn routes(&self) -> Seq<Route<H>> {
        self.routes@
    }

    /// The handler bound to the root path, if one was set.
    pub closed spec fn index_handler(&self) -> Option<H> {
        self.index_handler
    }

    /// What a request resolves to: the index handler for the path `/` where
    /// one is set; else the handler of the pattern that the method's trie
    /// gives for the path, with the parameters of the walk.
    pub open spec fn lookup(&self, method: RequestMethod, url: Seq<char>) -> Option<
        (H, Seq<(Seq<char>, Seq<char>)>),
    > {
        if url == "/"@ && self.index_handler() is Some {
            Some((self.index_handler()->0, Seq::empty()))
        } else {
            match self.trie(method).match_of(normalized(url)) {
                Some((pattern, params)) => match handler_of(self.routes(), method, pattern) {
                    Some(h) => Some((h, params)),
                    None => None,
                },
                None => None,
            }
        }
    }

    /// An empty table.
    pub fn new() -> (r: Router<H>)
        ensures
            r.wf(),
            r.routes().len() == 0,
            r.index_handler() is None,
            forall|m: RequestMethod| (#[trigger] r.trie(m)).children@.len() == 0,
    {
        let mut tries: Vec<Node> = Vec::new();
        while tries.len() < 7
            invariant
                tries@.len() <= 7,
                forall|i: int|
                    0 <= i < tries@.len() ==> (#[trigger] tries@[i]).wf() && tries@[i].children@.len()
                        == 0,
            decreases 7 - tries@.len(),
        {
            tries.push(Node::new());
        }
        Router { tries, routes: Vec::new(), index_handler: None }
    }

    /// Binds a handler to the root path `/`, whatever the method.
    pub fn index(&mut self, handler: H)
        requires
            old(self).wf(),
        ensures
            final(self).wf(),
            final(self).index_handler() == Some(handler),
            final(self).routes() == old(self).routes(),
            forall|m: RequestMethod| #[trigger] final(self).trie(m) == old(self).trie(m),
    {
        self.index_handler = Some(handler);
    }

    /// Registers a handler for a method and a pattern. A pattern that the
    /// method's trie already resolves is refused, and the table stays as it
    /// was; else the pattern enters the trie and the handler the table, under
    /// the normalized pattern.
    pub fn route(&mut self, method: RequestMethod, url_pattern: &str, handler: H) -> (r: Result<
        (),
        RouteError,
    >)
        requires
            old(self).wf(),
        ensures
            final(self).wf(),
            old(self).trie(method).match_of(normalized(url_pattern@)) is Some ==> r == Err::<
                (),
                RouteError,
            >(RouteError::DuplicateRoute) && *final(self) == *old(self),
            old(self).trie(method).match_of(normalized(url_pattern@)) is None ==> {
                &&& r is Ok
                &&& nodes_after(
                    old(self).trie(method).children@,
                    final(self).trie(method).children@,
                    segments_of(normalized(url_pattern@)),
                    normalized(url_pattern@),
                )
                &&& forall|m: RequestMethod|
                    m != method ==> #[trigger] final(self).trie(m) == old(self).trie(m)
                &&& final(self).routes().len() == old(self).routes().len() + 1
                &&& final(self).routes().drop_last() == old(self).routes()
                &&& final(self).routes().last().method == method
                &&& final(self).routes().last().pattern@ == normalized(url_pattern@)
                &&& final(self).routes().last().handler == handler
                &&& final(self).index_handler() == old(self).index_handler()
            },
    {
        let slot = method.slot();
        let pattern = normalize(url_pattern);
        if self.tries[slot].find_normalized(pattern.as_str()).is_some() {
            return Err(RouteError::DuplicateRoute);
        }
        let mut trie = self.tries.remove(slot);
        trie.append_normalized(pattern.as_str());
        self.tries.insert(slot, trie);
        self.routes.push(Route { method, pattern, handler });
        proof {
            assert(self.routes@.drop_last() =~= old(self).routes@);
            assert forall|m: RequestMethod| m != method implies #[trigger] self.trie(m) == old(
                self,
            ).trie(m) by {
                assert(m.slot_of() != method.slot_of());
            }
            assert forall|m: RequestMethod|
                stamps_registered(
                    (#[trigger] self.tries@[m.slot_of()]).children@,
                    self.routes@,
                    m,
                ) by {
                let was = old(self).tries@[m.slot_of()].children@;
                if m == method {
                    lemma_registration_keeps_stamps(
                        was,
                        self.tries@[m.slot_of()].children@,
                        segments_of(pattern@),
                        pattern@,
                        old(self).routes@,
                        self.routes@,
                        m,
                    );
                } else {
                    assert(m.slot_of() != method.slot_of());
                    lemma_stamps_stay_registered(was, old(self).routes@, self.routes@, m);
                }
            }
        }
        Ok(())
    }

    fn find_route(&self, method: RequestMethod, pattern: &String) -> (r: Option<usize>)
        ensures
            r is Some == handler_of(self.routes@, method, pattern@) is Some,
            r matches Some(i) ==> i < self.routes@.len() && Some(self.routes@[i as int].handler)
                == handler_of(self.routes@, method, pattern@),
    {
        let mut i: usize = 0;
        while i < self.routes.len()
            invariant
                i <= self.routes@.len(),
                forall|j: int|
                    0 <= j < i ==> !((#[trigger] self.routes@[j]).method == method
                        && self.routes@[j].pattern@ == pattern@),
            decreases self.routes@.len() - i,
        {
            if self.routes[i].method == method && self.routes[i].pattern == *pattern {
                proof {
                    assert(is_first_route(self.routes@, method, pattern@, i as int));
                    let p = choose|p: int| is_first_route(self.routes@, method, pattern@, p);
                    assert(is_first_route(self.routes@, method, pattern@, p));
                    assert(p == i) by {
                        if p < i {
                            assert(!(self.routes@[p].method == method && self.routes@[p].pattern@
                                == pattern@));
                        }
                        if i < p {
                            assert(!(self.routes@[i as int].method == method
                                && self.routes@[i as int].pattern@ == pattern@));
                        }
                    }
                }
                return Some(i);
            }
            i += 1;
        }
        proof {
            assert forall|p: int| !is_first_route(self.routes@, method, pattern@, p) by {
                if 0 <= p < self.routes@.len() {
                    assert(!(self.routes@[p].method == method && self.routes@[p].pattern@
                        == pattern@));
                }
            }
        }
        None
    }

    /// Resolves a request to its handler and path parameters.
    pub fn get_handler(&self, method: &RequestMethod, url: &str) -> (r: Option<(&H, PathParams)>)
        requires
            self.wf(),
        ensures
            r is Some == self.lookup(*method, url@) is Some,
            r matches Some((h, params)) ==> params.wf() && Some((*h, params@)) == self.lookup(
                *method,
                url@,
            ),
            r is Some == ((url@ == "/"@ && self.index_handler() is Some) || self.trie(
                *method,
            ).match_of(normalized(url@)) is Some),
    {
        proof {
            if self.trie(*method).match_of(normalized(url@)) is Some {
                self.lemma_match_has_handler(*method, normalized(url@));
            }
        }
        if text_eq(url, "/") {
            match &self.index_handler {
                Some(h) => {
                    return Some((h, PathParams::new()));
                },
                None => {},
            }
        }
        match self.tries[method.slot()].find_match(url) {
            Some((pattern, params)) => match self.find_route(*method, &pattern) {
                Some(i) => Some((&self.routes[i].handler, params)),
                None => None,
            },
            None => None,
        }
    }
}

impl<H> Default for Router<H> {
    /// An empty table.
    fn default() -> (r: Router<H>)
        ensures
            r.wf(),
            r.routes().len() == 0,
            r.index_handler() is None,
            forall|m: RequestMethod| (#[trigger] r.trie(m)).children@.len() == 0,
    {
        Router::new()
    }
}

/// Registering one method and pattern twice: after a registration that
/// succeeded, the method's trie resolves the pattern to itself, so that
/// `route` refuses it from then on. The pattern that is empty once trimmed
/// registers nothing and is never refused.
pub proof fn lemma_registered_route_is_duplicate<H>(
    before: Router<H>,
    after: Router<H>,
    method: RequestMethod,
    pattern: Seq<char>,
)
    requires
        after.wf(),
        normalized(pattern).len() > 0,
        before.trie(method).match_of(normalized(pattern)) is None,
        nodes_after(
            before.trie(method).children@,
            after.trie(method).children@,
            segments_of(normalized(pattern)),
            normalized(pattern),
        ),
    ensures
        after.trie(method).match_of(normalized(pattern)) == Some(
            (normalized(pattern), Seq::<(Seq<char>, Seq<char>)>::empty()),
        ),
{
    before.trie(method).lemma_unmatched_not_blocked(normalized(pattern));
    Node::lemma_registered_pattern_matches(
        before.trie(method),
        after.trie(method),
        normalized(pattern),
    );
}

/// The root path without an index handler: it resolves only through the
/// method's trie.
pub proof fn lemma_root_without_index<H>(router: Router<H>, method: RequestMethod)
    requires
        router.index_handler() is None,
        router.trie(method).match_of(normalized("/"@)) is None,
    ensures
        router.lookup(method, "/"@) is None,
{
}

} // verus!
