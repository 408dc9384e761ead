//! The path trie: registered URL patterns, one node per path segment, and the
//! walk that resolves a request path to a pattern and its parameters.

use vstd::prelude::*;
use crate::fields::{with_entry, Fields};
use crate::text::{
    chars_of, lowercase_of, split, split_of, string_of, to_lower, trim, trim_of, views,
};

verus! {

/// Why a registration was refused.
#[derive(Clone, Copy, Debug, PartialEq, Eq, Structural)]
pub enum RouteError {
    /// The pattern already resolves.
    DuplicateRoute,
}

/// Parameters captured from a path, by name.
pub type PathParams = Fields;

/// One segment of the registered patterns.
#[derive(Debug)]
pub struct Node {
    /// The segment's text: `foo`, or `:id` for a parameter.
    pub value: String,
    /// Whether the segment binds a parameter.
    pub is_param: bool,
    /// Whether some pattern ends at this segment.
    pub is_terminal: bool,
    /// The segments that follow this one, in the order in which they came.
    pub children: Vec<Node>,
    /// The pattern stamped on a terminal or wildcard node.
    pub url: Option<String>,
    /// Whether the node accepts whatever follows it.
    pub is_wildcard: bool,
}

/// The pattern on a node, as text; empty where there is none.
pub open spec fn stamp_of(n: Node) -> Seq<char> {
    match n.url {
        Some(u) => u@,
        None => Seq::<char>::empty(),
    }
}

/// The pattern on a node, if it has one.
pub open spec fn url_of(n: Node) -> Option<Seq<char>> {
    match n.url {
        Some(u) => Some(u@),
        None => None,
    }
}

/// Whether some node of `nodes` has the text `key`.
pub open spec fn has_key(nodes: Seq<Node>, key: Seq<char>) -> bool {
    exists|i: int| 0 <= i < nodes.len() && (#[trigger] nodes[i]).value@ == key
}

/// The place of a node of `nodes` with the text `key`.
pub open spec fn key_place(nodes: Seq<Node>, key: Seq<char>) -> int {
    choose|i: int| 0 <= i < nodes.len() && (#[trigger] nodes[i]).value@ == key
}

/// Whether `i` is the place of the first parameter node of `nodes`.
pub open spec fn is_first_param(nodes: Seq<Node>, i: int) -> bool {
    &&& 0 <= i < nodes.len()
    &&& nodes[i].is_param
    &&& forall|j: int| 0 <= j < i ==> !(#[trigger] nodes[j]).is_param
}

/// Whether `nodes` holds a parameter node.
pub open spec fn has_param(nodes: Seq<Node>) -> bool {
    exists|i: int| is_first_param(nodes, i)
}

/// The place of the first parameter node of `nodes`.
pub open spec fn param_place(nodes: Seq<Node>) -> int {
    choose|i: int| is_first_param(nodes, i)
}

/// The first parameter node has one place.
pub proof fn lemma_first_param_unique(nodes: Seq<Node>, i: int)
    requires
        is_first_param(nodes, i),
    ensures
        has_param(nodes),
        param_place(nodes) == i,
{
    let p = param_place(nodes);
    if p < i {
        assert(!nodes[p].is_param);
    }
    if i < p {
        assert(!nodes[i].is_param);
    }
}

/// No two nodes of `nodes` have the same text.
pub open spec fn distinct_keys(nodes: Seq<Node>) -> bool {
    forall|i: int, j: int|
        0 <= i < nodes.len() && 0 <= j < nodes.len() && (#[trigger] nodes[i]).value@ == (
        #[trigger] nodes[j]).value@ ==> i == j
}

/// Whether a segment's text names a parameter: it starts with a colon.
pub open spec fn names_param(key: Seq<char>) -> bool {
    key.len() > 0 && key[0] == ':'
}

/// The invariant of a forest of nodes: siblings differ in their text, the
/// parameter nodes are those whose text starts with a colon, and a terminal
/// or wildcard node carries its pattern; the same below each node.
pub open spec fn wf_nodes(nodes: Seq<Node>) -> bool
    decreases nodes,
{
    &&& distinct_keys(nodes)
    &&& forall|i: int|
        0 <= i < nodes.len() ==> {
            &&& ((#[trigger] nodes[i]).is_terminal || nodes[i].is_wildcard) ==> nodes[i].url is Some
            &&& nodes[i].is_param == names_param(nodes[i].value@)
            &&& wf_nodes(nodes[i].children@)
        }
}

/// `s` without its colons.
pub open spec fn strip_colons(s: Seq<char>) -> Seq<char>
    decreases s.len(),
{
    if s.len() == 0 {
        s
    } else if s.last() == ':' {
        strip_colons(s.drop_last())
    } else {
        strip_colons(s.drop_last()).push(s.last())
    }
}

/// The segments of a normalized path: its pieces between slashes, without the
/// empty piece that a leading slash gives.
pub open spec fn segments_of(path: Seq<char>) -> Seq<Seq<char>> {
    let parts = split_of(path, '/');
    if parts[0].len() == 0 {
        parts.drop_first()
    } else {
        parts
    }
}

/// The walk. At each segment a child with the segment's trimmed text is taken
/// before any parameter child; of several parameter children the one that was
/// registered first is taken, and binds its name to the segment as it stands.
/// The walk ends at a terminal node when no segment is left, or at a wildcard
/// node reached by its text.
pub open spec fn resolve_in(
    nodes: Seq<Node>,
    segs: Seq<Seq<char>>,
    params: Seq<(Seq<char>, Seq<char>)>,
) -> Option<(Seq<char>, Seq<(Seq<char>, Seq<char>)>)>
    decreases segs.len(),
{
    if segs.len() == 0 {
        None
    } else {
        let key = trim_of(segs[0]);
        let rest = segs.drop_first();
        if has_key(nodes, key) {
            let n = nodes[key_place(nodes, key)];
            if (n.is_terminal && rest.len() == 0) || n.is_wildcard {
                Some((stamp_of(n), params))
            } else {
                resolve_in(n.children@, rest, params)
            }
        } else if has_param(nodes) {
            let n = nodes[param_place(nodes)];
            let bound = with_entry(params, strip_colons(n.value@), segs[0]);
            if n.is_terminal && rest.len() == 0 {
                Some((stamp_of(n), bound))
            } else {
                resolve_in(n.children@, rest, bound)
            }
        } else {
            None
        }
    }
}

/// What registering the segments `segs` of the pattern `url` makes of the node
/// for `segs[0]`: `before` is the node as it was, or `None` where it is new.
pub open spec fn node_after(
    before: Option<Node>,
    after: Node,
    segs: Seq<Seq<char>>,
    url: Seq<char>,
) -> bool
    recommends
        segs.len() > 0,
    decreases segs.len(), 0nat,
{
    let key = trim_of(segs[0]);
    let last = segs.len() == 1;
    let wild = segs.len() > 1 && segs[1] == seq!['*'];
    let stop = last || wild;
    &&& segs.len() > 0
    &&& after.value@ == key
    &&& after.is_param == match before {
        Some(b) => b.is_param,
        None => names_param(key),
    }
    &&& after.is_terminal == (last || (before matches Some(b) && b.is_terminal))
    &&& after.is_wildcard == (wild || (before matches Some(b) && b.is_wildcard))
    &&& url_of(after) == if stop {
        Some(url)
    } else {
        match before {
            Some(b) => url_of(b),
            None => None,
        }
    }
    &&& nodes_after(
        match before {
            Some(b) => b.children@,
            None => Seq::<Node>::empty(),
        },
        after.children@,
        if stop {
            Seq::<Seq<char>>::empty()
        } else {
            segs.drop_first()
        },
        url,
    )
}

/// What registering the segments `segs` of the pattern `url` makes of a list
/// of siblings: the node for the first segment is marked where it stands or
/// added at the end, and the others stay.
pub open spec fn nodes_after(
    before: Seq<Node>,
    after: Seq<Node>,
    segs: Seq<Seq<char>>,
    url: Seq<char>,
) -> bool
    decreases segs.len(), 1nat,
{
    if segs.len() == 0 {
        after == before
    } else {
        let key = trim_of(segs[0]);
        if has_key(before, key) {
            let i = key_place(before, key);
            &&& after.len() == before.len()
            &&& forall|j: int| 0 <= j < before.len() && j != i ==> #[trigger] after[j] == before[j]
            &&& node_after(Some(before[i]), after[i], segs, url)
        } else {
            &&& after.len() == before.len() + 1
            &&& forall|j: int| 0 <= j < before.len() ==> #[trigger] after[j] == before[j]
            &&& node_after(None, after[before.len() as int], segs, url)
        }
    }
}

/// The text of a pattern or path as the trie sees it: trimmed, then lowercased.
pub open spec fn normalized(s: Seq<char>) -> Seq<char> {
    lowercase_of(trim_of(s))
}

/// Removes the colons of a parameter's text.
pub fn without_colons(s: &str) -> (r: String)
    ensures
        r@ == strip_colons(s@),
{
    let v = chars_of(s);
    let mut out: Vec<char> = Vec::new();
    let mut i: usize = 0;
    while i < v.len()
        invariant
            i <= v.len(),
            out@ == strip_colons(v@.take(i as int)),
        decreases v.len() - i,
    {
        proof {
            assert(v@.take(i + 1).drop_last() =~= v@.take(i as int));
        }
        if v[i] != ':' {
            out.push(v[i]);
        }
        i += 1;
    }
    proof {
        assert(v@.take(v.len() as int) =~= v@);
    }
    string_of(&out)
}

/// Splits a normalized path into its segments.
pub fn segments(path: &str) -> (r: Vec<Vec<char>>)
    ensures
        views(r@) == segments_of(path@),
{
    let chars = chars_of(path);
    let mut parts = split(&chars, '/');
    if parts[0].len() == 0 {
        let ghost whole = views(parts@);
        parts.remove(0);
        proof {
            assert(views(parts@) =~= whole.drop_first());
        }
    }
    parts
}

fn find_child(nodes: &Vec<Node>, key: &String) -> (r: Option<usize>)
    requires
        distinct_keys(nodes@),
    ensures
        r is Some == has_key(nodes@, key@),
        r matches Some(i) ==> i < nodes@.len() && i as int == key_place(nodes@, key@),
{
    let mut i: usize = 0;
    while i < nodes.len()
        invariant
            i <= nodes@.len(),
            distinct_keys(nodes@),
            forall|j: int| 0 <= j < i ==> (#[trigger] nodes@[j]).value@ != key@,
        decreases nodes@.len() - i,
    {
        if nodes[i].value == *key {
            proof {
                assert(nodes@[i as int].value@ == key@);
                assert(nodes@[key_place(nodes@, key@)].value@ == key@);
            }
            return Some(i);
        }
        i += 1;
    }
    None
}

fn is_star(seg: &Vec<char>) -> (r: bool)
    ensures
        r == (seg@ == seq!['*']),
{
    let r = seg.len() == 1 && seg[0] == '*';
    proof {
        if r {
            assert(seg@ =~= seq!['*']);
        } else if seg@.len() == 1 {
            assert(seq!['*'][0] == '*');
        } else {
            assert(seq!['*'].len() == 1);
        }
    }
    r
}

impl Node {
    /// The invariant of a trie.
    pub open spec fn wf(&self) -> bool {
        wf_nodes(self.children@)
    }

    /// What a normalized path resolves to: the pattern and the parameters.
    pub open spec fn match_of(&self, path: Seq<char>) -> Option<
        (Seq<char>, Seq<(Seq<char>, Seq<char>)>),
    > {
        resolve_in(self.children@, segments_of(path), Seq::empty())
    }

    /// An empty trie.
    pub fn new() -> (r: Node)
        ensures
            r.wf(),
            r.children@.len() == 0,
            r.value@.len() == 0,
            r.url is None,
            !r.is_param && !r.is_terminal && !r.is_wildcard,
    {
        Node {
            value: String::new(),
            url: None,
            is_param: false,
            is_terminal: false,
            is_wildcard: false,
            children: Vec::new(),
        }
    }

    /// The child whose text is `key`, if there is one.
    pub fn child(&self, key: &str) -> (r: Option<&Node>)
        requires
            self.wf(),
        ensures
            r is Some == has_key(self.children@, key@),
            r matches Some(n) ==> *n == self.children@[key_place(self.children@, key@)],
    {
        let k = key.to_owned();
        match find_child(&self.children, &k) {
            Some(i) => Some(&self.children[i]),
            None => None,
        }
    }

    /// The first parameter child, if there is one.
    pub fn get_path_param_from_children(&self) -> (r: Option<&Node>)
        ensures
            r is Some == has_param(self.children@),
            r matches Some(n) ==> *n == self.children@[param_place(self.children@)],
    {
        let mut i: usize = 0;
        while i < self.children.len()
            invariant
                i <= self.children@.len(),
                forall|j: int| 0 <= j < i ==> !(#[trigger] self.children@[j]).is_param,
            decreases self.children@.len() - i,
        {
            if self.children[i].is_param {
                proof {
                    lemma_first_param_unique(self.children@, i as int);
                }
                return Some(&self.children[i]);
            }
            i += 1;
        }
        proof {
            assert forall|p: int| !is_first_param(self.children@, p) by {
                if 0 <= p < self.children@.len() {
                    assert(!self.children@[p].is_param);
                }
            }
        }
        None
    }

    /// Resolves a path that is already trimmed and lowercased.
    pub fn find_normalized(&self, path: &str) -> (r: Option<(String, PathParams)>)
        requires
            self.wf(),
        ensures
            r is Some == self.match_of(path@) is Some,
            r matches Some((pattern, params)) ==> params.wf() && Some((pattern@, params@))
                == self.match_of(path@),
    {
        let segs = segments(path);
        let mut node: &Node = self;
        let mut params = Fields::new();
        let mut k: usize = 0;
        proof {
            assert(views(segs@).subrange(0, segs@.len() as int) =~= views(segs@));
        }
        while k < segs.len()
            invariant
                k <= segs@.len(),
                wf_nodes(node.children@),
                params.wf(),
                self.match_of(path@) == resolve_in(
                    node.children@,
                    views(segs@).subrange(k as int, segs@.len() as int),
                    params@,
                ),
            decreases segs@.len() - k,
        {
            let ghost here = views(segs@).subrange(k as int, segs@.len() as int);
            proof {
                assert(here.drop_first() =~= views(segs@).subrange(k + 1, segs@.len() as int));
                assert(here[0] == segs@[k as int]@);
            }
            let key = string_of(&trim(&segs[k]));
            let last = k + 1 == segs.len();
            match find_child(&node.children, &key) {
                Some(i) => {
                    let n = &node.children[i];
                    if (n.is_terminal && last) || n.is_wildcard {
                        match &n.url {
                            Some(u) => {
                                return Some((u.clone(), params));
                            },
                            // A terminal or wildcard node carries its pattern.
                            None => {
                                return None;
                            },
                        }
                    }
                    node = n;
                },
                None => {
                    match node.get_path_param_from_children() {
                        Some(n) => {
                            params.insert(without_colons(n.value.as_str()), string_of(&segs[k]));
                            if n.is_terminal && last {
                                match &n.url {
                                    Some(u) => {
                                        return Some((u.clone(), params));
                                    },
                                    // A terminal node carries its pattern.
                                    None => {
                                        return None;
                                    },
                                }
                            }
                            node = n;
                        },
                        None => {
                            return None;
                        },
                    }
                },
            }
            k += 1;
        }
        None
    }

    /// Resolves a path: it is trimmed and lowercased, then walked segment by
    /// segment.
    pub fn find_match(&self, url_string: &str) -> (r: Option<(String, PathParams)>)
        requires
            self.wf(),
        ensures
            r is Some == self.match_of(normalized(url_string@)) is Some,
            r matches Some((pattern, params)) ==> params.wf() && Some((pattern@, params@))
                == self.match_of(normalized(url_string@)),
    {
        let path = normalize(url_string);
        self.find_normalized(path.as_str())
    }

    /// Registers a pattern that is already trimmed and lowercased.
    pub fn append_normalized(&mut self, pattern: &str)
        requires
            old(self).wf(),
        ensures
            final(self).wf(),
            nodes_after(
                old(self).children@,
                final(self).children@,
                segments_of(pattern@),
                pattern@,
            ),
            final(self).value == old(self).value,
            final(self).url == old(self).url,
            final(self).is_param == old(self).is_param,
            final(self).is_terminal == old(self).is_terminal,
            final(self).is_wildcard == old(self).is_wildcard,
    {
        let segs = segments(pattern);
        let url = pattern.to_owned();
        proof {
            assert(views(segs@).subrange(0, segs@.len() as int) =~= views(segs@));
        }
        graft(&mut self.children, &segs, 0, &url);
    }

    /// Registers a pattern that is already trimmed and lowercased, unless
    /// the trie resolves it: then it is refused, and the trie stays as it
    /// was.
    pub fn register_normalized(&mut self, pattern: &str) -> (r: Result<(), RouteError>)
        requires
            old(self).wf(),
        ensures
            final(self).wf(),
            old(self).match_of(pattern@) is Some ==> r == Err::<(), RouteError>(
                RouteError::DuplicateRoute,
            ) && *final(self) == *old(self),
            old(self).match_of(pattern@) is None ==> {
                &&& r is Ok
                &&& nodes_after(
                    old(self).children@,
                    final(self).children@,
                    segments_of(pattern@),
                    pattern@,
                )
                &&& final(self).value == old(self).value
                &&& final(self).url == old(self).url
                &&& final(self).is_param == old(self).is_param
                &&& final(self).is_terminal == old(self).is_terminal
                &&& final(self).is_wildcard == old(self).is_wildcard
            },
    {
        if self.find_normalized(pattern).is_some() {
            return Err(RouteError::DuplicateRoute);
        }
        self.append_normalized(pattern);
        Ok(())
    }

    /// Registers a pattern unless the trie already resolves it: then it is
    /// refused, and the trie stays as it was.
    pub fn register(&mut self, url_path_pattern: &str) -> (r: Result<(), RouteError>)
        requires
            old(self).wf(),
        ensures
            final(self).wf(),
            old(self).match_of(normalized(url_path_pattern@)) is Some ==> r == Err::<
                (),
                RouteError,
            >(RouteError::DuplicateRoute) && *final(self) == *old(self),
            old(self).match_of(normalized(url_path_pattern@)) is None ==> {
                &&& r is Ok
                &&& nodes_after(
                    old(self).children@,
                    final(self).children@,
                    segments_of(normalized(url_path_pattern@)),
                    normalized(url_path_pattern@),
                )
                &&& final(self).value == old(self).value
                &&& final(self).url == old(self).url
                &&& final(self).is_param == old(self).is_param
                &&& final(self).is_terminal == old(self).is_terminal
                &&& final(self).is_wildcard == old(self).is_wildcard
            },
    {
        let pattern = normalize(url_path_pattern);
        self.register_normalized(pattern.as_str())
    }

    /// Registers a pattern: it is trimmed and lowercased, then each of its
    /// segments gets a node where none stands; the node of the last segment
    /// is marked terminal, or the node before a `*` wildcard, and stamped with
    /// the pattern.
    pub fn append(&mut self, url_path_pattern: &str)
        requires
            old(self).wf(),
        ensures
            final(self).wf(),
            nodes_after(
                old(self).children@,
                final(self).children@,
                segments_of(normalized(url_path_pattern@)),
                normalized(url_path_pattern@),
            ),
            final(self).value == old(self).value,
            final(self).url == old(self).url,
            final(self).is_param == old(self).is_param,
            final(self).is_terminal == old(self).is_terminal,
            final(self).is_wildcard == old(self).is_wildcard,
    {
        let pattern = normalize(url_path_pattern);
        self.append_normalized(pattern.as_str());
    }
}

impl Default for Node {
    /// An empty trie.
    fn default() -> (r: Node)
        ensures
            r.wf(),
            r.children@.len() == 0,
            r.value@.len() == 0,
            r.url is None,
            !r.is_param && !r.is_terminal && !r.is_wildcard,
    {
        Node::new()
    }
}

/// Trims a text and lowercases it.
pub fn normalize(s: &str) -> (r: String)
    ensures
        r@ == normalized(s@),
{
    let trimmed = string_of(&trim(&chars_of(s)));
    to_lower(trimmed.as_str())
}

fn graft(nodes: &mut Vec<Node>, segs: &Vec<Vec<char>>, k: usize, url: &String)
    requires
        wf_nodes(old(nodes)@),
        k <= segs@.len(),
    ensures
        wf_nodes(final(nodes)@),
        nodes_after(
            old(nodes)@,
            final(nodes)@,
            views(segs@).subrange(k as int, segs@.len() as int),
            url@,
        ),
    decreases segs@.len() - k,
{
    if k >= segs.len() {
        return ;
    }
    let ghost here = views(segs@).subrange(k as int, segs@.len() as int);
    proof {
        assert(here.drop_first() =~= views(segs@).subrange(k + 1, segs@.len() as int));
        assert(here[0] == segs@[k as int]@);
        if k + 1 < segs@.len() {
            assert(here[1] == segs@[k + 1]@);
        }
    }
    let text = trim(&segs[k]);
    let is_param = text.len() > 0 && text[0] == ':';
    let key = string_of(&text);
    let last = k + 1 == segs.len();
    let wild = !last && is_star(&segs[k + 1]);
    let stop = last || wild;
    let next: usize = if stop {
        segs.len()
    } else {
        k + 1
    };
    proof {
        if stop {
            assert(views(segs@).subrange(next as int, segs@.len() as int) =~= Seq::<
                Seq<char>,
            >::empty());
        }
    }
    match find_child(nodes, &key) {
        Some(i) => {
            let mut child = nodes.remove(i);
            let ghost was = child;
            if last {
                child.is_terminal = true;
            }
            if wild {
                child.is_wildcard = true;
            }
            if stop {
                child.url = Some(url.clone());
            }
            graft(&mut child.children, segs, next, url);
            proof {
                assert(node_after(Some(was), child, here, url@));
            }
            nodes.insert(i, child);
            proof {
                assert(wf_nodes(nodes@)) by {
                    assert forall|a: int, b: int|
                        0 <= a < nodes@.len() && 0 <= b < nodes@.len() && (
                        #[trigger] nodes@[a]).value@ == (#[trigger] nodes@[b]).value@ implies a
                        == b by {
                        assert(old(nodes)@[a].value@ == nodes@[a].value@);
                        assert(old(nodes)@[b].value@ == nodes@[b].value@);
                    }
                }
            }
        },
        None => {
            let mut child = Node {
                value: key,
                url: if stop {
                    Some(url.clone())
                } else {
                    None
                },
                is_param,
                is_terminal: last,
                is_wildcard: wild,
                children: Vec::new(),
            };
            graft(&mut child.children, segs, next, url);
            proof {
                assert(node_after(None, child, here, url@));
            }
            nodes.push(child);
            proof {
                assert(wf_nodes(nodes@)) by {
                    assert forall|a: int, b: int|
                        0 <= a < nodes@.len() && 0 <= b < nodes@.len() && (
                        #[trigger] nodes@[a]).value@ == (#[trigger] nodes@[b]).value@ implies a
                        == b by {
                        if a < old(nodes)@.len() {
                            assert(old(nodes)@[a].value@ == nodes@[a].value@);
                        }
                        if b < old(nodes)@.len() {
                            assert(old(nodes)@[b].value@ == nodes@[b].value@);
                        }
                    }
                }
            }
        },
    }
}

} // verus!
