//! What holds of the trie across registrations and lookups: a registered
//! pattern resolves to itself, whitespace and a leading slash are
//! immaterial, and the root path resolves only once it is claimed.

use vstd::prelude::*;
use crate::fields::with_entry;
use crate::route_matcher::{
    has_key, has_param, is_first_param, key_place, lemma_first_param_unique, names_param,
    nodes_after, normalized, param_place, resolve_in, segments_of, stamp_of, strip_colons,
    url_of, wf_nodes, Node,
};
use crate::text::{
    all_space, lemma_split_first_piece, lemma_split_leading_separator, lemma_split_nonempty,
    lemma_split_single, lemma_trim_leading_space, lemma_trim_trailing_space, split_of, trim_of,
};

verus! {

/// A path that is not empty has at least one segment.
pub proof fn lemma_segments_nonempty(path: Seq<char>)
    requires
        path.len() > 0,
    ensures
        segments_of(path).len() > 0,
{
    lemma_split_nonempty(path, '/');
    if split_of(path, '/').len() == 1 {
        lemma_split_single(path, '/');
    }
}

/// A slash in front of a path that does not start with one leaves its
/// segments as they are.
pub proof fn lemma_leading_slash_immaterial(path: Seq<char>)
    requires
        path.len() > 0,
        path[0] != '/',
    ensures
        segments_of(seq!['/'] + path) == segments_of(path),
{
    lemma_split_leading_separator(path, '/');
    lemma_split_first_piece(path, '/');
    let parts = split_of(path, '/');
    assert((seq![Seq::<char>::empty()] + parts).drop_first() =~= parts);
}

/// Whether two forests have one shape: node by node the same text and
/// marks, whatever pattern each node is stamped with.
pub open spec fn same_shape(a: Seq<Node>, b: Seq<Node>) -> bool
    decreases a,
{
    &&& a.len() == b.len()
    &&& forall|i: int|
        0 <= i < a.len() ==> {
            &&& (#[trigger] a[i]).value@ == b[i].value@
            &&& a[i].is_param == b[i].is_param
            &&& a[i].is_terminal == b[i].is_terminal
            &&& a[i].is_wildcard == b[i].is_wildcard
            &&& same_shape(a[i].children@, b[i].children@)
        }
}

/// A forest has its own shape.
pub proof fn lemma_same_shape_reflexive(a: Seq<Node>)
    ensures
        same_shape(a, a),
    decreases a,
{
    assert forall|i: int| 0 <= i < a.len() implies same_shape(
        (#[trigger] a[i]).children@,
        a[i].children@,
    ) by {
        lemma_same_shape_reflexive(a[i].children@);
    }
}

/// Registering the same segments gives the same shape, whatever the text of
/// the pattern that is stamped.
pub proof fn lemma_same_segments_same_shape(
    before: Seq<Node>,
    one: Seq<Node>,
    other: Seq<Node>,
    segs: Seq<Seq<char>>,
    url_one: Seq<char>,
    url_other: Seq<char>,
)
    requires
        nodes_after(before, one, segs, url_one),
        nodes_after(before, other, segs, url_other),
    ensures
        same_shape(one, other),
    decreases segs.len(),
{
    if segs.len() == 0 {
        lemma_same_shape_reflexive(before);
    } else {
        let key = trim_of(segs[0]);
        let i = if has_key(before, key) {
            key_place(before, key)
        } else {
            before.len() as int
        };
        let stop = segs.len() == 1 || segs[1] == seq!['*'];
        let below = if has_key(before, key) {
            before[i].children@
        } else {
            Seq::<Node>::empty()
        };
        let rest = if stop {
            Seq::<Seq<char>>::empty()
        } else {
            segs.drop_first()
        };
        lemma_same_segments_same_shape(
            below,
            one[i].children@,
            other[i].children@,
            rest,
            url_one,
            url_other,
        );
        assert forall|j: int| 0 <= j < one.len() implies {
            &&& (#[trigger] one[j]).value@ == other[j].value@
            &&& one[j].is_param == other[j].is_param
            &&& one[j].is_terminal == other[j].is_terminal
            &&& one[j].is_wildcard == other[j].is_wildcard
            &&& same_shape(one[j].children@, other[j].children@)
        } by {
            if j != i {
                assert(one[j] == before[j] && other[j] == before[j]);
                lemma_same_shape_reflexive(before[j].children@);
            }
        }
    }
}

/// A slash in front of a pattern is immaterial to the shape of the trie:
/// registered with it or without it, the pattern gives the same nodes with
/// the same marks.
pub proof fn lemma_leading_slash_same_shape(
    before: Node,
    with_slash: Node,
    without: Node,
    pattern: Seq<char>,
)
    requires
        pattern.len() > 0,
        pattern[0] != '/',
        nodes_after(
            before.children@,
            with_slash.children@,
            segments_of(seq!['/'] + pattern),
            seq!['/'] + pattern,
        ),
        nodes_after(before.children@, without.children@, segments_of(pattern), pattern),
    ensures
        same_shape(with_slash.children@, without.children@),
{
    lemma_leading_slash_immaterial(pattern);
    lemma_same_segments_same_shape(
        before.children@,
        with_slash.children@,
        without.children@,
        segments_of(pattern),
        seq!['/'] + pattern,
        pattern,
    );
}

/// Whitespace around a pattern or a path is immaterial: the normalized text
/// is the same with it and without it, and so are the trie that registering
/// it gives and the match that it finds.
pub proof fn lemma_outer_whitespace_immaterial(lead: Seq<char>, s: Seq<char>, trail: Seq<char>)
    requires
        all_space(lead),
        all_space(trail),
    ensures
        normalized(lead + s + trail) == normalized(s),
{
    lemma_trim_trailing_space(lead + s, trail);
    lemma_trim_leading_space(lead, s);
}

/// Whether a wildcard node stands in the way of the segments `segs`: on the
/// nodes that their texts lead through, before the node that registering
/// them would mark.
pub open spec fn blocked(nodes: Seq<Node>, segs: Seq<Seq<char>>) -> bool
    decreases segs.len(),
{
    &&& segs.len() > 1
    &&& segs[1] != seq!['*']
    &&& has_key(nodes, trim_of(segs[0]))
    &&& {
        let n = nodes[key_place(nodes, trim_of(segs[0]))];
        n.is_wildcard || blocked(n.children@, segs.drop_first())
    }
}

/// Segments that do not resolve have no wildcard node in their way.
pub proof fn lemma_unresolved_not_blocked(
    nodes: Seq<Node>,
    segs: Seq<Seq<char>>,
    params: Seq<(Seq<char>, Seq<char>)>,
)
    requires
        resolve_in(nodes, segs, params) is None,
    ensures
        !blocked(nodes, segs),
    decreases segs.len(),
{
    if blocked(nodes, segs) {
        let n = nodes[key_place(nodes, trim_of(segs[0]))];
        assert(segs.drop_first().len() > 0);
        lemma_unresolved_not_blocked(n.children@, segs.drop_first(), params);
    }
}

/// Once the segments of a pattern are registered among siblings with no
/// wildcard node in their way, they resolve to that pattern, and the walk
/// binds no parameter on the way.
pub proof fn lemma_registered_segments_resolve(
    before: Seq<Node>,
    after: Seq<Node>,
    segs: Seq<Seq<char>>,
    url: Seq<char>,
    params: Seq<(Seq<char>, Seq<char>)>,
)
    requires
        segs.len() > 0,
        wf_nodes(after),
        nodes_after(before, after, segs, url),
        !blocked(before, segs),
    ensures
        resolve_in(after, segs, params) == Some((url, params)),
    decreases segs.len(),
{
    let key = trim_of(segs[0]);
    let rest = segs.drop_first();
    let last = segs.len() == 1;
    let wild = segs.len() > 1 && segs[1] == seq!['*'];
    let i = if has_key(before, key) {
        key_place(before, key)
    } else {
        before.len() as int
    };
    let n = after[i];
    assert(n.value@ == key);
    assert(has_key(after, key));
    assert(after[key_place(after, key)].value@ == key);
    assert(key_place(after, key) == i);
    if last || wild {
        assert(url_of(n) == Some(url));
        assert(stamp_of(n) == url);
    } else {
        let below = if has_key(before, key) {
            before[i].children@
        } else {
            Seq::<Node>::empty()
        };
        assert(nodes_after(below, n.children@, rest, url));
        assert(!n.is_wildcard);
        assert(!blocked(below, rest));
        lemma_registered_segments_resolve(below, n.children@, rest, url, params);
    }
}

/// Without nodes nothing resolves.
pub proof fn lemma_empty_resolves_nothing(
    segs: Seq<Seq<char>>,
    params: Seq<(Seq<char>, Seq<char>)>,
)
    ensures
        resolve_in(Seq::<Node>::empty(), segs, params) is None,
{
    assert forall|i: int| !is_first_param(Seq::<Node>::empty(), i) by {}
}

/// The root path `/` has one segment, the empty one.
pub proof fn lemma_root_segments()
    ensures
        segments_of("/"@) == seq![Seq::<char>::empty()],
{
    reveal_strlit("/");
    let s = "/"@;
    assert(s.len() == 1 && s[0] == '/');
    assert(s.drop_last() =~= Seq::<char>::empty());
    assert(split_of(Seq::<char>::empty(), '/') =~= seq![Seq::<char>::empty()]);
    assert(split_of(s, '/') =~= split_of(s.drop_last(), '/').push(Seq::<char>::empty()));
    assert(split_of(s, '/') =~= seq![Seq::<char>::empty(), Seq::<char>::empty()]);
    assert(segments_of(s) =~= seq![Seq::<char>::empty()]);
}

/// Whether a pattern with the segments `segs` claims the root path: it is
/// the empty segment alone or before a wildcard, or a parameter alone.
pub open spec fn claims_root(segs: Seq<Seq<char>>) -> bool {
    let key = trim_of(segs[0]);
    ||| segs.len() == 1 && (key.len() == 0 || names_param(key))
    ||| segs.len() > 1 && key.len() == 0 && segs[1] == seq!['*']
}

/// The root path resolves only once a pattern that claims it is registered:
/// where it did not resolve, it does not after a pattern that does not claim
/// it, whatever else the trie holds.
pub proof fn lemma_root_only_if_registered(
    before: Seq<Node>,
    after: Seq<Node>,
    segs: Seq<Seq<char>>,
    url: Seq<char>,
)
    requires
        wf_nodes(before),
        wf_nodes(after),
        segs.len() > 0,
        !claims_root(segs),
        nodes_after(before, after, segs, url),
        resolve_in(before, segments_of("/"@), Seq::empty()) is None,
    ensures
        resolve_in(after, segments_of("/"@), Seq::empty()) is None,
{
    lemma_root_segments();
    let none = Seq::<char>::empty();
    let root = seq![none];
    let params = Seq::<(Seq<char>, Seq<char>)>::empty();
    assert(trim_of(none) == none);
    assert(root.drop_first().len() == 0);
    assert(root[0] == none);
    let key = trim_of(segs[0]);
    let i = if has_key(before, key) {
        key_place(before, key)
    } else {
        before.len() as int
    };
    assert(after[i].value@ == key);
    if has_key(after, none) {
        // The empty segment leads to a node by its text.
        let a = key_place(after, none);
        assert(after[a].value@ == none);
        if a == i {
            if has_key(before, key) {
                assert(before[key_place(before, none)].value@ == none);
            }
            assert(!after[i].is_terminal && !after[i].is_wildcard);
        } else {
            assert(before[a].value@ == none);
            assert(before[key_place(before, none)].value@ == none);
        }
        assert(resolve_in(after[a].children@, root.drop_first(), params) is None);
    } else if has_param(after) {
        // The empty segment is bound by the first parameter node.
        let a = param_place(after);
        assert(is_first_param(after, a));
        assert(!has_key(before, none)) by {
            if has_key(before, none) {
                assert(after[key_place(before, none)].value@ == none);
            }
        }
        if a != i || has_key(before, key) {
            assert(is_first_param(before, a)) by {
                assert forall|j: int| 0 <= j < a implies !(#[trigger] before[j]).is_param by {
                    assert(!after[j].is_param);
                }
            }
            lemma_first_param_unique(before, a);
        }
        assert(!after[a].is_terminal);
        assert(resolve_in(
            after[a].children@,
            root.drop_first(),
            with_entry(params, strip_colons(after[a].value@), none),
        ) is None);
    }
}

impl Node {
    /// Whether a wildcard node of the trie stands in the way of a normalized
    /// pattern.
    pub open spec fn blocks(&self, pattern: Seq<char>) -> bool {
        blocked(self.children@, segments_of(pattern))
    }

    /// After a pattern is registered in a trie with no wildcard node in its
    /// way, a path equal to the pattern resolves to it, with no parameter
    /// bound. The empty pattern registers nothing and never resolves.
    pub proof fn lemma_registered_pattern_matches(before: Node, after: Node, pattern: Seq<char>)
        requires
            after.wf(),
            pattern.len() > 0,
            !before.blocks(pattern),
            nodes_after(before.children@, after.children@, segments_of(pattern), pattern),
        ensures
            after.match_of(pattern) == Some((pattern, Seq::<(Seq<char>, Seq<char>)>::empty())),
    {
        lemma_segments_nonempty(pattern);
        lemma_registered_segments_resolve(
            before.children@,
            after.children@,
            segments_of(pattern),
            pattern,
            Seq::empty(),
        );
    }

    /// A pattern that the trie does not resolve has no wildcard node in its
    /// way.
    pub proof fn lemma_unmatched_not_blocked(&self, pattern: Seq<char>)
        requires
            self.match_of(pattern) is None,
        ensures
            !self.blocks(pattern),
    {
        lemma_unresolved_not_blocked(self.children@, segments_of(pattern), Seq::empty());
    }

    /// A trie without registrations resolves no path.
    pub proof fn lemma_empty_trie_matches_nothing(&self, path: Seq<char>)
        requires
            self.children@.len() == 0,
        ensures
            self.match_of(path) is None,
    {
        assert(self.children@ =~= Seq::<Node>::empty());
        lemma_empty_resolves_nothing(segments_of(path), Seq::empty());
    }
}

} // verus!
