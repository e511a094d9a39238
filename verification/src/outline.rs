//! The bookmark outline of a document.
//!
//! A document's bookmarks form a graph in which every bookmark may name a
//! first child and a next sibling. In a damaged file that graph may have
//! cycles. The outline is built depth-first: every bookmark is taken at most
//! once (the first time the walk reaches it), and nesting stops below
//! `MAX_OUTLINE_DEPTH`.

use std::collections::HashSet;
use vstd::prelude::*;

verus! {

broadcast use vstd::std_specs::hash::group_hash_axioms;

/// The deepest nesting level that is still turned into an outline node.
pub const MAX_OUTLINE_DEPTH: u32 = 64;

/// One bookmark as read from a document: its title, the page that it points
/// to, and the positions (in `BookmarkTree::entries`) of its first child and
/// of its next sibling.
pub struct BookmarkEntry {
    pub title: String,
    pub page_index: Option<u16>,
    pub first_child: Option<usize>,
    pub next_sibling: Option<usize>,
}

/// A document's bookmark graph, each bookmark stored once and named by its
/// position in `entries`; `root` is the first top-level bookmark.
pub struct BookmarkTree {
    pub entries: Vec<BookmarkEntry>,
    pub root: Option<usize>,
}

/// A node of the outline tree handed to the viewer.
pub struct OutlineNode {
    pub title: String,
    pub page_index: Option<u16>,
    pub children: Vec<OutlineNode>,
}

/// The mathematical value of an outline node.
pub struct OutlineTree {
    pub title: Seq<char>,
    pub page_index: Option<u16>,
    pub children: Seq<OutlineTree>,
}

/// The value of an outline node.
pub open spec fn node_view(n: OutlineNode) -> OutlineTree
    decreases n,
{
    OutlineTree {
        title: n.title@,
        page_index: n.page_index,
        children: nodes_view(n.children@),
    }
}

/// The values of a sequence of outline nodes.
pub open spec fn nodes_view(s: Seq<OutlineNode>) -> Seq<OutlineTree>
    decreases s,
{
    if s.len() == 0 {
        Seq::empty()
    } else {
        nodes_view(s.drop_last()).push(node_view(s.last()))
    }
}

/// How much the measure of a call at nesting level `depth` allows.
pub open spec fn depth_room(depth: nat) -> nat {
    if depth <= MAX_OUTLINE_DEPTH + 1 {
        (MAX_OUTLINE_DEPTH + 1 - depth) as nat
    } else {
        0
    }
}

/// The outline node for bookmark `id` at nesting level `depth`, given the
/// bookmarks already taken (`visited`); also returns the bookmarks taken
/// after it and its descendants. A bookmark already taken, or one deeper
/// than `MAX_OUTLINE_DEPTH`, gives no node.
pub open spec fn build_node(
    t: Seq<BookmarkEntry>,
    id: usize,
    visited: Set<usize>,
    depth: nat,
) -> (Option<OutlineTree>, Set<usize>)
    decreases depth_room(depth), 0nat, 0nat,
{
    if depth > MAX_OUTLINE_DEPTH || visited.contains(id) || id >= t.len() {
        (None, visited)
    } else {
        let (kids, after) = build_siblings(t, t[id as int].first_child, visited.insert(id), depth + 1, t.len());
        (Some(OutlineTree { title: t[id as int].title@, page_index: t[id as int].page_index, children: kids }), after)
    }
}

/// The outline nodes for the sibling chain that starts at `next`, all at
/// nesting level `depth`, following at most `fuel` links; also returns the
/// bookmarks taken afterwards. A chain of distinct bookmarks is never longer
/// than the number of bookmarks, so with that fuel the whole chain is
/// followed.
pub open spec fn build_siblings(
    t: Seq<BookmarkEntry>,
    next: Option<usize>,
    visited: Set<usize>,
    depth: nat,
    fuel: nat,
) -> (Seq<OutlineTree>, Set<usize>)
    decreases depth_room(depth), 1nat, fuel,
{
    match next {
        None => (Seq::empty(), visited),
        Some(id) => {
            if fuel == 0 || id >= t.len() {
                (Seq::empty(), visited)
            } else {
                let (node, v1) = build_node(t, id, visited, depth);
                let (rest, v2) = build_siblings(t, t[id as int].next_sibling, v1, depth, (fuel - 1) as nat);
                match node {
                    Some(n) => (seq![n] + rest, v2),
                    None => (rest, v2),
                }
            }
        }
    }
}

/// The outline of a bookmark graph: the chain of top-level bookmarks, in
/// order, each with its subtree.
pub open spec fn outline_spec(t: BookmarkTree) -> Seq<OutlineTree> {
    build_siblings(t.entries@, t.root, Set::empty(), 0, t.entries@.len()).0
}

proof fn lemma_nodes_view_push(s: Seq<OutlineNode>, x: OutlineNode)
    ensures
        nodes_view(s.push(x)) == nodes_view(s).push(node_view(x)),
{
    assert(s.push(x).drop_last() == s);
}

fn build_outline_node(
    tree: &BookmarkTree,
    id: usize,
    visited: &mut HashSet<usize>,
    depth: u32,
) -> (r: Option<OutlineNode>)
    requires
        id < tree.entries@.len(),
        depth <= MAX_OUTLINE_DEPTH + 1,
        vstd::std_specs::hash::obeys_key_model::<usize>(),
    ensures
        ({
            let (node, after) = build_node(tree.entries@, id, old(visited)@, depth as nat);
            &&& final(visited)@ == after
            &&& match r {
                Some(n) => node == Some(node_view(n)),
                None => node is None,
            }
        }),
    decreases depth_room(depth as nat), 0nat, 0nat,
{
    if depth > MAX_OUTLINE_DEPTH || !visited.insert(id) {
        return None;
    }
    let entry = &tree.entries[id];
    let children = build_outline_siblings(tree, entry.first_child, visited, depth + 1);
    Some(OutlineNode { title: entry.title.clone(), page_index: entry.page_index, children })
}

fn build_outline_siblings(
    tree: &BookmarkTree,
    start: Option<usize>,
    visited: &mut HashSet<usize>,
    depth: u32,
) -> (r: Vec<OutlineNode>)
    requires
        depth <= MAX_OUTLINE_DEPTH + 1,
        vstd::std_specs::hash::obeys_key_model::<usize>(),
    ensures
        ({
            let (nodes, after) = build_siblings(
                tree.entries@,
                start,
                old(visited)@,
                depth as nat,
                tree.entries@.len(),
            );
            &&& final(visited)@ == after
            &&& nodes_view(r@) == nodes
        }),
    decreases depth_room(depth as nat), 1nat, tree.entries@.len(),
{
    let ghost t = tree.entries@;
    let ghost total = build_siblings(t, start, visited@, depth as nat, t.len());
    let mut result: Vec<OutlineNode> = Vec::new();
    let mut next = start;
    let mut fuel: usize = tree.entries.len();
    while fuel > 0 && next.is_some() && next.unwrap() < tree.entries.len()
        invariant
            t == tree.entries@,
            depth <= MAX_OUTLINE_DEPTH + 1,
            vstd::std_specs::hash::obeys_key_model::<usize>(),
            fuel <= t.len(),
            nodes_view(result@) + build_siblings(t, next, visited@, depth as nat, fuel as nat).0
                == total.0,
            build_siblings(t, next, visited@, depth as nat, fuel as nat).1 == total.1,
        decreases fuel,
    {
        let id = next.unwrap();
        let built = build_outline_node(tree, id, visited, depth);
        let ghost rest = build_siblings(
            t,
            t[id as int].next_sibling,
            visited@,
            depth as nat,
            (fuel - 1) as nat,
        );
        next = tree.entries[id].next_sibling;
        match built {
            Some(n) => {
                proof {
                    lemma_nodes_view_push(result@, n);
                    assert(nodes_view(result@).push(node_view(n)) + rest.0 =~= nodes_view(result@)
                        + (seq![node_view(n)] + rest.0));
                }
                result.push(n);
            },
            None => {},
        }
        fuel -= 1;
    }
    proof {
        assert(build_siblings(t, next, visited@, depth as nat, fuel as nat).0 =~= Seq::<OutlineTree>::empty());
        assert(nodes_view(result@) + Seq::<OutlineTree>::empty() =~= nodes_view(result@));
    }
    result
}

/// Builds the outline of a bookmark graph: one node per top-level bookmark
/// in sibling order, each with its subtree, taking each bookmark at most once
/// and nesting at most `MAX_OUTLINE_DEPTH + 1` levels. A link to a position
/// outside `entries` ends its chain.
pub fn build_outline(tree: &BookmarkTree) -> (r: Vec<OutlineNode>)
    ensures
        nodes_view(r@) == outline_spec(*tree),
{
    let mut visited: HashSet<usize> = HashSet::new();
    assert(visited@ == Set::<usize>::empty());
    build_outline_siblings(tree, tree.root, &mut visited, 0)
}

/// The number of nodes of an outline tree.
pub open spec fn tree_size(t: OutlineTree) -> nat
    decreases t,
{
    1 + forest_size(t.children)
}

/// The number of nodes of a sequence of outline trees.
pub open spec fn forest_size(s: Seq<OutlineTree>) -> nat
    decreases s,
{
    if s.len() == 0 {
        0
    } else {
        tree_size(s[0]) + forest_size(s.drop_first())
    }
}

/// The bookmarks taken after `v` are those of `v` and new ones that exist,
/// and as many new ones as there are nodes built.
pub open spec fn takes(v: Set<usize>, after: Set<usize>, n: nat, built: nat) -> bool {
    &&& v.subset_of(after)
    &&& after.finite()
    &&& forall|x: usize| #[trigger] after.contains(x) && !v.contains(x) ==> x < n
    &&& after.len() == v.len() + built
}

proof fn lemma_node_takes(t: Seq<BookmarkEntry>, id: usize, v: Set<usize>, depth: nat)
    requires
        v.finite(),
    ensures
        ({
            let (node, after) = build_node(t, id, v, depth);
            takes(
                v,
                after,
                t.len(),
                match node {
                    Some(n) => tree_size(n),
                    None => 0,
                },
            )
        }),
    decreases depth_room(depth), 0nat, 0nat,
{
    if depth > MAX_OUTLINE_DEPTH || v.contains(id) || id >= t.len() {
    } else {
        let v1 = v.insert(id);
        lemma_siblings_takes(t, t[id as int].first_child, v1, depth + 1, t.len());
    }
}

proof fn lemma_siblings_takes(
    t: Seq<BookmarkEntry>,
    next: Option<usize>,
    v: Set<usize>,
    depth: nat,
    fuel: nat,
)
    requires
        v.finite(),
    ensures
        ({
            let (nodes, after) = build_siblings(t, next, v, depth, fuel);
            takes(v, after, t.len(), forest_size(nodes))
        }),
    decreases depth_room(depth), 1nat, fuel,
{
    match next {
        None => {},
        Some(id) => {
            if fuel == 0 || id >= t.len() {
            } else {
                let (node, v1) = build_node(t, id, v, depth);
                lemma_node_takes(t, id, v, depth);
                lemma_siblings_takes(t, t[id as int].next_sibling, v1, depth, (fuel - 1) as nat);
                let (rest, v2) = build_siblings(t, t[id as int].next_sibling, v1, depth, (fuel - 1) as nat);
                match node {
                    Some(n) => {
                        assert((seq![n] + rest).drop_first() =~= rest);
                    },
                    None => {},
                }
            }
        },
    }
}

/// The outline has at most one node per bookmark: however the bookmark
/// links are tangled (even in cycles), no bookmark is taken twice.
pub proof fn law_outline_size(tree: BookmarkTree)
    ensures
        forest_size(outline_spec(tree)) <= tree.entries@.len(),
{
    let t = tree.entries@;
    let v0 = Set::<usize>::empty();
    lemma_siblings_takes(t, tree.root, v0, 0, t.len());
    let after = build_siblings(t, tree.root, v0, 0, t.len()).1;
    let ids = Seq::new(t.len(), |i: int| i as usize);
    ids.lemma_cardinality_of_set();
    assert forall|x: usize| after.contains(x) implies ids.to_set().contains(x) by {
        assert(ids[x as int] == x);
    }
    vstd::set_lib::lemma_len_subset(after, ids.to_set());
}

/// The number of levels of an outline tree.
pub open spec fn tree_depth(t: OutlineTree) -> nat
    decreases t,
{
    1 + forest_depth(t.children)
}

/// The number of levels of the deepest tree in a sequence.
pub open spec fn forest_depth(s: Seq<OutlineTree>) -> nat
    decreases s,
{
    if s.len() == 0 {
        0
    } else {
        let a = tree_depth(s[0]);
        let b = forest_depth(s.drop_first());
        if a >= b {
            a
        } else {
            b
        }
    }
}

proof fn lemma_node_depth(t: Seq<BookmarkEntry>, id: usize, v: Set<usize>, depth: nat)
    ensures
        build_node(t, id, v, depth).0 matches Some(n) ==> depth <= MAX_OUTLINE_DEPTH && tree_depth(n)
            + depth <= MAX_OUTLINE_DEPTH + 1,
    decreases depth_room(depth), 0nat, 0nat,
{
    if depth > MAX_OUTLINE_DEPTH || v.contains(id) || id >= t.len() {
    } else {
        lemma_siblings_depth(t, t[id as int].first_child, v.insert(id), depth + 1, t.len());
    }
}

proof fn lemma_siblings_depth(
    t: Seq<BookmarkEntry>,
    next: Option<usize>,
    v: Set<usize>,
    depth: nat,
    fuel: nat,
)
    ensures
        forest_depth(build_siblings(t, next, v, depth, fuel).0) + depth <= MAX_OUTLINE_DEPTH + 1
            || forest_depth(build_siblings(t, next, v, depth, fuel).0) == 0,
    decreases depth_room(depth), 1nat, fuel,
{
    match next {
        None => {},
        Some(id) => {
            if fuel == 0 || id >= t.len() {
            } else {
                let (node, v1) = build_node(t, id, v, depth);
                lemma_node_depth(t, id, v, depth);
                lemma_siblings_depth(t, t[id as int].next_sibling, v1, depth, (fuel - 1) as nat);
                let (rest, v2) = build_siblings(t, t[id as int].next_sibling, v1, depth, (fuel - 1) as nat);
                match node {
                    Some(n) => {
                        assert((seq![n] + rest).drop_first() =~= rest);
                    },
                    None => {},
                }
            }
        },
    }
}

/// The outline nests at most `MAX_OUTLINE_DEPTH + 1` levels, however deep
/// the bookmark links go.
pub proof fn law_outline_depth(tree: BookmarkTree)
    ensures
        forest_depth(outline_spec(tree)) <= MAX_OUTLINE_DEPTH + 1,
{
    lemma_siblings_depth(tree.entries@, tree.root, Set::empty(), 0, tree.entries@.len());
}

/// Every node of `s`, at every depth, carries the title and the
/// destination page of one of the bookmarks `t`.
pub open spec fn from_entries(t: Seq<BookmarkEntry>, s: Seq<OutlineTree>) -> bool
    decreases s,
{
    forall|i: int|
        0 <= i < s.len() ==> (exists|id: int|
            0 <= id < t.len() && (#[trigger] s[i]).title == t[id].title@ && s[i].page_index
                == (#[trigger] t[id]).page_index) && from_entries(t, s[i].children)
}

/// A node built from bookmark `id` has that bookmark's title and
/// destination page, whether or not it has children, and so have all the
/// nodes below it (each from its own bookmark).
pub proof fn law_node_keeps_bookmark(t: Seq<BookmarkEntry>, id: usize, visited: Set<usize>, depth: nat)
    ensures
        build_node(t, id, visited, depth).0 matches Some(n) ==> {
            &&& id < t.len()
            &&& n.title == t[id as int].title@
            &&& n.page_index == t[id as int].page_index
            &&& from_entries(t, n.children)
        },
    decreases depth_room(depth), 0nat, 0nat,
{
    if depth > MAX_OUTLINE_DEPTH || visited.contains(id) || id >= t.len() {
    } else {
        lemma_siblings_keep_bookmarks(t, t[id as int].first_child, visited.insert(id), depth + 1, t.len());
    }
}

proof fn lemma_siblings_keep_bookmarks(
    t: Seq<BookmarkEntry>,
    next: Option<usize>,
    v: Set<usize>,
    depth: nat,
    fuel: nat,
)
    ensures
        from_entries(t, build_siblings(t, next, v, depth, fuel).0),
    decreases depth_room(depth), 1nat, fuel,
{
    match next {
        None => {
            assert(from_entries(t, Seq::<OutlineTree>::empty()));
        },
        Some(id) => {
            if fuel == 0 || id >= t.len() {
                assert(from_entries(t, Seq::<OutlineTree>::empty()));
            } else {
                let (node, v1) = build_node(t, id, v, depth);
                law_node_keeps_bookmark(t, id, v, depth);
                lemma_siblings_keep_bookmarks(t, t[id as int].next_sibling, v1, depth, (fuel - 1) as nat);
                let (rest, v2) = build_siblings(t, t[id as int].next_sibling, v1, depth, (fuel - 1) as nat);
                match node {
                    Some(n) => {
                        let s = seq![n] + rest;
                        assert forall|i: int| 0 <= i < s.len() implies (exists|j: int|
                            0 <= j < t.len() && (#[trigger] s[i]).title == t[j].title@ && s[i].page_index
                                == (#[trigger] t[j]).page_index) && from_entries(t, s[i].children) by {
                            if i == 0 {
                                assert(s[0] == n);
                                assert(t[id as int] == t[id as int]);
                            } else {
                                assert(s[i] == rest[i - 1]);
                            }
                        }
                    },
                    None => {},
                }
            }
        },
    }
}

/// Every node of the outline, at every depth, carries the title and the
/// destination page of a bookmark of the document: building the outline
/// never drops or changes a bookmark's page.
pub proof fn law_outline_keeps_bookmarks(tree: BookmarkTree)
    ensures
        from_entries(tree.entries@, outline_spec(tree)),
{
    lemma_siblings_keep_bookmarks(tree.entries@, tree.root, Set::empty(), 0, tree.entries@.len());
}

} // verus!
