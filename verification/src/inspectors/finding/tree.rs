use vstd::prelude::*;
use vstd::string::{StrSliceExecFns, StringExecFns};
use vstd::set_lib::{lemma_int_range, lemma_len_subset, set_int_range};
use crate::inspectors::finding::{
    child_entries, first_position, is_lasso, is_root, node_edge, node_ids_distinct, reaches_cycle, rels_sound_before,
    rel_fault, has_node, root_positions, validation_result, EvidenceGraph, EvidenceNode, Finding, GraphValidationError,
};

verus! {

// ---------------------------------------------------------------------------
// Walks along relationships.
// ---------------------------------------------------------------------------

/// A non-empty sequence of nodes (by position), each led to by a
/// relationship from the one before.
pub open spec fn is_walk(g: EvidenceGraph, p: Seq<int>) -> bool {
    &&& p.len() >= 1
    &&& forall|j: int| 0 <= j < p.len() ==> 0 <= #[trigger] p[j] < g.nodes@.len()
    &&& forall|j: int| 0 <= j < p.len() - 1 ==> node_edge(g, #[trigger] p[j], p[j + 1])
}

/// Node `b` can be reached from node `a` along relationships (every node
/// reaches itself).
pub open spec fn reaches(g: EvidenceGraph, a: int, b: int) -> bool {
    exists|p: Seq<int>| #[trigger] is_walk(g, p) && p[0] == a && p.last() == b
}

/// The graph passed `validate`.
pub open spec fn is_valid(g: EvidenceGraph) -> bool {
    validation_result(g, Ok(()))
}

proof fn lemma_pigeonhole(p: Seq<int>, n: int)
    requires
        0 <= n < p.len(),
        forall|j: int| 0 <= j < p.len() ==> 0 <= #[trigger] p[j] < n,
    ensures
        exists|a: int, b: int| 0 <= a < b < p.len() && p[a] == p[b],
{
    if !exists|a: int, b: int| 0 <= a < b < p.len() && p[a] == p[b] {
        assert(p.no_duplicates()) by {
            assert forall|a: int, b: int| 0 <= a < p.len() && 0 <= b < p.len() && a != b implies p[a] != p[b] by {
                if a > b {
                    assert(!(p[b] == p[a]));
                }
            }
        }
        p.unique_seq_to_set();
        lemma_int_range(0, n);
        assert(p.to_set().subset_of(set_int_range(0, n))) by {
            assert forall|x: int| p.to_set().contains(x) implies set_int_range(0, n).contains(x) by {
                let j = choose|j: int| 0 <= j < p.len() && p[j] == x;
            }
        }
        lemma_len_subset(p.to_set(), set_int_range(0, n));
    }
}

/// A walk longer than the graph has nodes repeats a node, so a cycle can be
/// reached from its start.
pub proof fn lemma_long_walk_reaches_cycle(g: EvidenceGraph, p: Seq<int>)
    requires
        is_walk(g, p),
        p.len() > g.nodes@.len(),
    ensures
        reaches_cycle(g, p[0]),
{
    lemma_pigeonhole(p, g.nodes@.len() as int);
    let (a, b) = choose|a: int, b: int| 0 <= a < b < p.len() && p[a] == p[b];
    let q = p.take(b + 1);
    assert(q[a] == q.last());
    assert forall|j: int| 0 <= j < q.len() - 1 implies node_edge(g, #[trigger] q[j], q[j + 1]) by {
        assert(q[j] == p[j] && q[j + 1] == p[j + 1]);
    }
    assert(is_lasso(g, q));
}

/// In a valid graph, a walk has at most as many steps as the graph has nodes.
pub proof fn lemma_valid_walk_short(g: EvidenceGraph, p: Seq<int>)
    requires
        is_valid(g),
        is_walk(g, p),
    ensures
        p.len() <= g.nodes@.len(),
{
    if p.len() > g.nodes@.len() {
        lemma_long_walk_reaches_cycle(g, p);
        assert(!reaches_cycle(g, p[0]));
    }
}

/// Some node lies `k` relationships before position `i`'s node: a
/// relationship points at every node that is not a root.
proof fn lemma_predecessor(g: EvidenceGraph, i: int) -> (q: int)
    requires
        is_valid(g),
        0 <= i < g.nodes@.len(),
        !is_root(g, i),
    ensures
        0 <= q < g.nodes@.len(),
        node_edge(g, q, i),
{
    let k = choose|k: int| 0 <= k < g.relationships@.len() && #[trigger] g.relationships@[k].to@ == g.nodes@[i].id@;
    assert(!rel_fault(g, k));
    assert(has_node(g, g.relationships@[k].from@));
    let q = choose|q: int| 0 <= q < g.nodes@.len() && #[trigger] g.nodes@[q].id@ == g.relationships@[k].from@;
    assert(node_edge(g, q, i));
    q
}

proof fn lemma_root_above(g: EvidenceGraph, w: Seq<int>) -> (r: Seq<int>)
    requires
        is_valid(g),
        is_walk(g, w),
    ensures
        is_walk(g, r),
        r.last() == w.last(),
        is_root(g, r[0]),
    decreases g.nodes@.len() + 1 - w.len(),
{
    lemma_valid_walk_short(g, w);
    if is_root(g, w[0]) {
        w
    } else {
        let q = lemma_predecessor(g, w[0]);
        let w2 = seq![q] + w;
        assert forall|j: int| 0 <= j < w2.len() - 1 implies node_edge(g, #[trigger] w2[j], w2[j + 1]) by {
            if j > 0 {
                assert(w2[j] == w[j - 1] && w2[j + 1] == w[j]);
            }
        }
        assert forall|j: int| 0 <= j < w2.len() implies 0 <= #[trigger] w2[j] < g.nodes@.len() by {
            if j > 0 {
                assert(w2[j] == w[j - 1]);
            }
        }
        lemma_valid_walk_short(g, w2);
        lemma_root_above(g, w2)
    }
}

/// In a valid graph every node can be reached from a root: following the
/// relationships back from any node ends at a node nothing points at.
pub proof fn lemma_valid_graph_rooted(g: EvidenceGraph, i: int)
    requires
        is_valid(g),
        0 <= i < g.nodes@.len(),
    ensures
        exists|r: int| 0 <= r < g.nodes@.len() && #[trigger] is_root(g, r) && reaches(g, r, i),
{
    let w = seq![i];
    let p = lemma_root_above(g, w);
    assert(reaches(g, p[0], i));
}

} // verus!

verus! {

// ---------------------------------------------------------------------------
// The evidence graph drawn as a tree.
// ---------------------------------------------------------------------------

/// A line of the drawing of an evidence graph.
#[derive(Clone, Debug)]
pub enum TreeLine {
    /// A node, as its full text.
    Node(String),
    /// A relationship: the indentation before it, and its relation.
    Relation(String, String),
}

/// A line as plain values: its text, or its indentation and relation.
pub type LineView = (Seq<char>, Option<Seq<char>>);

pub open spec fn tree_line_view(l: TreeLine) -> LineView {
    match l {
        TreeLine::Node(t) => (t@, None),
        TreeLine::Relation(p, r) => (p@, Some(r@)),
    }
}

pub open spec fn tree_lines_view(ls: Seq<TreeLine>) -> Seq<LineView> {
    ls.map_values(|l: TreeLine| tree_line_view(l))
}

/// " (value)" after a node's label and type, when it has a value.
pub open spec fn value_suffix(v: Seq<char>) -> Seq<char> {
    if v.len() == 0 { seq![] } else { " ("@ + v + ")"@ }
}

/// How a node is drawn below the indentation `indent`.
pub open spec fn node_text(indent: Seq<char>, n: EvidenceNode) -> Seq<char> {
    "    "@ + indent + (if indent.len() == 0 { seq![] } else { " "@ }) + n.label@ + " ["@ + n.node_type@ + "]"@
        + value_suffix(n.value@)
}

/// The drawing of node `i` and, below it, of each node a relationship leads
/// to from it; `fuel` bounds the depth (a valid graph never exhausts it).
pub open spec fn node_lines(g: EvidenceGraph, i: int, indent: Seq<char>, is_last: bool, fuel: nat) -> Seq<LineView>
    decreases fuel, 0int,
{
    if fuel == 0 || !(0 <= i < g.nodes@.len()) {
        seq![]
    } else {
        let node = g.nodes@[i];
        let kids = child_entries(g, node.id@, g.relationships@.len() as int);
        let next = indent + (if is_last { "    "@ } else { "│   "@ });
        seq![(node_text(indent, node), None::<Seq<char>>)] + kids_lines(g, kids, 0, next, (fuel - 1) as nat)
    }
}

/// The drawing of the children `kids[k..]`: each relation, then the child.
pub open spec fn kids_lines(g: EvidenceGraph, kids: Seq<(int, int)>, k: int, next: Seq<char>, fuel: nat) -> Seq<LineView>
    decreases fuel, kids.len() - k,
{
    if k < 0 || k >= kids.len() {
        seq![]
    } else {
        let e = kids[k];
        seq![("    "@ + next, Some(g.relationships@[e.0].relation@))] + node_lines(g, e.1, next, k == kids.len() - 1, fuel)
            + kids_lines(g, kids, k + 1, next, fuel)
    }
}

/// The drawings of the trees under the roots `roots`, in order.
pub open spec fn forest_lines(g: EvidenceGraph, roots: Seq<int>) -> Seq<LineView>
    decreases roots.len(),
{
    if roots.len() == 0 {
        seq![]
    } else {
        forest_lines(g, roots.drop_last()) + node_lines(g, roots.last(), seq![], true, g.nodes@.len())
    }
}

/// Node `j` lies under some root.
pub open spec fn under_root(g: EvidenceGraph, j: int) -> bool {
    exists|r: int| 0 <= r < g.nodes@.len() && #[trigger] is_root(g, r) && reaches(g, r, j)
}

/// The nodes among the first `upto` that lie under no root, drawn alone.
pub open spec fn leftover_lines(g: EvidenceGraph, upto: int) -> Seq<LineView>
    decreases upto,
{
    if upto <= 0 {
        seq![]
    } else {
        leftover_lines(g, upto - 1) + if under_root(g, upto - 1) {
            Seq::<LineView>::empty()
        } else {
            seq![(node_text(seq![], g.nodes@[upto - 1]), None::<Seq<char>>)]
        }
    }
}

/// The drawing of a valid evidence graph: the tree under each root, in node
/// order, then every node under no root.
pub open spec fn evidence_tree(g: EvidenceGraph) -> Seq<LineView> {
    forest_lines(g, root_positions(g, g.nodes@.len() as int)) + leftover_lines(g, g.nodes@.len() as int)
}

/// The ids of the nodes reachable from node `i`.
pub open spec fn reach_ids(g: EvidenceGraph, i: int) -> Set<Seq<char>> {
    Set::new(|id: Seq<char>| exists|j: int| 0 <= j < g.nodes@.len() && reaches(g, i, j) && #[trigger] g.nodes@[j].id@ == id)
}

} // verus!

verus! {

proof fn lemma_first_position_distinct(g: EvidenceGraph, c: int)
    requires
        node_ids_distinct(g),
        0 <= c < g.nodes@.len(),
    ensures
        first_position(g, g.nodes@[c].id@, g.nodes@.len() as int) == Some(c),
{
    super::lemma_first_position(g, g.nodes@[c].id@, g.nodes@.len() as int);
    match first_position(g, g.nodes@[c].id@, g.nodes@.len() as int) {
        Some(i) => {
            if i < c {
                assert(g.nodes@[i].id@ != g.nodes@[c].id@);
            } else if i > c {
                assert(g.nodes@[c].id@ != g.nodes@[c].id@);
            }
        },
        None => {
            assert(g.nodes@[c].id@ != g.nodes@[c].id@);
        },
    }
}

/// What the entries of `child_entries` are, and that every relationship from
/// the parent to an existing node is among them.
proof fn lemma_child_entries(g: EvidenceGraph, parent: Seq<char>, upto: int)
    requires
        0 <= upto <= g.relationships@.len(),
    ensures
        forall|e: int|
            0 <= e < child_entries(g, parent, upto).len() ==> {
                let x = #[trigger] child_entries(g, parent, upto)[e];
                &&& 0 <= x.0 < upto
                &&& g.relationships@[x.0].from@ == parent
                &&& 0 <= x.1 < g.nodes@.len()
                &&& g.nodes@[x.1].id@ == g.relationships@[x.0].to@
                &&& first_position(g, g.relationships@[x.0].to@, g.nodes@.len() as int) == Some(x.1)
            },
        forall|k: int|
            0 <= k < upto && #[trigger] g.relationships@[k].from@ == parent && first_position(
                g,
                g.relationships@[k].to@,
                g.nodes@.len() as int,
            ) is Some ==> exists|e: int|
                0 <= e < child_entries(g, parent, upto).len() && (#[trigger] child_entries(g, parent, upto)[e]).0 == k,
    decreases upto,
{
    if upto > 0 {
        lemma_child_entries(g, parent, upto - 1);
        let prev = child_entries(g, parent, upto - 1);
        let cur = child_entries(g, parent, upto);
        let rel = g.relationships@[upto - 1];
        super::lemma_first_position(g, rel.to@, g.nodes@.len() as int);
        assert forall|e: int| 0 <= e < prev.len() implies cur[e] == prev[e] by {}
        assert forall|k: int|
            0 <= k < upto && #[trigger] g.relationships@[k].from@ == parent && first_position(
                g,
                g.relationships@[k].to@,
                g.nodes@.len() as int,
            ) is Some implies exists|e: int| 0 <= e < cur.len() && (#[trigger] cur[e]).0 == k by {
            if k < upto - 1 {
                let e = choose|e: int| 0 <= e < prev.len() && (#[trigger] prev[e]).0 == k;
                assert(cur[e] == prev[e]);
            } else {
                assert(cur.last().0 == k);
            }
        }
    }
}

/// Each child entry of node `i` is a node that a relationship leads to from `i`.
proof fn lemma_kid_is_edge(g: EvidenceGraph, i: int, e: int)
    requires
        0 <= i < g.nodes@.len(),
        0 <= e < child_entries(g, g.nodes@[i].id@, g.relationships@.len() as int).len(),
    ensures
        node_edge(g, i, child_entries(g, g.nodes@[i].id@, g.relationships@.len() as int)[e].1),
        0 <= child_entries(g, g.nodes@[i].id@, g.relationships@.len() as int)[e].1 < g.nodes@.len(),
        0 <= child_entries(g, g.nodes@[i].id@, g.relationships@.len() as int)[e].0 < g.relationships@.len(),
{
    lemma_child_entries(g, g.nodes@[i].id@, g.relationships@.len() as int);
    let x = child_entries(g, g.nodes@[i].id@, g.relationships@.len() as int)[e];
    assert(g.relationships@[x.0].from@ == g.nodes@[i].id@);
}

/// Each node a relationship leads to from `i` is a child entry of `i`.
proof fn lemma_edge_is_kid(g: EvidenceGraph, i: int, c: int) -> (e: int)
    requires
        node_ids_distinct(g),
        0 <= i < g.nodes@.len(),
        0 <= c < g.nodes@.len(),
        node_edge(g, i, c),
    ensures
        0 <= e < child_entries(g, g.nodes@[i].id@, g.relationships@.len() as int).len(),
        child_entries(g, g.nodes@[i].id@, g.relationships@.len() as int)[e].1 == c,
{
    let m = g.relationships@.len() as int;
    let parent = g.nodes@[i].id@;
    lemma_child_entries(g, parent, m);
    let k = choose|k: int|
        0 <= k < m && #[trigger] g.relationships@[k].from@ == g.nodes@[i].id@ && g.relationships@[k].to@
            == g.nodes@[c].id@;
    lemma_first_position_distinct(g, c);
    let e = choose|e: int| 0 <= e < child_entries(g, parent, m).len() && (#[trigger] child_entries(g, parent, m)[e]).0 == k;
    e
}

proof fn lemma_reaches_self(g: EvidenceGraph, i: int)
    requires
        0 <= i < g.nodes@.len(),
    ensures
        reaches(g, i, i),
{
    let p = seq![i];
    assert(is_walk(g, p));
}

proof fn lemma_reaches_step(g: EvidenceGraph, a: int, c: int, j: int)
    requires
        0 <= a < g.nodes@.len(),
        node_edge(g, a, c),
        reaches(g, c, j),
    ensures
        reaches(g, a, j),
{
    let p = choose|p: Seq<int>| #[trigger] is_walk(g, p) && p[0] == c && p.last() == j;
    let q = seq![a] + p;
    assert forall|x: int| 0 <= x < q.len() implies 0 <= #[trigger] q[x] < g.nodes@.len() by {
        if x > 0 {
            assert(q[x] == p[x - 1]);
        }
    }
    assert forall|x: int| 0 <= x < q.len() - 1 implies node_edge(g, #[trigger] q[x], q[x + 1]) by {
        if x > 0 {
            assert(q[x] == p[x - 1] && q[x + 1] == p[x]);
        }
    }
    assert(is_walk(g, q));
}

/// A walk from `i` of more than one node goes on from one of `i`'s children.
proof fn lemma_reaches_through_kid(g: EvidenceGraph, i: int, j: int) -> (e: int)
    requires
        node_ids_distinct(g),
        0 <= i < g.nodes@.len(),
        reaches(g, i, j),
        j != i,
    ensures
        0 <= e < child_entries(g, g.nodes@[i].id@, g.relationships@.len() as int).len(),
        reaches(g, child_entries(g, g.nodes@[i].id@, g.relationships@.len() as int)[e].1, j),
{
    let p = choose|p: Seq<int>| #[trigger] is_walk(g, p) && p[0] == i && p.last() == j;
    assert(p.len() >= 2);
    let c = p[1];
    assert(node_edge(g, p[0], p[1]));
    let e = lemma_edge_is_kid(g, i, c);
    let q = p.drop_first();
    assert forall|x: int| 0 <= x < q.len() - 1 implies node_edge(g, #[trigger] q[x], q[x + 1]) by {
        assert(q[x] == p[x + 1] && q[x + 1] == p[x + 2]);
    }
    assert(is_walk(g, q));
    e
}

} // verus!

verus! {

/// The ids held by `v`.
pub open spec fn id_set(v: Seq<String>) -> Set<Seq<char>> {
    Set::new(|id: Seq<char>| exists|k: int| 0 <= k < v.len() && #[trigger] v[k]@ == id)
}

/// The ids reachable from the children `kids[..k]`.
pub open spec fn kids_reach(g: EvidenceGraph, kids: Seq<(int, int)>, k: int) -> Set<Seq<char>> {
    Set::new(|id: Seq<char>| exists|e: int| 0 <= e < k && #[trigger] reach_ids(g, kids[e].1).contains(id))
}

impl EvidenceGraph {
    /// The child entries of a node by position: for each relationship from
    /// `parent` to an existing node, the relationship's position and the
    /// target's.
    fn child_positions(&self, parent: &String) -> (r: Vec<(usize, usize)>)
        ensures
            r@.len() == child_entries(*self, parent@, self.relationships@.len() as int).len(),
            forall|e: int|
                0 <= e < r@.len() ==> (#[trigger] r@[e]).0 as int == child_entries(
                    *self,
                    parent@,
                    self.relationships@.len() as int,
                )[e].0 && r@[e].1 as int == child_entries(*self, parent@, self.relationships@.len() as int)[e].1,
    {
        let m = self.relationships.len();
        let mut r: Vec<(usize, usize)> = Vec::new();
        let mut k: usize = 0;
        while k < m
            invariant
                m == self.relationships@.len(),
                k <= m,
                r@.len() == child_entries(*self, parent@, k as int).len(),
                forall|e: int|
                    0 <= e < r@.len() ==> (#[trigger] r@[e]).0 as int == child_entries(*self, parent@, k as int)[e].0
                        && r@[e].1 as int == child_entries(*self, parent@, k as int)[e].1,
            decreases m - k,
        {
            if self.relationships[k].from == *parent {
                if let Some(i) = self.position_of(&self.relationships[k].to) {
                    r.push((k, i));
                }
            }
            k += 1;
        }
        r
    }
}

fn node_line(indent: &String, node: &EvidenceNode) -> (r: String)
    ensures
        r@ == node_text(indent@, *node),
{
    let mut s = String::from_str("    ");
    s.append(indent.as_str());
    if indent.as_str().unicode_len() > 0 {
        s.append(" ");
    }
    s.append(node.label.as_str());
    s.append(" [");
    s.append(node.node_type.as_str());
    s.append("]");
    if node.value.as_str().unicode_len() > 0 {
        s.append(" (");
        s.append(node.value.as_str());
        s.append(")");
    }
    proof {
        reveal_strlit("");
    }
    s
}

fn push_id(printed: &mut Vec<String>, id: String)
    ensures
        id_set(final(printed)@) == id_set(old(printed)@).insert(id@),
        final(printed)@.len() == old(printed)@.len() + 1,
{
    let ghost before = printed@;
    printed.push(id);
    proof {
        assert forall|x: Seq<char>| #[trigger] id_set(printed@).contains(x) == id_set(before).insert(id@).contains(x) by {
            if id_set(printed@).contains(x) {
                let k = choose|k: int| 0 <= k < printed@.len() && #[trigger] printed@[k]@ == x;
                if k < before.len() {
                    assert(before[k]@ == x);
                }
            }
            if id_set(before).contains(x) {
                let k = choose|k: int| 0 <= k < before.len() && #[trigger] before[k]@ == x;
                assert(printed@[k]@ == x);
            }
            if x == id@ {
                assert(printed@[before.len() as int]@ == x);
            }
        }
        assert(id_set(printed@) =~= id_set(before).insert(id@));
    }
}

/// Draws node `i` and the tree below it, reached along the walk `path`, and
/// records the ids of the nodes drawn.
fn render(
    g: &EvidenceGraph,
    i: usize,
    indent: &String,
    is_last: bool,
    out: &mut Vec<TreeLine>,
    printed: &mut Vec<String>,
    Ghost(path): Ghost<Seq<int>>,
)
    requires
        is_valid(*g),
        is_walk(*g, path),
        path.last() == i as int,
    ensures
        tree_lines_view(final(out)@) == tree_lines_view(old(out)@) + node_lines(
            *g,
            i as int,
            indent@,
            is_last,
            (g.nodes@.len() + 1 - path.len()) as nat,
        ),
        id_set(final(printed)@) == id_set(old(printed)@).union(reach_ids(*g, i as int)),
    decreases g.nodes@.len() + 1 - path.len(),
{
    proof {
        lemma_valid_walk_short(*g, path);
    }
    let ghost fuel = (g.nodes@.len() + 1 - path.len()) as nat;
    let ghost out0 = tree_lines_view(out@);
    let ghost printed0 = id_set(printed@);
    let node = &g.nodes[i];
    let ghost id_i = node.id@;
    let ghost kids_spec = child_entries(*g, node.id@, g.relationships@.len() as int);
    let line = node_line(indent, node);
    let ghost before_push = tree_lines_view(out@);
    out.push(TreeLine::Node(line));
    proof {
        assert(tree_lines_view(out@) =~= before_push.push((line@, None::<Seq<char>>)));
    }
    push_id(printed, node.id.clone());
    let kids = g.child_positions(&node.id);
    let mut next = indent.clone();
    if is_last {
        next.append("    ");
    } else {
        next.append("│   ");
    }
    let ghost next_v = next@;
    proof {
        assert(node_lines(*g, i as int, indent@, is_last, fuel) == seq![(node_text(indent@, *node), None::<Seq<char>>)]
            + kids_lines(*g, kids_spec, 0, next_v, (fuel - 1) as nat));
        assert(kids_reach(*g, kids_spec, 0) =~= Set::<Seq<char>>::empty());
        assert(id_set(printed@) =~= printed0.insert(id_i).union(kids_reach(*g, kids_spec, 0)));
    }
    let mut k: usize = 0;
    while k < kids.len()
        invariant
            is_valid(*g),
            is_walk(*g, path),
            path.last() == i as int,
            path.len() <= g.nodes@.len(),
            fuel == (g.nodes@.len() + 1 - path.len()) as nat,
            i < g.nodes@.len(),
            id_i == g.nodes@[i as int].id@,
            kids_spec == child_entries(*g, id_i, g.relationships@.len() as int),
            kids@.len() == kids_spec.len(),
            forall|e: int|
                0 <= e < kids@.len() ==> (#[trigger] kids@[e]).0 as int == kids_spec[e].0 && kids@[e].1 as int
                    == kids_spec[e].1,
            next@ == next_v,
            k <= kids@.len(),
            tree_lines_view(out@) + kids_lines(*g, kids_spec, k as int, next_v, (fuel - 1) as nat) == out0 + node_lines(
                *g,
                i as int,
                indent@,
                is_last,
                fuel,
            ),
            id_set(printed@) == printed0.insert(id_i).union(kids_reach(*g, kids_spec, k as int)),
        decreases kids@.len() - k,
    {
        let (ri, ci) = kids[k];
        proof {
            lemma_kid_is_edge(*g, i as int, k as int);
        }
        let ghost path2 = path.push(ci as int);
        proof {
            assert forall|x: int| 0 <= x < path2.len() - 1 implies node_edge(*g, #[trigger] path2[x], path2[x + 1]) by {
                if x < path.len() - 1 {
                    assert(path2[x] == path[x] && path2[x + 1] == path[x + 1]);
                }
            }
            assert forall|x: int| 0 <= x < path2.len() implies 0 <= #[trigger] path2[x] < g.nodes@.len() by {
                if x < path.len() {
                    assert(path2[x] == path[x]);
                }
            }
            assert(is_walk(*g, path2));
        }
        let mut prefix = String::from_str("    ");
        prefix.append(next.as_str());
        let ghost before_rel = tree_lines_view(out@);
        let rel_line = TreeLine::Relation(prefix, g.relationships[ri].relation.clone());
        out.push(rel_line);
        proof {
            assert(tree_lines_view(out@) =~= before_rel.push(tree_line_view(rel_line)));
        }
        let ghost before_child = tree_lines_view(out@);
        let ghost printed_before = id_set(printed@);
        render(g, ci, &next, k == kids.len() - 1, out, printed, Ghost(path2));
        proof {
            let f1 = (fuel - 1) as nat;
            assert(kids_lines(*g, kids_spec, k as int, next_v, f1) == seq![
                ("    "@ + next_v, Some(g.relationships@[kids_spec[k as int].0].relation@)),
            ] + node_lines(*g, kids_spec[k as int].1, next_v, k == kids_spec.len() - 1, f1) + kids_lines(
                *g,
                kids_spec,
                k + 1,
                next_v,
                f1,
            ));
            assert(tree_lines_view(out@) + kids_lines(*g, kids_spec, k + 1, next_v, f1) =~= before_rel + kids_lines(
                *g,
                kids_spec,
                k as int,
                next_v,
                f1,
            ));
            assert(id_set(printed@) =~= printed0.insert(id_i).union(kids_reach(*g, kids_spec, k + 1))) by {
                assert forall|x: Seq<char>| #[trigger] kids_reach(*g, kids_spec, k + 1).contains(x) == (kids_reach(
                    *g,
                    kids_spec,
                    k as int,
                ).contains(x) || reach_ids(*g, ci as int).contains(x)) by {
                    if kids_reach(*g, kids_spec, k + 1).contains(x) {
                        let e = choose|e: int| 0 <= e < k + 1 && #[trigger] reach_ids(*g, kids_spec[e].1).contains(x);
                        if e < k {
                            assert(kids_reach(*g, kids_spec, k as int).contains(x));
                        }
                    }
                    if kids_reach(*g, kids_spec, k as int).contains(x) {
                        let e = choose|e: int| 0 <= e < k && #[trigger] reach_ids(*g, kids_spec[e].1).contains(x);
                        assert(0 <= e < k + 1 && reach_ids(*g, kids_spec[e].1).contains(x));
                    }
                    if reach_ids(*g, ci as int).contains(x) {
                        assert(reach_ids(*g, kids_spec[k as int].1).contains(x));
                    }
                }
            }
        }
        k += 1;
    }
    proof {
        let all = kids_reach(*g, kids_spec, kids_spec.len() as int);
        assert(printed0.insert(id_i).union(all) =~= printed0.union(reach_ids(*g, i as int))) by {
            lemma_reaches_self(*g, i as int);
            assert(reach_ids(*g, i as int).contains(id_i));
            assert forall|x: Seq<char>| #[trigger] all.contains(x) implies reach_ids(*g, i as int).contains(x) by {
                let e = choose|e: int| 0 <= e < kids_spec.len() && #[trigger] reach_ids(*g, kids_spec[e].1).contains(x);
                lemma_kid_is_edge(*g, i as int, e);
                let j = choose|j: int| 0 <= j < g.nodes@.len() && reaches(*g, kids_spec[e].1, j) && #[trigger] g.nodes@[j].id@ == x;
                lemma_reaches_step(*g, i as int, kids_spec[e].1, j);
            }
            assert forall|x: Seq<char>| #[trigger] reach_ids(*g, i as int).contains(x) && x != id_i implies all.contains(x) by {
                let j = choose|j: int| 0 <= j < g.nodes@.len() && reaches(*g, i as int, j) && #[trigger] g.nodes@[j].id@ == x;
                assert(j != i);
                let e = lemma_reaches_through_kid(*g, i as int, j);
                assert(reach_ids(*g, kids_spec[e].1).contains(x));
            }
        }
        assert(kids_lines(*g, kids_spec, kids_spec.len() as int, next_v, (fuel - 1) as nat) =~= Seq::<LineView>::empty());
        assert(tree_lines_view(out@) =~= tree_lines_view(out@) + Seq::<LineView>::empty());
    }
}

} // verus!

verus! {

/// The ids reachable from the roots among the first `upto` nodes.
pub open spec fn roots_reach(g: EvidenceGraph, upto: int) -> Set<Seq<char>> {
    Set::new(
        |id: Seq<char>|
            exists|r: int| 0 <= r < upto && is_root(g, r) && #[trigger] reach_ids(g, r).contains(id),
    )
}

proof fn lemma_printed_means_under_root(g: EvidenceGraph, j: int)
    requires
        node_ids_distinct(g),
        0 <= j < g.nodes@.len(),
    ensures
        roots_reach(g, g.nodes@.len() as int).contains(g.nodes@[j].id@) == under_root(g, j),
{
    let n = g.nodes@.len() as int;
    let id = g.nodes@[j].id@;
    if roots_reach(g, n).contains(id) {
        let r = choose|r: int| 0 <= r < n && is_root(g, r) && #[trigger] reach_ids(g, r).contains(id);
        let j2 = choose|j2: int| 0 <= j2 < g.nodes@.len() && reaches(g, r, j2) && #[trigger] g.nodes@[j2].id@ == id;
        if j2 != j {
            if j2 < j {
                assert(g.nodes@[j2].id@ != g.nodes@[j].id@);
            } else {
                assert(g.nodes@[j].id@ != g.nodes@[j2].id@);
            }
        }
        assert(is_root(g, r) && reaches(g, r, j));
    }
    if under_root(g, j) {
        let r = choose|r: int| 0 <= r < n && #[trigger] is_root(g, r) && reaches(g, r, j);
        assert(reach_ids(g, r).contains(id));
    }
}

/// In a valid graph no node is left out of the trees under the roots: the
/// drawing is the trees alone.
pub proof fn lemma_valid_tree_has_no_loose_nodes(g: EvidenceGraph)
    requires
        is_valid(g),
    ensures
        leftover_lines(g, g.nodes@.len() as int) == Seq::<LineView>::empty(),
        evidence_tree(g) == forest_lines(g, root_positions(g, g.nodes@.len() as int)),
{
    lemma_no_leftovers_upto(g, g.nodes@.len() as int);
    assert(evidence_tree(g) =~= forest_lines(g, root_positions(g, g.nodes@.len() as int)));
}

proof fn lemma_no_leftovers_upto(g: EvidenceGraph, upto: int)
    requires
        is_valid(g),
        upto <= g.nodes@.len(),
    ensures
        leftover_lines(g, upto) == Seq::<LineView>::empty(),
    decreases upto,
{
    if upto > 0 {
        lemma_no_leftovers_upto(g, upto - 1);
        lemma_valid_graph_rooted(g, upto - 1);
        assert(under_root(g, upto - 1));
        assert(leftover_lines(g, upto) =~= Seq::<LineView>::empty());
    }
}

impl Finding {
    /// The evidence graph drawn as text, or the reason it cannot be: the
    /// error `validate` gives for an invalid graph. The drawing shows the
    /// tree under each root in node order, each node followed by the
    /// relationships that leave it and, indented, the nodes they lead to;
    /// then any node under no root.
    pub fn evidence_lines(&self) -> (r: Result<Vec<TreeLine>, GraphValidationError>)
        ensures
            match r {
                Ok(lines) => is_valid(self.graph) && tree_lines_view(lines@) == evidence_tree(self.graph),
                Err(e) => validation_result(self.graph, Err(e)),
            },
    {
        match self.graph.validate() {
            Err(e) => return Err(e),
            Ok(()) => {},
        }
        let g = &self.graph;
        let n = g.nodes.len();
        let mut out: Vec<TreeLine> = Vec::new();
        let mut printed: Vec<String> = Vec::new();
        let empty = String::new();
        let mut i: usize = 0;
        proof {
            assert(tree_lines_view(out@) =~= Seq::<LineView>::empty());
            assert(id_set(printed@) =~= Set::<Seq<char>>::empty());
            assert(roots_reach(*g, 0) =~= Set::<Seq<char>>::empty());
        }
        while i < n
            invariant
                n == g.nodes@.len(),
                is_valid(*g),
                empty@ == Seq::<char>::empty(),
                i <= n,
                tree_lines_view(out@) == forest_lines(*g, root_positions(*g, i as int)),
                id_set(printed@) == roots_reach(*g, i as int),
            decreases n - i,
        {
            let ghost before = tree_lines_view(out@);
            let ghost printed_before = id_set(printed@);
            if !g.has_incoming(i) {
                let ghost path = seq![i as int];
                proof {
                    assert(is_walk(*g, path));
                }
                render(g, i, &empty, true, &mut out, &mut printed, Ghost(path));
                proof {
                    let prev = root_positions(*g, i as int);
                    assert(root_positions(*g, i + 1) == prev.push(i as int));
                    assert(prev.push(i as int).drop_last() == prev);
                    assert(id_set(printed@) =~= roots_reach(*g, i + 1)) by {
                        assert forall|x: Seq<char>| #[trigger] roots_reach(*g, i + 1).contains(x) == (roots_reach(
                            *g,
                            i as int,
                        ).contains(x) || reach_ids(*g, i as int).contains(x)) by {
                            if roots_reach(*g, i + 1).contains(x) {
                                let r = choose|r: int| 0 <= r < i + 1 && is_root(*g, r) && #[trigger] reach_ids(*g, r).contains(x);
                                if r < i {
                                    assert(roots_reach(*g, i as int).contains(x));
                                }
                            }
                            if roots_reach(*g, i as int).contains(x) {
                                let r = choose|r: int| 0 <= r < i && is_root(*g, r) && #[trigger] reach_ids(*g, r).contains(x);
                                assert(0 <= r < i + 1 && is_root(*g, r) && reach_ids(*g, r).contains(x));
                            }
                        }
                    }
                }
            } else {
                proof {
                    assert(root_positions(*g, i + 1) == root_positions(*g, i as int));
                    assert(id_set(printed@) =~= roots_reach(*g, i + 1)) by {
                        assert forall|x: Seq<char>| #[trigger] roots_reach(*g, i + 1).contains(x) implies roots_reach(
                            *g,
                            i as int,
                        ).contains(x) by {
                            let r = choose|r: int| 0 <= r < i + 1 && is_root(*g, r) && #[trigger] reach_ids(*g, r).contains(x);
                            assert(r != i);
                        }
                    }
                }
            }
            i += 1;
        }
        let ghost forest = tree_lines_view(out@);
        let mut j: usize = 0;
        proof {
            assert(forest + leftover_lines(*g, 0) =~= forest);
        }
        while j < n
            invariant
                n == g.nodes@.len(),
                is_valid(*g),
                empty@ == Seq::<char>::empty(),
                j <= n,
                forest == forest_lines(*g, root_positions(*g, n as int)),
                id_set(printed@) == roots_reach(*g, n as int),
                tree_lines_view(out@) == forest + leftover_lines(*g, j as int),
            decreases n - j,
        {
            let node = &g.nodes[j];
            let seen = crate::inspectors::project::holds_text(&printed, node.id.as_str());
            proof {
                lemma_printed_means_under_root(*g, j as int);
                assert(seen == id_set(printed@).contains(node.id@)) by {
                    if seen {
                        let k = choose|k: int| 0 <= k < crate::text::strings_view(printed@).len() && crate::text::strings_view(printed@)[k] == node.id@;
                        assert(printed@[k]@ == node.id@);
                    }
                    if id_set(printed@).contains(node.id@) {
                        let k = choose|k: int| 0 <= k < printed@.len() && #[trigger] printed@[k]@ == node.id@;
                        assert(crate::text::strings_view(printed@)[k] == node.id@);
                    }
                }
            }
            if !seen {
                let ghost before = tree_lines_view(out@);
                let line = node_line(&empty, node);
                out.push(TreeLine::Node(line));
                proof {
                    assert(tree_lines_view(out@) =~= before.push((line@, None::<Seq<char>>)));
                    assert(tree_lines_view(out@) =~= forest + leftover_lines(*g, j + 1));
                }
            } else {
                proof {
                    assert(leftover_lines(*g, j + 1) =~= leftover_lines(*g, j as int));
                }
            }
            j += 1;
        }
        Ok(out)
    }
}

} // verus!

verus! {

proof fn lemma_root_listed(g: EvidenceGraph, r: int, upto: int)
    requires
        0 <= r < upto,
        is_root(g, r),
    ensures
        root_positions(g, upto).len() > 0,
    decreases upto,
{
    if r < upto - 1 {
        lemma_root_listed(g, r, upto - 1);
    }
}

/// A graph that `validate` accepts (`is_valid`: `validate` returns `Ok`
/// exactly on such graphs) and that has at least one node has a root, a node
/// that no relationship points to: `roots`, which returns one node for each
/// of `root_positions(g, g.nodes@.len())`, is never empty for it.
pub proof fn lemma_valid_nonempty_graph_has_root(g: EvidenceGraph)
    requires
        is_valid(g),
        g.nodes@.len() > 0,
    ensures
        root_positions(g, g.nodes@.len() as int).len() > 0,
{
    lemma_valid_graph_rooted(g, 0);
    let r = choose|r: int| 0 <= r < g.nodes@.len() && #[trigger] is_root(g, r) && reaches(g, r, 0);
    lemma_root_listed(g, r, g.nodes@.len() as int);
}

} // verus!

verus! {

/// A closed walk: one that ends on the node it starts from, after at least
/// one relationship (a relationship from a node to itself is one).
pub open spec fn is_cycle(g: EvidenceGraph, p: Seq<int>) -> bool {
    &&& is_walk(g, p)
    &&& p.len() >= 2
    &&& p[0] == p.last()
}

/// The relationships of the graph close a cycle.
pub open spec fn has_cycle(g: EvidenceGraph) -> bool {
    exists|p: Seq<int>| #[trigger] is_cycle(g, p)
}

/// No node can reach a cycle exactly when the graph has no cycle.
pub proof fn lemma_reaching_cycle_iff_cycle(g: EvidenceGraph)
    ensures
        (exists|i: int| 0 <= i < g.nodes@.len() && #[trigger] reaches_cycle(g, i)) <==> has_cycle(g),
{
    if has_cycle(g) {
        let p = choose|p: Seq<int>| #[trigger] is_cycle(g, p);
        assert(p[0] == p.last());
        assert(is_lasso(g, p));
        assert(reaches_cycle(g, p[0]));
    }
    if exists|i: int| 0 <= i < g.nodes@.len() && #[trigger] reaches_cycle(g, i) {
        let i = choose|i: int| 0 <= i < g.nodes@.len() && #[trigger] reaches_cycle(g, i);
        let p = choose|p: Seq<int>| #[trigger] is_lasso(g, p) && p[0] == i;
        let j = choose|j: int| 0 <= j < p.len() - 1 && #[trigger] p[j] == p.last();
        let q = p.subrange(j, p.len() as int);
        assert forall|x: int| 0 <= x < q.len() implies 0 <= #[trigger] q[x] < g.nodes@.len() by {
            assert(q[x] == p[j + x]);
        }
        assert forall|x: int| 0 <= x < q.len() - 1 implies node_edge(g, #[trigger] q[x], q[x + 1]) by {
            assert(q[x] == p[j + x] && q[x + 1] == p[j + x + 1]);
        }
        assert(is_cycle(g, q));
    }
}

/// `validate` accepts a graph exactly when its node ids are distinct, every
/// relationship names existing nodes and no relationship repeats another,
/// and its relationships close no cycle (self-loops included).
pub proof fn lemma_valid_iff_acyclic(g: EvidenceGraph)
    ensures
        is_valid(g) <==> (node_ids_distinct(g) && rels_sound_before(g, g.relationships@.len() as int) && !has_cycle(g)),
{
    lemma_reaching_cycle_iff_cycle(g);
}

} // verus!
