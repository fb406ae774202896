use vstd::prelude::*;
use vstd::string::StringExecFns;
pub mod tree;

verus! {

/// How serious a finding is.
#[derive(Clone, Copy, Debug, PartialEq, Eq, Structural)]
pub enum Severity {
    Info,
    Warning,
    Error,
}

impl Severity {
    /// The printable name of a severity.
    pub open spec fn name(self) -> Seq<char> {
        match self {
            Severity::Info => "Info"@,
            Severity::Warning => "Warning"@,
            Severity::Error => "Error"@,
        }
    }

    pub fn to_string(&self) -> (r: &'static str)
        ensures
            r@ == self.name(),
    {
        match self {
            Severity::Info => "Info",
            Severity::Warning => "Warning",
            Severity::Error => "Error",
        }
    }
}

/// Why an evidence graph was rejected.
#[derive(Clone, Debug)]
pub enum GraphValidationError {
    DuplicateNodeId(String),
    MissingNodeReference(String),
    DuplicateRelationship(String, String, String),
    CycleDetected(String),
}

/// One fact in an evidence graph.
#[derive(Clone, Debug)]
pub struct EvidenceNode {
    pub id: String,
    pub node_type: String,
    pub label: String,
    pub value: String,
}

/// A directed, labelled edge between two evidence nodes, by their ids.
#[derive(Clone, Debug)]
pub struct Relationship {
    pub from: String,
    pub relation: String,
    pub to: String,
}

/// A set of facts and the relations between them that explain a finding.
#[derive(Clone, Debug)]
pub struct EvidenceGraph {
    pub nodes: Vec<EvidenceNode>,
    pub relationships: Vec<Relationship>,
}

// ---------------------------------------------------------------------------
// The model of a graph: nodes are known by their position, relationships by
// the ids they name.
// ---------------------------------------------------------------------------

/// Some node before position `j` has the same id as node `j`.
pub open spec fn dup_node_at(g: EvidenceGraph, j: int) -> bool {
    exists|i: int| 0 <= i < j && #[trigger] g.nodes@[i].id@ == g.nodes@[j].id@
}

pub open spec fn node_ids_distinct(g: EvidenceGraph) -> bool {
    forall|i: int, j: int|
        0 <= i < j < g.nodes@.len() ==> g.nodes@[i].id@ != g.nodes@[j].id@
}

pub open spec fn has_node(g: EvidenceGraph, id: Seq<char>) -> bool {
    exists|i: int| 0 <= i < g.nodes@.len() && #[trigger] g.nodes@[i].id@ == id
}

pub open spec fn same_relationship(a: Relationship, b: Relationship) -> bool {
    a.from@ == b.from@ && a.relation@ == b.relation@ && a.to@ == b.to@
}

/// Relationship `k` repeats an earlier one.
pub open spec fn dup_rel_at(g: EvidenceGraph, k: int) -> bool {
    exists|i: int|
        0 <= i < k && same_relationship(#[trigger] g.relationships@[i], g.relationships@[k])
}

/// Relationship `k` names a missing node or repeats an earlier relationship.
pub open spec fn rel_fault(g: EvidenceGraph, k: int) -> bool {
    ||| !has_node(g, g.relationships@[k].from@)
    ||| !has_node(g, g.relationships@[k].to@)
    ||| dup_rel_at(g, k)
}

/// No relationship before position `k` is faulty.
pub open spec fn rels_sound_before(g: EvidenceGraph, k: int) -> bool {
    forall|k2: int| 0 <= k2 < k ==> !#[trigger] rel_fault(g, k2)
}

/// Some relationship leads from node `a` to node `b` (nodes by position).
pub open spec fn node_edge(g: EvidenceGraph, a: int, b: int) -> bool {
    exists|k: int|
        0 <= k < g.relationships@.len() && #[trigger] g.relationships@[k].from@ == g.nodes@[a].id@
            && g.relationships@[k].to@ == g.nodes@[b].id@
}

/// A walk along relationships that ends on a node it has already visited.
pub open spec fn is_lasso(g: EvidenceGraph, p: Seq<int>) -> bool {
    &&& p.len() >= 2
    &&& forall|j: int| 0 <= j < p.len() ==> 0 <= #[trigger] p[j] < g.nodes@.len()
    &&& forall|j: int| 0 <= j < p.len() - 1 ==> node_edge(g, #[trigger] p[j], p[j + 1])
    &&& exists|j: int| 0 <= j < p.len() - 1 && #[trigger] p[j] == p.last()
}

/// A cycle can be reached from node `i`.
pub open spec fn reaches_cycle(g: EvidenceGraph, i: int) -> bool {
    exists|p: Seq<int>| #[trigger] is_lasso(g, p) && p[0] == i
}

/// What `validate` answers for a graph: the first violation found, checking
/// node ids first, then each relationship in order, then cycles from each node
/// in order.
pub open spec fn validation_result(g: EvidenceGraph, r: Result<(), GraphValidationError>) -> bool {
    let n = g.nodes@.len();
    let m = g.relationships@.len();
    match r {
        Ok(()) => {
            &&& node_ids_distinct(g)
            &&& rels_sound_before(g, m as int)
            &&& forall|i: int| 0 <= i < n ==> !#[trigger] reaches_cycle(g, i)
        },
        Err(GraphValidationError::DuplicateNodeId(id)) => exists|j: int|
            {
                &&& 0 <= j < n
                &&& #[trigger] dup_node_at(g, j)
                &&& forall|j2: int| 0 <= j2 < j ==> !#[trigger] dup_node_at(g, j2)
                &&& id == g.nodes@[j].id
            },
        Err(GraphValidationError::MissingNodeReference(id)) => {
            &&& node_ids_distinct(g)
            &&& exists|k: int|
                {
                    &&& 0 <= k < m
                    &&& #[trigger] rels_sound_before(g, k)
                    &&& if !has_node(g, g.relationships@[k].from@) {
                        id == g.relationships@[k].from
                    } else {
                        !has_node(g, g.relationships@[k].to@) && id == g.relationships@[k].to
                    }
                }
        },
        Err(GraphValidationError::DuplicateRelationship(from, relation, to)) => {
            &&& node_ids_distinct(g)
            &&& exists|k: int|
                {
                    &&& 0 <= k < m
                    &&& #[trigger] rels_sound_before(g, k)
                    &&& has_node(g, g.relationships@[k].from@)
                    &&& has_node(g, g.relationships@[k].to@)
                    &&& dup_rel_at(g, k)
                    &&& from == g.relationships@[k].from
                    &&& relation == g.relationships@[k].relation
                    &&& to == g.relationships@[k].to
                }
        },
        Err(GraphValidationError::CycleDetected(id)) => {
            &&& node_ids_distinct(g)
            &&& rels_sound_before(g, m as int)
            &&& exists|i: int|
                {
                    &&& 0 <= i < n
                    &&& #[trigger] reaches_cycle(g, i)
                    &&& forall|i2: int| 0 <= i2 < i ==> !#[trigger] reaches_cycle(g, i2)
                    &&& id == g.nodes@[i].id
                }
        },
    }
}

// ---------------------------------------------------------------------------
// Cycle search over node positions.
// ---------------------------------------------------------------------------

/// The relationships of a graph with both ends resolved to node positions.
struct IndexGraph {
    n: usize,
    from: Vec<usize>,
    to: Vec<usize>,
}

impl IndexGraph {
    spec fn wf(self) -> bool {
        &&& self.from@.len() == self.to@.len()
        &&& forall|k: int| 0 <= k < self.from@.len() ==> #[trigger] self.from@[k] < self.n
        &&& forall|k: int| 0 <= k < self.to@.len() ==> #[trigger] self.to@[k] < self.n
    }

    spec fn edge(self, a: int, b: int) -> bool {
        exists|k: int| 0 <= k < self.from@.len() && #[trigger] self.from@[k] == a && self.to@[k] == b
    }

    spec fn is_lasso(self, p: Seq<int>) -> bool {
        &&& p.len() >= 2
        &&& forall|j: int| 0 <= j < p.len() ==> 0 <= #[trigger] p[j] < self.n
        &&& forall|j: int| 0 <= j < p.len() - 1 ==> self.edge(#[trigger] p[j], p[j + 1])
        &&& exists|j: int| 0 <= j < p.len() - 1 && #[trigger] p[j] == p.last()
    }

    spec fn reaches_cycle(self, i: int) -> bool {
        exists|p: Seq<int>| #[trigger] self.is_lasso(p) && p[0] == i
    }
}

/// Depth-first search state: nodes seen, nodes on the current path, and for
/// each finished node the time it finished.
struct DfsState {
    visited: Vec<bool>,
    on_stack: Vec<bool>,
    finish: Ghost<Seq<int>>,
    clock: Ghost<int>,
}

spec fn is_black(st: DfsState, v: int) -> bool {
    st.visited@[v] && !st.on_stack@[v]
}

/// Finished nodes only lead to finished nodes, and to ones that finished earlier.
spec fn dfs_inv(ig: IndexGraph, st: DfsState) -> bool {
    &&& st.visited@.len() == ig.n
    &&& st.on_stack@.len() == ig.n
    &&& st.finish@.len() == ig.n
    &&& st.clock@ >= 0
    &&& forall|v: int| 0 <= v < ig.n && #[trigger] st.on_stack@[v] ==> st.visited@[v]
    &&& forall|v: int| 0 <= v < ig.n && #[trigger] is_black(st, v) ==> 0 <= st.finish@[v] < st.clock@
    &&& forall|k: int|
        0 <= k < ig.from@.len() && #[trigger] is_black(st, ig.from@[k] as int) ==> {
            &&& is_black(st, ig.to@[k] as int)
            &&& st.finish@[ig.to@[k] as int] < st.finish@[ig.from@[k] as int]
        }
}

/// The nodes marked as on the current path are exactly those of `stack`, a walk.
spec fn stack_matches(ig: IndexGraph, st: DfsState, stack: Seq<int>) -> bool {
    &&& forall|j: int| 0 <= j < stack.len() ==> 0 <= #[trigger] stack[j] < ig.n
    &&& forall|v: int| 0 <= v < ig.n ==> (#[trigger] st.on_stack@[v] <==> stack.contains(v))
    &&& forall|j: int| 0 <= j < stack.len() - 1 ==> ig.edge(#[trigger] stack[j], stack[j + 1])
}

/// Finished nodes stay finished, with the same finishing time.
spec fn dfs_grows(old_st: DfsState, new_st: DfsState) -> bool {
    &&& new_st.visited@.len() == old_st.visited@.len()
    &&& forall|v: int| 0 <= v < old_st.visited@.len() && #[trigger] old_st.visited@[v] ==> new_st.visited@[v]
    &&& forall|v: int| 0 <= v < old_st.visited@.len() && #[trigger] is_black(old_st, v) ==> {
            &&& is_black(new_st, v)
            &&& new_st.finish@[v] == old_st.finish@[v]
        }
    &&& old_st.clock@ <= new_st.clock@
}

spec fn num_false(s: Seq<bool>) -> nat
    decreases s.len(),
{
    if s.len() == 0 {
        0
    } else {
        num_false(s.drop_last()) + if s.last() { 0nat } else { 1nat }
    }
}

proof fn lemma_num_false_mono(a: Seq<bool>, b: Seq<bool>)
    requires
        a.len() == b.len(),
        forall|i: int| 0 <= i < a.len() && #[trigger] a[i] ==> b[i],
    ensures
        num_false(b) <= num_false(a),
        (exists|i: int| 0 <= i < a.len() && !a[i] && #[trigger] b[i]) ==> num_false(b) < num_false(a),
    decreases a.len(),
{
    if a.len() > 0 {
        let a2 = a.drop_last();
        let b2 = b.drop_last();
        assert forall|i: int| 0 <= i < a2.len() && #[trigger] a2[i] implies b2[i] by {
            assert(a[i]);
        }
        lemma_num_false_mono(a2, b2);
        if exists|i: int| 0 <= i < a.len() && !a[i] && #[trigger] b[i] {
            let i = choose|i: int| 0 <= i < a.len() && !a[i] && #[trigger] b[i];
            if i < a.len() - 1 {
                assert(!a2[i] && b2[i]);
            }
        }
    }
}

/// Along a walk that starts on a finished node, finishing times strictly fall,
/// so the walk never comes back to a node.
proof fn lemma_black_no_lasso(ig: IndexGraph, st: DfsState, v: int)
    requires
        ig.wf(),
        dfs_inv(ig, st),
        0 <= v < ig.n,
        is_black(st, v),
    ensures
        !ig.reaches_cycle(v),
{
    if ig.reaches_cycle(v) {
        let p = choose|p: Seq<int>| #[trigger] ig.is_lasso(p) && p[0] == v;
        lemma_walk_descends(ig, st, p, p.len() - 1);
        let j = choose|j: int| 0 <= j < p.len() - 1 && #[trigger] p[j] == p.last();
        assert(st.finish@[p[j]] >= st.finish@[p[p.len() - 1]] + (p.len() - 1 - j));
    }
}

proof fn lemma_walk_descends(ig: IndexGraph, st: DfsState, p: Seq<int>, l: int)
    requires
        ig.wf(),
        dfs_inv(ig, st),
        ig.is_lasso(p),
        is_black(st, p[0]),
        0 <= l < p.len(),
    ensures
        is_black(st, p[l]),
        forall|j: int| 0 <= j <= l ==> st.finish@[#[trigger] p[j]] >= st.finish@[p[l]] + (l - j),
    decreases l,
{
    if l > 0 {
        lemma_walk_descends(ig, st, p, l - 1);
        assert(ig.edge(p[l - 1], p[l]));
        let k = choose|k: int| 0 <= k < ig.from@.len() && #[trigger] ig.from@[k] == p[l - 1] && ig.to@[k] == p[l];
        assert(is_black(st, ig.from@[k] as int));
    }
}

/// Depth-first search from `u`; true when a cycle was met. The path that led
/// here is `stack`.
fn detect_cycle(
    ig: &IndexGraph,
    u: usize,
    st: &mut DfsState,
    Ghost(stack): Ghost<Seq<int>>,
    Ghost(budget): Ghost<nat>,
) -> (found: bool)
    requires
        budget == num_false(old(st).visited@),
        ig.wf(),
        u < ig.n,
        dfs_inv(*ig, *old(st)),
        stack_matches(*ig, *old(st), stack),
        stack.len() > 0 ==> ig.edge(stack.last(), u as int),
    ensures
        found ==> exists|p: Seq<int>|
            #[trigger] ig.is_lasso(p) && p[0] == (if stack.len() == 0 { u as int } else { stack[0] }),
        !found ==> {
            &&& dfs_inv(*ig, *final(st))
            &&& dfs_grows(*old(st), *final(st))
            &&& final(st).on_stack@ == old(st).on_stack@
            &&& is_black(*final(st), u as int)
        },
    decreases budget,
{
    let ghost old_st = *st;
    if st.on_stack[u] {
        proof {
            let p = stack.push(u as int);
            assert(stack.contains(u as int));
            let j = choose|j: int| 0 <= j < stack.len() && stack[j] == u as int;
            assert(p[j] == p.last());
            assert forall|j2: int| 0 <= j2 < p.len() - 1 implies ig.edge(#[trigger] p[j2], p[j2 + 1]) by {
                if j2 < stack.len() - 1 {
                    assert(p[j2] == stack[j2] && p[j2 + 1] == stack[j2 + 1]);
                }
            }
            assert(ig.is_lasso(p));
        }
        return true;
    }
    if st.visited[u] {
        return false;
    }
    st.visited.set(u, true);
    st.on_stack.set(u, true);
    let ghost stack2 = stack.push(u as int);
    proof {
        assert(!old_st.visited@[u as int] && st.visited@[u as int]);
        lemma_num_false_mono(old_st.visited@, st.visited@);
        assert forall|v: int| 0 <= v < ig.n implies (#[trigger] st.on_stack@[v] <==> stack2.contains(v)) by {
            if v == u as int {
                assert(stack2[stack.len() as int] == v);
            } else {
                assert(stack.contains(v) ==> stack2.contains(v)) by {
                    if stack.contains(v) {
                        let j = choose|j: int| 0 <= j < stack.len() && stack[j] == v;
                        assert(stack2[j] == v);
                    }
                }
                assert(stack2.contains(v) ==> stack.contains(v)) by {
                    if stack2.contains(v) {
                        let j = choose|j: int| 0 <= j < stack2.len() && stack2[j] == v;
                        assert(stack[j] == v);
                    }
                }
            }
        }
        assert forall|j: int| 0 <= j < stack2.len() - 1 implies ig.edge(#[trigger] stack2[j], stack2[j + 1]) by {
            if j < stack.len() - 1 {
                assert(stack2[j] == stack[j] && stack2[j + 1] == stack[j + 1]);
            }
        }
        assert(forall|v: int| 0 <= v < ig.n && #[trigger] is_black(*st, v) ==> is_black(old_st, v));
    }
    let mut k: usize = 0;
    while k < ig.from.len()
        invariant
            ig.wf(),
            u < ig.n,
            stack2 == stack.push(u as int),
            dfs_inv(*ig, *st),
            dfs_grows(old_st, *st),
            stack_matches(*ig, *st, stack2),
            st.on_stack@ == old_st.on_stack@.update(u as int, true),
            st.visited@[u as int],
            num_false(st.visited@) < budget,
            budget == num_false(old_st.visited@),
            old_st.on_stack@.len() == ig.n,
            0 <= k <= ig.from@.len(),
            forall|k2: int| 0 <= k2 < k && #[trigger] ig.from@[k2] == u ==> is_black(*st, ig.to@[k2] as int),
        decreases ig.from@.len() - k,
    {
        if ig.from[k] == u {
            let ghost before = *st;
            let ghost budget2 = num_false(st.visited@);
            let found = detect_cycle(ig, ig.to[k], st, Ghost(stack2), Ghost(budget2));
            if found {
                return true;
            }
            proof {
                lemma_num_false_mono(before.visited@, st.visited@);
                assert forall|k2: int| 0 <= k2 < k + 1 && #[trigger] ig.from@[k2] == u implies is_black(*st, ig.to@[k2] as int) by {
                    if k2 < k {
                        assert(is_black(before, ig.to@[k2] as int));
                    }
                }
            }
        }
        k += 1;
    }
    let ghost mid = *st;
    st.on_stack.set(u, false);
    st.finish = Ghost(st.finish@.update(u as int, st.clock@));
    st.clock = Ghost(st.clock@ + 1);
    proof {
        assert(!is_black(mid, u as int));
        assert forall|v: int| 0 <= v < ig.n && #[trigger] is_black(*st, v) implies 0 <= st.finish@[v] < st.clock@ by {
            if v != u as int {
                assert(is_black(mid, v));
            }
        }
        assert forall|kk: int|
            0 <= kk < ig.from@.len() && #[trigger] is_black(*st, ig.from@[kk] as int) implies {
                &&& is_black(*st, ig.to@[kk] as int)
                &&& st.finish@[ig.to@[kk] as int] < st.finish@[ig.from@[kk] as int]
            } by {
            let a = ig.from@[kk] as int;
            let b = ig.to@[kk] as int;
            if a == u as int {
                assert(is_black(mid, b));
                assert(b != u as int);
            } else {
                assert(is_black(mid, a));
                assert(is_black(mid, b));
                assert(b != u as int);
            }
        }
        assert forall|v: int| 0 <= v < old_st.visited@.len() && #[trigger] is_black(old_st, v) implies {
            &&& is_black(*st, v)
            &&& st.finish@[v] == old_st.finish@[v]
        } by {
            assert(is_black(mid, v));
            assert(v != u as int);
        }
        assert(st.on_stack@ =~= old_st.on_stack@);
    }
    false
}


/// The first node, by position, from which a cycle can be reached.
fn first_cycle_start(ig: &IndexGraph) -> (r: Option<usize>)
    requires
        ig.wf(),
    ensures
        r matches Some(i) ==> {
            &&& i < ig.n
            &&& ig.reaches_cycle(i as int)
            &&& forall|i2: int| 0 <= i2 < i ==> !#[trigger] ig.reaches_cycle(i2)
        },
        r is None ==> forall|i: int| 0 <= i < ig.n ==> !#[trigger] ig.reaches_cycle(i),
{
    let mut visited: Vec<bool> = Vec::new();
    let mut on_stack: Vec<bool> = Vec::new();
    let mut j: usize = 0;
    while j < ig.n
        invariant
            j <= ig.n,
            visited@.len() == j,
            on_stack@.len() == j,
            forall|v: int| 0 <= v < j ==> !#[trigger] visited@[v],
            forall|v: int| 0 <= v < j ==> !#[trigger] on_stack@[v],
        decreases ig.n - j,
    {
        visited.push(false);
        on_stack.push(false);
        j += 1;
    }
    let mut st = DfsState {
        visited,
        on_stack,
        finish: Ghost(Seq::new(ig.n as nat, |v: int| 0int)),
        clock: Ghost(0int),
    };
    proof {
        assert forall|v: int| 0 <= v < ig.n implies !#[trigger] is_black(st, v) by {
            assert(!st.visited@[v]);
        }
        assert(st.finish@.len() == ig.n);
    }
    let mut i: usize = 0;
    while i < ig.n
        invariant
            ig.wf(),
            i <= ig.n,
            dfs_inv(*ig, st),
            forall|v: int| 0 <= v < ig.n ==> !#[trigger] st.on_stack@[v],
            forall|i2: int| 0 <= i2 < i ==> #[trigger] is_black(st, i2),
        decreases ig.n - i,
    {
        let ghost before = st;
        proof {
            assert forall|v: int| 0 <= v < ig.n implies (#[trigger] st.on_stack@[v] <==> Seq::<int>::empty().contains(v)) by {}
        }
        let ghost budget = num_false(st.visited@);
        let found = detect_cycle(ig, i, &mut st, Ghost(Seq::empty()), Ghost(budget));
        if found {
            proof {
                assert forall|i2: int| 0 <= i2 < i implies !#[trigger] ig.reaches_cycle(i2) by {
                    lemma_black_no_lasso(*ig, before, i2);
                }
            }
            return Some(i);
        }
        proof {
            assert forall|i2: int| 0 <= i2 < i + 1 implies #[trigger] is_black(st, i2) by {
                if i2 < i {
                    assert(is_black(before, i2));
                }
            }
        }
        i += 1;
    }
    proof {
        assert forall|v: int| 0 <= v < ig.n implies !#[trigger] ig.reaches_cycle(v) by {
            lemma_black_no_lasso(*ig, st, v);
        }
    }
    None
}


/// The relationships of `g`, resolved to node positions.
spec fn resolves(g: EvidenceGraph, ig: IndexGraph) -> bool {
    &&& ig.wf()
    &&& ig.n == g.nodes@.len()
    &&& ig.from@.len() == g.relationships@.len()
    &&& forall|k: int|
        0 <= k < ig.from@.len() ==> g.nodes@[#[trigger] ig.from@[k] as int].id@ == g.relationships@[k].from@
    &&& forall|k: int|
        0 <= k < ig.to@.len() ==> g.nodes@[#[trigger] ig.to@[k] as int].id@ == g.relationships@[k].to@
}

proof fn lemma_resolved_cycles(g: EvidenceGraph, ig: IndexGraph)
    requires
        node_ids_distinct(g),
        resolves(g, ig),
    ensures
        forall|i: int| 0 <= i < ig.n ==> (#[trigger] reaches_cycle(g, i) <==> ig.reaches_cycle(i)),
{
    assert forall|a: int, b: int| 0 <= a < ig.n && 0 <= b < ig.n implies (#[trigger] node_edge(g, a, b)
        <==> ig.edge(a, b)) by {
        if node_edge(g, a, b) {
            let k = choose|k: int|
                0 <= k < g.relationships@.len() && #[trigger] g.relationships@[k].from@ == g.nodes@[a].id@
                    && g.relationships@[k].to@ == g.nodes@[b].id@;
            let fa = ig.from@[k] as int;
            let tb = ig.to@[k] as int;
            assert(g.nodes@[fa].id@ == g.nodes@[a].id@);
            assert(g.nodes@[tb].id@ == g.nodes@[b].id@);
            if fa < a {
                assert(g.nodes@[fa].id@ != g.nodes@[a].id@);
            }
            if a < fa {
                assert(g.nodes@[a].id@ != g.nodes@[fa].id@);
            }
            if tb < b {
                assert(g.nodes@[tb].id@ != g.nodes@[b].id@);
            }
            if b < tb {
                assert(g.nodes@[b].id@ != g.nodes@[tb].id@);
            }
            assert(ig.from@[k] == a && ig.to@[k] == b);
        }
        if ig.edge(a, b) {
            let k = choose|k: int| 0 <= k < ig.from@.len() && #[trigger] ig.from@[k] == a && ig.to@[k] == b;
            assert(g.relationships@[k].from@ == g.nodes@[a].id@);
        }
    }
    assert forall|p: Seq<int>| #[trigger] is_lasso(g, p) <==> ig.is_lasso(p) by {
        if is_lasso(g, p) {
            assert forall|j: int| 0 <= j < p.len() - 1 implies ig.edge(#[trigger] p[j], p[j + 1]) by {
                assert(node_edge(g, p[j], p[j + 1]));
            }
        }
        if ig.is_lasso(p) {
            assert forall|j: int| 0 <= j < p.len() - 1 implies node_edge(g, #[trigger] p[j], p[j + 1]) by {
                assert(ig.edge(p[j], p[j + 1]));
            }
        }
    }
    assert forall|i: int| 0 <= i < ig.n implies (#[trigger] reaches_cycle(g, i) <==> ig.reaches_cycle(i)) by {
        if reaches_cycle(g, i) {
            let p = choose|p: Seq<int>| #[trigger] is_lasso(g, p) && p[0] == i;
            assert(ig.is_lasso(p));
        }
        if ig.reaches_cycle(i) {
            let p = choose|p: Seq<int>| #[trigger] ig.is_lasso(p) && p[0] == i;
            assert(is_lasso(g, p));
        }
    }
}

/// No relationship points at node `i`.
pub open spec fn is_root(g: EvidenceGraph, i: int) -> bool {
    forall|k: int|
        0 <= k < g.relationships@.len() ==> #[trigger] g.relationships@[k].to@ != g.nodes@[i].id@
}

/// The positions, in order, of the root nodes among the first `upto` nodes.
pub open spec fn root_positions(g: EvidenceGraph, upto: int) -> Seq<int>
    decreases upto,
{
    if upto <= 0 {
        seq![]
    } else {
        let prev = root_positions(g, upto - 1);
        if is_root(g, upto - 1) {
            prev.push(upto - 1)
        } else {
            prev
        }
    }
}

/// The position of the first node, among the first `upto`, with the given id.
pub open spec fn first_position(g: EvidenceGraph, id: Seq<char>, upto: int) -> Option<int>
    decreases upto,
{
    if upto <= 0 {
        None
    } else {
        match first_position(g, id, upto - 1) {
            Some(i) => Some(i),
            None => if g.nodes@[upto - 1].id@ == id {
                Some(upto - 1)
            } else {
                None
            },
        }
    }
}

/// For the relationships among the first `upto` that leave `parent` and whose
/// target exists, in order: the relationship's position and the target's.
pub open spec fn child_entries(g: EvidenceGraph, parent: Seq<char>, upto: int) -> Seq<(int, int)>
    decreases upto,
{
    if upto <= 0 {
        seq![]
    } else {
        let prev = child_entries(g, parent, upto - 1);
        let rel = g.relationships@[upto - 1];
        if rel.from@ == parent {
            match first_position(g, rel.to@, g.nodes@.len() as int) {
                Some(i) => prev.push((upto - 1, i)),
                None => prev,
            }
        } else {
            prev
        }
    }
}

proof fn lemma_first_position(g: EvidenceGraph, id: Seq<char>, upto: int)
    requires
        0 <= upto <= g.nodes@.len(),
    ensures
        match first_position(g, id, upto) {
            Some(i) => {
                &&& 0 <= i < upto
                &&& g.nodes@[i].id@ == id
                &&& forall|i2: int| 0 <= i2 < i ==> #[trigger] g.nodes@[i2].id@ != id
            },
            None => forall|i: int| 0 <= i < upto ==> #[trigger] g.nodes@[i].id@ != id,
        },
    decreases upto,
{
    if upto > 0 {
        lemma_first_position(g, id, upto - 1);
    }
}

impl EvidenceGraph {
    pub fn new(nodes: Vec<EvidenceNode>, relationships: Vec<Relationship>) -> (g: Self)
        ensures
            g.nodes == nodes,
            g.relationships == relationships,
    {
        Self { nodes, relationships }
    }

    /// The first node whose id repeats an earlier node's id.
    fn first_duplicate_node(&self) -> (r: Option<usize>)
        ensures
            r matches Some(j) ==> {
                &&& j < self.nodes@.len()
                &&& dup_node_at(*self, j as int)
                &&& forall|j2: int| 0 <= j2 < j ==> !#[trigger] dup_node_at(*self, j2)
            },
            r is None ==> node_ids_distinct(*self),
    {
        let n = self.nodes.len();
        let mut j: usize = 0;
        while j < n
            invariant
                n == self.nodes@.len(),
                j <= n,
                forall|j2: int| 0 <= j2 < j ==> !#[trigger] dup_node_at(*self, j2),
            decreases n - j,
        {
            let mut i: usize = 0;
            while i < j
                invariant
                    n == self.nodes@.len(),
                    i <= j < n,
                    forall|j2: int| 0 <= j2 < j ==> !#[trigger] dup_node_at(*self, j2),
                    forall|i2: int| 0 <= i2 < i ==> #[trigger] self.nodes@[i2].id@ != self.nodes@[j as int].id@,
                decreases j - i,
            {
                if self.nodes[i].id == self.nodes[j].id {
                    proof {
                        assert(self.nodes@[i as int].id@ == self.nodes@[j as int].id@);
                        assert(dup_node_at(*self, j as int));
                    }
                    return Some(j);
                }
                i += 1;
            }
            j += 1;
        }
        proof {
            assert forall|i: int, j2: int| 0 <= i < j2 < self.nodes@.len() implies self.nodes@[i].id@
                != self.nodes@[j2].id@ by {
                assert(!dup_node_at(*self, j2));
            }
        }
        None
    }

    /// The position of the first node with the given id.
    fn position_of(&self, id: &String) -> (r: Option<usize>)
        ensures
            r matches Some(i) ==> i < self.nodes@.len() && self.nodes@[i as int].id@ == id@,
            r is None ==> !has_node(*self, id@),
            r matches Some(i) ==> first_position(*self, id@, self.nodes@.len() as int) == Some(i as int),
            r is None ==> first_position(*self, id@, self.nodes@.len() as int) is None,
    {
        proof {
            lemma_first_position(*self, id@, self.nodes@.len() as int);
        }
        let n = self.nodes.len();
        let mut i: usize = 0;
        while i < n
            invariant
                n == self.nodes@.len(),
                i <= n,
                forall|i2: int| 0 <= i2 < i ==> #[trigger] self.nodes@[i2].id@ != id@,
            decreases n - i,
        {
            if self.nodes[i].id == *id {
                proof {
                    lemma_first_position(*self, id@, self.nodes@.len() as int);
                    let fp = first_position(*self, id@, self.nodes@.len() as int);
                    if let Some(i3) = fp {
                        if i3 < i {
                            assert(self.nodes@[i3].id@ != id@);
                        }
                        if i3 > i {
                            assert(self.nodes@[i as int].id@ != id@);
                        }
                    } else {
                        assert(self.nodes@[i as int].id@ != id@);
                    }
                }
                return Some(i);
            }
            i += 1;
        }
        proof {
            lemma_first_position(*self, id@, self.nodes@.len() as int);
        }
        None
    }

    /// Resolves every relationship to node positions, or reports the first bad one.
    fn resolve_relationships(&self) -> (r: Result<IndexGraph, GraphValidationError>)
        requires
            node_ids_distinct(*self),
        ensures
            r matches Ok(ig) ==> resolves(*self, ig) && rels_sound_before(*self, self.relationships@.len() as int),
            r is Err ==> validation_result(*self, Err(r->Err_0)),
    {
        let n = self.nodes.len();
        let m = self.relationships.len();
        let mut from: Vec<usize> = Vec::new();
        let mut to: Vec<usize> = Vec::new();
        let mut k: usize = 0;
        while k < m
            invariant
                n == self.nodes@.len(),
                m == self.relationships@.len(),
                k <= m,
                node_ids_distinct(*self),
                rels_sound_before(*self, k as int),
                from@.len() == k,
                to@.len() == k,
                forall|k2: int| 0 <= k2 < k ==> #[trigger] from@[k2] < n,
                forall|k2: int| 0 <= k2 < k ==> #[trigger] to@[k2] < n,
                forall|k2: int|
                    0 <= k2 < k ==> self.nodes@[#[trigger] from@[k2] as int].id@ == self.relationships@[k2].from@,
                forall|k2: int|
                    0 <= k2 < k ==> self.nodes@[#[trigger] to@[k2] as int].id@ == self.relationships@[k2].to@,
            decreases m - k,
        {
            let rel = &self.relationships[k];
            let a = match self.position_of(&rel.from) {
                Some(a) => a,
                None => {
                    let e = GraphValidationError::MissingNodeReference(rel.from.clone());
                    proof {
                        assert(rels_sound_before(*self, k as int));
                    }
                    return Err(e);
                },
            };
            let b = match self.position_of(&rel.to) {
                Some(b) => b,
                None => {
                    let e = GraphValidationError::MissingNodeReference(rel.to.clone());
                    proof {
                        assert(has_node(*self, rel.from@));
                        assert(rels_sound_before(*self, k as int));
                    }
                    return Err(e);
                },
            };
            proof {
                assert(has_node(*self, rel.from@));
                assert(has_node(*self, rel.to@));
            }
            let mut i: usize = 0;
            while i < k
                invariant
                    has_node(*self, rel.from@),
                    has_node(*self, rel.to@),
                    node_ids_distinct(*self),
                    rels_sound_before(*self, k as int),
                    k < m,
                    m == self.relationships@.len(),
                    rel == self.relationships@[k as int],
                    i <= k,
                    forall|i2: int|
                        0 <= i2 < i ==> !same_relationship(#[trigger] self.relationships@[i2], *rel),
                decreases k - i,
            {
                let other = &self.relationships[i];
                if other.from == rel.from && other.relation == rel.relation && other.to == rel.to {
                    let e = GraphValidationError::DuplicateRelationship(
                        rel.from.clone(),
                        rel.relation.clone(),
                        rel.to.clone(),
                    );
                    proof {
                        assert(same_relationship(self.relationships@[i as int], self.relationships@[k as int]));
                        assert(dup_rel_at(*self, k as int));
                    }
                    return Err(e);
                }
                i += 1;
            }
            proof {
                assert(!dup_rel_at(*self, k as int));
                assert forall|k2: int| 0 <= k2 < k + 1 implies !#[trigger] rel_fault(*self, k2) by {
                    if k2 < k {
                        assert(!rel_fault(*self, k2));
                    }
                }
            }
            from.push(a);
            to.push(b);
            k += 1;
        }
        let ig = IndexGraph { n, from, to };
        Ok(ig)
    }

    /// Validates graph constraints: no cycle loops, no duplicate nodes or
    /// relationships, and all references must exist.
    pub fn validate(&self) -> (r: Result<(), GraphValidationError>)
        ensures
            validation_result(*self, r),
    {
        if let Some(j) = self.first_duplicate_node() {
            return Err(GraphValidationError::DuplicateNodeId(self.nodes[j].id.clone()));
        }
        let ig = match self.resolve_relationships() {
            Ok(ig) => ig,
            Err(e) => return Err(e),
        };
        proof {
            lemma_resolved_cycles(*self, ig);
        }
        match first_cycle_start(&ig) {
            Some(i) => {
                proof {
                    assert(reaches_cycle(*self, i as int));
                    assert forall|i2: int| 0 <= i2 < i implies !#[trigger] reaches_cycle(*self, i2) by {
                        assert(!ig.reaches_cycle(i2));
                    }
                }
                Err(GraphValidationError::CycleDetected(self.nodes[i].id.clone()))
            },
            None => {
                proof {
                    assert forall|i: int| 0 <= i < self.nodes@.len() implies !#[trigger] reaches_cycle(*self, i) by {
                        assert(!ig.reaches_cycle(i));
                    }
                }
                Ok(())
            },
        }
    }
}


impl EvidenceGraph {
    /// Whether some relationship points at node `i`.
    fn has_incoming(&self, i: usize) -> (r: bool)
        requires
            i < self.nodes@.len(),
        ensures
            r == !is_root(*self, i as int),
    {
        let m = self.relationships.len();
        let mut k: usize = 0;
        while k < m
            invariant
                m == self.relationships@.len(),
                i < self.nodes@.len(),
                k <= m,
                forall|k2: int| 0 <= k2 < k ==> #[trigger] self.relationships@[k2].to@ != self.nodes@[i as int].id@,
            decreases m - k,
        {
            if self.relationships[k].to == self.nodes[i].id {
                return true;
            }
            k += 1;
        }
        false
    }

    /// Finds all root source nodes (nodes with no incoming relationships), in order.
    pub fn roots(&self) -> (r: Vec<&EvidenceNode>)
        ensures
            r@.len() == root_positions(*self, self.nodes@.len() as int).len(),
            forall|j: int|
                0 <= j < r@.len() ==> *#[trigger] r@[j] == self.nodes@[root_positions(
                    *self,
                    self.nodes@.len() as int,
                )[j]],
    {
        let n = self.nodes.len();
        let mut r: Vec<&EvidenceNode> = Vec::new();
        let mut i: usize = 0;
        while i < n
            invariant
                n == self.nodes@.len(),
                i <= n,
                r@.len() == root_positions(*self, i as int).len(),
                forall|j: int|
                    0 <= j < r@.len() ==> *#[trigger] r@[j] == self.nodes@[root_positions(*self, i as int)[j]],
            decreases n - i,
        {
            if !self.has_incoming(i) {
                r.push(&self.nodes[i]);
            }
            proof {
                let prev = root_positions(*self, i as int);
                assert(root_positions(*self, i + 1) == if is_root(*self, i as int) {
                    prev.push(i as int)
                } else {
                    prev
                });
            }
            i += 1;
        }
        r
    }

    /// Returns child nodes matching a parent id, with the relationships that
    /// lead to them, in the order of the relationships.
    pub fn children(&self, parent_id: &str) -> (r: Vec<(&Relationship, &EvidenceNode)>)
        ensures
            r@.len() == child_entries(*self, parent_id@, self.relationships@.len() as int).len(),
            forall|j: int|
                0 <= j < r@.len() ==> {
                    let e = child_entries(*self, parent_id@, self.relationships@.len() as int)[j];
                    &&& *(#[trigger] r@[j]).0 == self.relationships@[e.0]
                    &&& *r@[j].1 == self.nodes@[e.1]
                },
    {
        let parent = String::from_str(parent_id);
        let m = self.relationships.len();
        let mut r: Vec<(&Relationship, &EvidenceNode)> = Vec::new();
        let mut k: usize = 0;
        while k < m
            invariant
                m == self.relationships@.len(),
                parent@ == parent_id@,
                k <= m,
                r@.len() == child_entries(*self, parent_id@, k as int).len(),
                forall|j: int|
                    0 <= j < r@.len() ==> {
                        let e = child_entries(*self, parent_id@, k as int)[j];
                        &&& *(#[trigger] r@[j]).0 == self.relationships@[e.0]
                        &&& *r@[j].1 == self.nodes@[e.1]
                    },
            decreases m - k,
        {
            let rel = &self.relationships[k];
            if rel.from == parent {
                if let Some(i) = self.position_of(&rel.to) {
                    r.push((rel, &self.nodes[i]));
                }
            }
            k += 1;
        }
        r
    }
}

impl GraphValidationError {
    /// The message that describes the error.
    pub open spec fn message(self) -> Seq<char> {
        match self {
            GraphValidationError::DuplicateNodeId(id) => "Duplicate node ID: "@ + id@,
            GraphValidationError::MissingNodeReference(id) => "Relationship references missing node ID: "@
                + id@,
            GraphValidationError::DuplicateRelationship(from, rel, to) => "Duplicate relationship: "@ + from@
                + " -["@ + rel@ + "]-> "@ + to@,
            GraphValidationError::CycleDetected(id) => "Cycle detected starting at node ID: "@ + id@,
        }
    }

    /// The error as text.
    pub fn to_string(&self) -> (r: String)
        ensures
            r@ == self.message(),
    {
        match self {
            GraphValidationError::DuplicateNodeId(id) => {
                let mut s = String::from_str("Duplicate node ID: ");
                s.append(id.as_str());
                s
            },
            GraphValidationError::MissingNodeReference(id) => {
                let mut s = String::from_str("Relationship references missing node ID: ");
                s.append(id.as_str());
                s
            },
            GraphValidationError::DuplicateRelationship(from, rel, to) => {
                let mut s = String::from_str("Duplicate relationship: ");
                s.append(from.as_str());
                s.append(" -[");
                s.append(rel.as_str());
                s.append("]-> ");
                s.append(to.as_str());
                s
            },
            GraphValidationError::CycleDetected(id) => {
                let mut s = String::from_str("Cycle detected starting at node ID: ");
                s.append(id.as_str());
                s
            },
        }
    }
}

/// A diagnosed problem (or healthy state) with the evidence that explains it.
#[derive(Clone, Debug)]
pub struct Finding {
    pub severity: Severity,
    pub subject: String,
    pub cause: String,
    pub graph: EvidenceGraph,
    pub suggestion: Option<String>,
}

} // verus!
