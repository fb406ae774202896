pub mod fixes;
pub mod chains;
pub mod report;

use vstd::prelude::*;
use vstd::string::StringExecFns;
use crate::inspectors::finding::{
    EvidenceGraph, EvidenceNode, Finding, Relationship, Severity, has_node, node_ids_distinct,
    validation_result, GraphValidationError, rel_fault, dup_rel_at, same_relationship, reaches_cycle, is_lasso,
    node_edge,
};

verus! {

/// A node as text: id, type, label and value.
pub type NodeView = (Seq<char>, Seq<char>, Seq<char>, Seq<char>);

/// A relationship as text: from, relation and to.
pub type RelView = (Seq<char>, Seq<char>, Seq<char>);

/// A graph as text: its nodes and its relationships, in order.
pub type GraphView = (Seq<NodeView>, Seq<RelView>);

pub open spec fn nview(n: EvidenceNode) -> NodeView {
    (n.id@, n.node_type@, n.label@, n.value@)
}

pub open spec fn rview(r: Relationship) -> RelView {
    (r.from@, r.relation@, r.to@)
}

pub open spec fn nodes_view(s: Seq<EvidenceNode>) -> Seq<NodeView> {
    s.map_values(|n: EvidenceNode| nview(n))
}

pub open spec fn rels_view(s: Seq<Relationship>) -> Seq<RelView> {
    s.map_values(|r: Relationship| rview(r))
}

pub open spec fn evidence_view(g: EvidenceGraph) -> GraphView {
    (nodes_view(g.nodes@), rels_view(g.relationships@))
}

pub open spec fn view_has_id(ns: Seq<NodeView>, id: Seq<char>) -> bool {
    exists|i: int| 0 <= i < ns.len() && #[trigger] ns[i].0 == id
}

/// The graph with a node added, unless a node with its id is present.
pub open spec fn with_node(g: GraphView, id: Seq<char>, node_type: Seq<char>, label: Seq<char>, value: Seq<char>) -> GraphView {
    if view_has_id(g.0, id) {
        g
    } else {
        (g.0.push((id, node_type, label, value)), g.1)
    }
}

/// The graph with a relationship added, when both its ends are present.
pub open spec fn with_edge(g: GraphView, from: Seq<char>, relation: Seq<char>, to: Seq<char>) -> GraphView {
    if view_has_id(g.0, from) && view_has_id(g.0, to) {
        (g.0, g.1.push((from, relation, to)))
    } else {
        g
    }
}

pub open spec fn empty_graph() -> GraphView {
    (Seq::empty(), Seq::empty())
}

proof fn lemma_has_id_view(s: Seq<EvidenceNode>, id: Seq<char>)
    ensures
        seq_has_id(s, id) == view_has_id(nodes_view(s), id),
{
    if seq_has_id(s, id) {
        let i = choose|i: int| 0 <= i < s.len() && #[trigger] s[i].id@ == id;
        assert(nodes_view(s)[i].0 == id);
    }
    if view_has_id(nodes_view(s), id) {
        let i = choose|i: int| 0 <= i < nodes_view(s).len() && #[trigger] nodes_view(s)[i].0 == id;
        assert(s[i].id@ == id);
    }
}

/// Some node of the sequence has the given id.
pub open spec fn seq_has_id(nodes: Seq<EvidenceNode>, id: Seq<char>) -> bool {
    exists|i: int| 0 <= i < nodes.len() && #[trigger] nodes[i].id@ == id
}

pub open spec fn seq_ids_distinct(nodes: Seq<EvidenceNode>) -> bool {
    forall|i: int, j: int| 0 <= i < j < nodes.len() ==> nodes[i].id@ != nodes[j].id@
}

/// Every relationship names nodes of the sequence at both ends.
pub open spec fn refs_sound(nodes: Seq<EvidenceNode>, rels: Seq<Relationship>) -> bool {
    forall|k: int|
        0 <= k < rels.len() ==> seq_has_id(nodes, #[trigger] rels[k].from@) && seq_has_id(nodes, rels[k].to@)
}

/// The nodes `base` holds after the nodes `extra` are added one by one,
/// each skipped when its id is already present.
pub open spec fn merged_nodes(base: Seq<EvidenceNode>, extra: Seq<EvidenceNode>) -> Seq<EvidenceNode>
    decreases extra.len(),
{
    if extra.len() == 0 {
        base
    } else {
        let b = merged_nodes(base, extra.drop_last());
        if seq_has_id(b, extra.last().id@) {
            b
        } else {
            b.push(extra.last())
        }
    }
}

pub open spec fn node_fields(n: EvidenceNode, id: Seq<char>, node_type: Seq<char>, label: Seq<char>, value: Seq<char>) -> bool {
    n.id@ == id && n.node_type@ == node_type && n.label@ == label && n.value@ == value
}

pub open spec fn rel_fields(r: Relationship, from: Seq<char>, relation: Seq<char>, to: Seq<char>) -> bool {
    r.from@ == from && r.relation@ == relation && r.to@ == to
}

proof fn lemma_push_keeps_ids(nodes: Seq<EvidenceNode>, n: EvidenceNode)
    ensures
        forall|id: Seq<char>| seq_has_id(nodes, id) ==> #[trigger] seq_has_id(nodes.push(n), id),
        seq_has_id(nodes.push(n), n.id@),
{
    assert(nodes.push(n)[nodes.len() as int] == n);
    assert forall|id: Seq<char>| seq_has_id(nodes, id) implies #[trigger] seq_has_id(nodes.push(n), id) by {
        let i = choose|i: int| 0 <= i < nodes.len() && #[trigger] nodes[i].id@ == id;
        assert(nodes.push(n)[i] == nodes[i]);
    }
}

/// Every id of `base` or of `extra` is an id of the merged nodes.
proof fn lemma_merged_keeps_ids(base: Seq<EvidenceNode>, extra: Seq<EvidenceNode>)
    ensures
        forall|id: Seq<char>|
            seq_has_id(base, id) || seq_has_id(extra, id) ==> #[trigger] seq_has_id(
                merged_nodes(base, extra),
                id,
            ),
    decreases extra.len(),
{
    if extra.len() > 0 {
        let prev = extra.drop_last();
        lemma_merged_keeps_ids(base, prev);
        let b = merged_nodes(base, prev);
        lemma_push_keeps_ids(b, extra.last());
        assert forall|id: Seq<char>| seq_has_id(base, id) || seq_has_id(extra, id) implies #[trigger] seq_has_id(
            merged_nodes(base, extra),
            id,
        ) by {
            if seq_has_id(extra, id) && !seq_has_id(base, id) {
                let i = choose|i: int| 0 <= i < extra.len() && #[trigger] extra[i].id@ == id;
                if i < prev.len() {
                    assert(prev[i] == extra[i]);
                    assert(seq_has_id(prev, id));
                }
            }
        }
    }
}

proof fn lemma_has_id_in_merged(base: Seq<EvidenceNode>, extra: Seq<EvidenceNode>, id: Seq<char>)
    requires
        seq_has_id(base, id) || seq_has_id(extra, id),
    ensures
        seq_has_id(merged_nodes(base, extra), id),
{
    lemma_merged_keeps_ids(base, extra);
}

/// A graph whose node ids are distinct and whose relationships only name
/// existing nodes, such as one a `SystemGraph` builds from its own nodes, is
/// never rejected for a repeated node id or for a missing node.
pub proof fn lemma_sound_graph_validation(g: EvidenceGraph, r: Result<(), GraphValidationError>)
    requires
        node_ids_distinct(g),
        refs_sound(g.nodes@, g.relationships@),
        validation_result(g, r),
    ensures
        !(r matches Err(GraphValidationError::DuplicateNodeId(_))),
        !(r matches Err(GraphValidationError::MissingNodeReference(_))),
{
    if let Err(GraphValidationError::DuplicateNodeId(_)) = r {
        let j = choose|j: int| 0 <= j < g.nodes@.len() && #[trigger] crate::inspectors::finding::dup_node_at(g, j)
            && (forall|j2: int| 0 <= j2 < j ==> !#[trigger] crate::inspectors::finding::dup_node_at(g, j2))
            && r->Err_0->DuplicateNodeId_0 == g.nodes@[j].id;
        let i = choose|i: int| 0 <= i < j && #[trigger] g.nodes@[i].id@ == g.nodes@[j].id@;
        assert(g.nodes@[i].id@ != g.nodes@[j].id@);
    }
    if let Err(GraphValidationError::MissingNodeReference(id)) = r {
        let k = choose|k: int|
            {
                &&& 0 <= k < g.relationships@.len()
                &&& #[trigger] crate::inspectors::finding::rels_sound_before(g, k)
                &&& if !has_node(g, g.relationships@[k].from@) {
                    id == g.relationships@[k].from
                } else {
                    !has_node(g, g.relationships@[k].to@) && id == g.relationships@[k].to
                }
            };
        assert(seq_has_id(g.nodes@, g.relationships@[k].from@));
        assert(seq_has_id(g.nodes@, g.relationships@[k].to@));
    }
}

/// A builder that accumulates nodes and relationships from several
/// inspectors, using stable namespaced ids, and turns them into an
/// `EvidenceGraph` or a full `Finding`.
///
/// Node ids follow a `"type:value"` convention, such as `"port:8080"`,
/// `"pid:18472"`, `"exe:node"`, `"runtime:node"` or `"project:api"`.
pub struct SystemGraph {
    nodes: Vec<EvidenceNode>,
    relationships: Vec<Relationship>,
}

impl SystemGraph {
    pub closed spec fn node_seq(self) -> Seq<EvidenceNode> {
        self.nodes@
    }

    pub closed spec fn relationship_seq(self) -> Seq<Relationship> {
        self.relationships@
    }

    /// The graph built so far, as text.
    pub open spec fn gview(self) -> GraphView {
        (nodes_view(self.node_seq()), rels_view(self.relationship_seq()))
    }

    /// No two nodes share an id.
    pub open spec fn wf(self) -> bool {
        seq_ids_distinct(self.node_seq())
    }

    pub fn new() -> (g: Self)
        ensures
            g.wf(),
            g.node_seq() == Seq::<EvidenceNode>::empty(),
            g.relationship_seq() == Seq::<Relationship>::empty(),
            g.gview() == empty_graph(),
            refs_sound(g.node_seq(), g.relationship_seq()),
    {
        proof {
            assert(nodes_view(Seq::<EvidenceNode>::empty()) =~= Seq::<NodeView>::empty());
            assert(rels_view(Seq::<Relationship>::empty()) =~= Seq::<RelView>::empty());
        }
        Self { nodes: Vec::new(), relationships: Vec::new() }
    }

    fn contains_id(&self, id: &String) -> (r: bool)
        ensures
            r == seq_has_id(self.node_seq(), id@),
    {
        let n = self.nodes.len();
        let mut i: usize = 0;
        while i < n
            invariant
                n == self.nodes@.len(),
                i <= n,
                forall|i2: int| 0 <= i2 < i ==> #[trigger] self.nodes@[i2].id@ != id@,
            decreases n - i,
        {
            if self.nodes[i].id == *id {
                return true;
            }
            i += 1;
        }
        false
    }

    /// Adds a node; does nothing when a node with the same id is present.
    pub fn node(&mut self, id: &str, node_type: &str, label: &str, value: &str)
        requires
            old(self).wf(),
        ensures
            final(self).wf(),
            final(self).gview() == with_node(old(self).gview(), id@, node_type@, label@, value@),
            final(self).relationship_seq() == old(self).relationship_seq(),
            seq_has_id(final(self).node_seq(), id@),
            refs_sound(old(self).node_seq(), old(self).relationship_seq()) ==> refs_sound(
                final(self).node_seq(),
                final(self).relationship_seq(),
            ),
            seq_has_id(old(self).node_seq(), id@) ==> final(self).node_seq() == old(self).node_seq(),
            !seq_has_id(old(self).node_seq(), id@) ==> {
                &&& final(self).node_seq().len() == old(self).node_seq().len() + 1
                &&& final(self).node_seq().drop_last() == old(self).node_seq()
                &&& node_fields(final(self).node_seq().last(), id@, node_type@, label@, value@)
            },
    {
        proof {
            lemma_has_id_view(self.nodes@, id@);
        }
        let id_string = String::from_str(id);
        if !self.contains_id(&id_string) {
            let ghost old_nodes = self.nodes@;
            self.nodes.push(
                EvidenceNode {
                    id: id_string,
                    node_type: String::from_str(node_type),
                    label: String::from_str(label),
                    value: String::from_str(value),
                },
            );
            proof {
                assert(self.nodes@.drop_last() == old_nodes);
                assert forall|i: int, j: int| 0 <= i < j < self.nodes@.len() implies self.nodes@[i].id@
                    != self.nodes@[j].id@ by {
                    if j == old_nodes.len() {
                        assert(old_nodes[i].id@ != id@);
                    } else {
                        assert(old_nodes[i].id@ != old_nodes[j].id@);
                    }
                }
                assert(self.nodes@[old_nodes.len() as int].id@ == id@);
                lemma_push_keeps_ids(old_nodes, self.nodes@.last());
                assert(nodes_view(self.nodes@) =~= nodes_view(old_nodes).push((id@, node_type@, label@, value@)));
            }
        }
    }

    /// Adds a directed relationship; does nothing unless both ends are present.
    pub fn edge(&mut self, from: &str, relation: &str, to: &str)
        requires
            old(self).wf(),
        ensures
            final(self).wf(),
            final(self).gview() == with_edge(old(self).gview(), from@, relation@, to@),
            final(self).node_seq() == old(self).node_seq(),
            refs_sound(old(self).node_seq(), old(self).relationship_seq()) ==> refs_sound(
                final(self).node_seq(),
                final(self).relationship_seq(),
            ),
            (seq_has_id(old(self).node_seq(), from@) && seq_has_id(old(self).node_seq(), to@)) ==> {
                &&& final(self).relationship_seq().len() == old(self).relationship_seq().len() + 1
                &&& final(self).relationship_seq().drop_last() == old(self).relationship_seq()
                &&& rel_fields(final(self).relationship_seq().last(), from@, relation@, to@)
            },
            !(seq_has_id(old(self).node_seq(), from@) && seq_has_id(old(self).node_seq(), to@))
                ==> final(self).relationship_seq() == old(self).relationship_seq(),
    {
        proof {
            lemma_has_id_view(self.nodes@, from@);
            lemma_has_id_view(self.nodes@, to@);
        }
        let from_string = String::from_str(from);
        let to_string = String::from_str(to);
        let from_exists = self.contains_id(&from_string);
        let to_exists = self.contains_id(&to_string);
        if from_exists && to_exists {
            let ghost old_rels = self.relationships@;
            self.relationships.push(
                Relationship { from: from_string, relation: String::from_str(relation), to: to_string },
            );
            proof {
                assert(self.relationships@.drop_last() == old_rels);
                assert(rels_view(self.relationships@) =~= rels_view(old_rels).push((from@, relation@, to@)));
                assert(self.relationships@.last().from@ == from@);
                assert(self.relationships@.last().to@ == to@);
                if refs_sound(self.nodes@, old_rels) {
                    assert forall|k: int| 0 <= k < self.relationships@.len() implies seq_has_id(
                        self.nodes@,
                        #[trigger] self.relationships@[k].from@,
                    ) && seq_has_id(self.nodes@, self.relationships@[k].to@) by {
                        if k < old_rels.len() {
                            assert(old_rels[k] == self.relationships@[k]);
                        }
                    }
                }
            }
        }
    }

    /// Merges a graph in: its nodes are added in order, skipping ids already
    /// present, and all its relationships are appended.
    pub fn merge(&mut self, other: EvidenceGraph)
        requires
            old(self).wf(),
        ensures
            final(self).wf(),
            final(self).node_seq() == merged_nodes(old(self).node_seq(), other.nodes@),
            final(self).relationship_seq() == old(self).relationship_seq() + other.relationships@,
            refs_sound(old(self).node_seq(), old(self).relationship_seq()) && refs_sound(
                other.nodes@,
                other.relationships@,
            ) ==> refs_sound(final(self).node_seq(), final(self).relationship_seq()),
    {
        let EvidenceGraph { nodes: other_nodes, relationships: mut other_rels } = other;
        let ghost base = self.nodes@;
        let ghost extra = other_nodes@;
        for n in it: other_nodes.into_iter()
            invariant
                it.seq() == extra,
                self.relationships@ == old(self).relationships@,
                other_rels@ == other.relationships@,
                seq_ids_distinct(self.nodes@),
                self.nodes@ == merged_nodes(base, extra.take(it.index())),
        {
            proof {
                assert(extra.take(it.index() + 1).drop_last() == extra.take(it.index()));
            }
            let id = n.id.clone();
            if !self.contains_id(&id) {
                let ghost before = self.nodes@;
                self.nodes.push(n);
                proof {
                    assert forall|i: int, j: int| 0 <= i < j < self.nodes@.len() implies self.nodes@[i].id@
                        != self.nodes@[j].id@ by {
                        if j == before.len() {
                            assert(before[i].id@ != id@);
                        } else {
                            assert(before[i].id@ != before[j].id@);
                        }
                    }
                }
            }
        }
        proof {
            assert(extra.take(extra.len() as int) == extra);
        }
        let ghost old_rels = self.relationships@;
        self.relationships.append(&mut other_rels);
        proof {
            lemma_merged_keeps_ids(base, extra);
            if refs_sound(base, old_rels) && refs_sound(extra, other.relationships@) {
                let rels = self.relationships@;
                assert forall|k: int| 0 <= k < rels.len() implies seq_has_id(
                    self.nodes@,
                    #[trigger] rels[k].from@,
                ) && seq_has_id(self.nodes@, rels[k].to@) by {
                    if k < old_rels.len() {
                        assert(old_rels[k] == rels[k]);
                        lemma_has_id_in_merged(base, extra, rels[k].from@);
                        lemma_has_id_in_merged(base, extra, rels[k].to@);
                    } else {
                        let k2 = k - old_rels.len();
                        assert(other.relationships@[k2] == rels[k]);
                        lemma_has_id_in_merged(base, extra, rels[k].from@);
                        lemma_has_id_in_merged(base, extra, rels[k].to@);
                    }
                }
            }
        }
    }

    /// Consumes the builder into an evidence graph.
    pub fn build(self) -> (g: EvidenceGraph)
        requires
            self.wf(),
        ensures
            g.nodes@ == self.node_seq(),
            g.relationships@ == self.relationship_seq(),
            evidence_view(g) == self.gview(),
            node_ids_distinct(g),
    {
        EvidenceGraph::new(self.nodes, self.relationships)
    }

    /// Consumes the builder into a complete finding.
    pub fn into_finding(
        self,
        severity: Severity,
        subject: String,
        cause: String,
        suggestion: Option<String>,
    ) -> (f: Finding)
        requires
            self.wf(),
        ensures
            f.severity == severity,
            f.subject == subject,
            f.cause == cause,
            f.suggestion == suggestion,
            f.graph.nodes@ == self.node_seq(),
            f.graph.relationships@ == self.relationship_seq(),
            evidence_view(f.graph) == self.gview(),
            node_ids_distinct(f.graph),
    {
        Finding { severity, subject, cause, graph: EvidenceGraph::new(self.nodes, self.relationships), suggestion }
    }
}

} // verus!

verus! {

// ---------------------------------------------------------------------------
// Graph views shaped like trees drawn downward by levels.
// ---------------------------------------------------------------------------

/// Every relationship of the view names nodes of the view.
pub open spec fn view_refs_sound(v: GraphView) -> bool {
    forall|k: int| 0 <= k < v.1.len() ==> view_has_id(v.0, #[trigger] v.1[k].0) && view_has_id(v.0, v.1[k].2)
}

/// No two relationships of the view lead to the same node.
pub open spec fn view_targets_distinct(v: GraphView) -> bool {
    forall|a: int, b: int| 0 <= a < b < v.1.len() ==> #[trigger] v.1[a].2 != #[trigger] v.1[b].2
}

/// Every relationship of the view leads to a node of a higher level.
pub open spec fn view_descends(v: GraphView, level: spec_fn(Seq<char>) -> int) -> bool {
    forall|k: int| 0 <= k < v.1.len() ==> level(#[trigger] v.1[k].0) < level(v.1[k].2)
}

/// Every node of the view lies below level `bound`.
pub open spec fn view_below(v: GraphView, level: spec_fn(Seq<char>) -> int, bound: int) -> bool {
    forall|i: int| 0 <= i < v.0.len() ==> level(#[trigger] v.0[i].0) < bound
}

pub open spec fn view_tree_like(v: GraphView, level: spec_fn(Seq<char>) -> int) -> bool {
    &&& view_refs_sound(v)
    &&& view_targets_distinct(v)
    &&& view_descends(v, level)
}

/// Adding a node that is not present, and a relationship to it from a node
/// of lower level, keeps a view tree-like.
pub proof fn lemma_new_child(
    g: GraphView,
    level: spec_fn(Seq<char>) -> int,
    from: Seq<char>,
    relation: Seq<char>,
    id: Seq<char>,
    node_type: Seq<char>,
    label: Seq<char>,
    value: Seq<char>,
)
    requires
        view_tree_like(g, level),
        !view_has_id(g.0, id),
        level(from) < level(id),
    ensures
        view_tree_like(with_edge(with_node(g, id, node_type, label, value), from, relation, id), level),
        with_edge(with_node(g, id, node_type, label, value), from, relation, id).0 == g.0.push(
            (id, node_type, label, value),
        ),
{
    let g1 = with_node(g, id, node_type, label, value);
    assert(g1 == (g.0.push((id, node_type, label, value)), g.1));
    assert forall|k: int| 0 <= k < g1.1.len() implies view_has_id(g1.0, #[trigger] g1.1[k].0) && view_has_id(g1.0, g1.1[k].2) by {
        assert(view_has_id(g.0, g.1[k].0));
        let a = choose|i: int| 0 <= i < g.0.len() && #[trigger] g.0[i].0 == g.1[k].0;
        let b = choose|i: int| 0 <= i < g.0.len() && #[trigger] g.0[i].0 == g.1[k].2;
        assert(g1.0[a].0 == g1.1[k].0);
        assert(g1.0[b].0 == g1.1[k].2);
    }
    assert(g1.0[g.0.len() as int].0 == id);
    let g2 = with_edge(g1, from, relation, id);
    if view_has_id(g1.0, from) && view_has_id(g1.0, id) {
        assert forall|k: int| 0 <= k < g.1.len() implies #[trigger] g.1[k].2 != id by {
            assert(view_has_id(g.0, g.1[k].0));
        }
        assert forall|a: int, b: int| 0 <= a < b < g2.1.len() implies #[trigger] g2.1[a].2 != #[trigger] g2.1[b].2 by {
            if b == g.1.len() {
                assert(g2.1[a] == g.1[a]);
            } else {
                assert(g2.1[a] == g.1[a] && g2.1[b] == g.1[b]);
            }
        }
        assert forall|k: int| 0 <= k < g2.1.len() implies level(#[trigger] g2.1[k].0) < level(g2.1[k].2) by {
            if k < g.1.len() {
                assert(g2.1[k] == g.1[k]);
            }
        }
        assert forall|k: int| 0 <= k < g2.1.len() implies view_has_id(g2.0, #[trigger] g2.1[k].0) && view_has_id(g2.0, g2.1[k].2) by {
            if k < g.1.len() {
                assert(g2.1[k] == g1.1[k]);
            }
        }
    }
}

/// Adding a node above every node present, and a relationship to it from a
/// node of lower level, keeps a view tree-like, and every node stays at or
/// below the new one's level.
pub proof fn lemma_fresh_child(
    g: GraphView,
    level: spec_fn(Seq<char>) -> int,
    from: Seq<char>,
    relation: Seq<char>,
    id: Seq<char>,
    node_type: Seq<char>,
    label: Seq<char>,
    value: Seq<char>,
)
    requires
        view_tree_like(g, level),
        view_below(g, level, level(id)),
        level(from) < level(id),
    ensures
        view_tree_like(with_edge(with_node(g, id, node_type, label, value), from, relation, id), level),
        view_below(with_edge(with_node(g, id, node_type, label, value), from, relation, id), level, level(id) + 1),
        with_edge(with_node(g, id, node_type, label, value), from, relation, id).0 == g.0.push(
            (id, node_type, label, value),
        ),
{
    if view_has_id(g.0, id) {
        let i = choose|i: int| 0 <= i < g.0.len() && #[trigger] g.0[i].0 == id;
        assert(level(g.0[i].0) < level(id));
    }
    lemma_new_child(g, level, from, relation, id, node_type, label, value);
    let g2 = with_edge(with_node(g, id, node_type, label, value), from, relation, id);
    assert forall|i: int| 0 <= i < g2.0.len() implies level(#[trigger] g2.0[i].0) < level(id) + 1 by {
        if i < g.0.len() {
            assert(g2.0[i] == g.0[i]);
        }
    }
}

/// A graph whose view is tree-like passes validation, provided its node ids
/// are distinct.
pub proof fn lemma_tree_like_valid(g: EvidenceGraph, level: spec_fn(Seq<char>) -> int)
    requires
        node_ids_distinct(g),
        view_tree_like(evidence_view(g), level),
    ensures
        validation_result(g, Ok(())),
{
    let v = evidence_view(g);
    let n = g.nodes@.len();
    let m = g.relationships@.len();
    assert forall|k: int| 0 <= k < m implies level(#[trigger] g.relationships@[k].from@) < level(g.relationships@[k].to@) by {
        assert(v.1[k] == rview(g.relationships@[k]));
        assert(level(v.1[k].0) < level(v.1[k].2));
    }
    assert forall|k2: int| 0 <= k2 < m implies !#[trigger] rel_fault(g, k2) by {
        assert(v.1[k2] == rview(g.relationships@[k2]));
        assert(view_has_id(v.0, v.1[k2].0));
        let a = choose|i: int| 0 <= i < v.0.len() && #[trigger] v.0[i].0 == v.1[k2].0;
        let b = choose|i: int| 0 <= i < v.0.len() && #[trigger] v.0[i].0 == v.1[k2].2;
        assert(v.0[a] == nview(g.nodes@[a]));
        assert(v.0[b] == nview(g.nodes@[b]));
        assert(has_node(g, g.relationships@[k2].from@));
        assert(has_node(g, g.relationships@[k2].to@));
        if dup_rel_at(g, k2) {
            let i = choose|i: int| 0 <= i < k2 && same_relationship(#[trigger] g.relationships@[i], g.relationships@[k2]);
            assert(v.1[i] == rview(g.relationships@[i]));
            assert(v.1[i].2 != v.1[k2].2);
        }
    }
    assert forall|i: int| 0 <= i < n implies !#[trigger] reaches_cycle(g, i) by {
        if reaches_cycle(g, i) {
            let p = choose|p: Seq<int>| #[trigger] is_lasso(g, p) && p[0] == i;
            let j = choose|j: int| 0 <= j < p.len() - 1 && #[trigger] p[j] == p.last();
            lemma_walk_climbs(g, level, p, j, p.len() - 1);
        }
    }
}

proof fn lemma_walk_climbs(g: EvidenceGraph, level: spec_fn(Seq<char>) -> int, p: Seq<int>, a: int, b: int)
    requires
        is_lasso(g, p),
        0 <= a < b < p.len(),
        forall|k: int|
            0 <= k < g.relationships@.len() ==> level(#[trigger] g.relationships@[k].from@) < level(
                g.relationships@[k].to@,
            ),
    ensures
        level(g.nodes@[p[a]].id@) < level(g.nodes@[p[b]].id@),
    decreases b - a,
{
    assert(node_edge(g, p[b - 1], p[b]));
    let k = choose|k: int|
        0 <= k < g.relationships@.len() && #[trigger] g.relationships@[k].from@ == g.nodes@[p[b - 1]].id@
            && g.relationships@[k].to@ == g.nodes@[p[b]].id@;
    if a < b - 1 {
        lemma_walk_climbs(g, level, p, a, b - 1);
    }
}

} // verus!

verus! {

/// A call on a builder, as plain values: `true` for `node(a, b, c, d)`,
/// `false` for `edge(a, b, c)` (the fourth text unused).
pub type BuildStep = (bool, Seq<char>, Seq<char>, Seq<char>, Seq<char>);

/// The graph a builder holds after the calls `steps`, starting from `g`; each
/// call changes the view as `node` and `edge` state.
pub open spec fn after_steps(g: GraphView, steps: Seq<BuildStep>) -> GraphView
    decreases steps.len(),
{
    if steps.len() == 0 {
        g
    } else {
        let prev = after_steps(g, steps.drop_last());
        let s = steps.last();
        if s.0 {
            with_node(prev, s.1, s.2, s.3, s.4)
        } else {
            with_edge(prev, s.1, s.2, s.3)
        }
    }
}

pub open spec fn view_ids_distinct(ns: Seq<NodeView>) -> bool {
    forall|i: int, j: int| 0 <= i < j < ns.len() ==> ns[i].0 != ns[j].0
}

proof fn lemma_steps_sound(steps: Seq<BuildStep>)
    ensures
        view_ids_distinct(after_steps(empty_graph(), steps).0),
        view_refs_sound(after_steps(empty_graph(), steps)),
    decreases steps.len(),
{
    if steps.len() > 0 {
        lemma_steps_sound(steps.drop_last());
        let prev = after_steps(empty_graph(), steps.drop_last());
        let g = after_steps(empty_graph(), steps);
        let s = steps.last();
        if s.0 {
            if !view_has_id(prev.0, s.1) {
                assert(g.0 == prev.0.push((s.1, s.2, s.3, s.4)));
                assert forall|i: int, j: int| 0 <= i < j < g.0.len() implies g.0[i].0 != g.0[j].0 by {
                    if j == prev.0.len() {
                        assert(g.0[i] == prev.0[i]);
                    } else {
                        assert(g.0[i] == prev.0[i] && g.0[j] == prev.0[j]);
                    }
                }
                assert forall|k: int| 0 <= k < g.1.len() implies view_has_id(g.0, #[trigger] g.1[k].0) && view_has_id(
                    g.0,
                    g.1[k].2,
                ) by {
                    assert(view_has_id(prev.0, prev.1[k].0));
                    let a = choose|i: int| 0 <= i < prev.0.len() && #[trigger] prev.0[i].0 == prev.1[k].0;
                    let b = choose|i: int| 0 <= i < prev.0.len() && #[trigger] prev.0[i].0 == prev.1[k].2;
                    assert(g.0[a] == prev.0[a] && g.0[b] == prev.0[b]);
                }
            }
        } else {
            if view_has_id(prev.0, s.1) && view_has_id(prev.0, s.3) {
                assert forall|k: int| 0 <= k < g.1.len() implies view_has_id(g.0, #[trigger] g.1[k].0) && view_has_id(
                    g.0,
                    g.1[k].2,
                ) by {
                    if k < prev.1.len() {
                        assert(g.1[k] == prev.1[k]);
                        assert(view_has_id(prev.0, prev.1[k].0));
                    }
                }
            }
        }
    }
}

/// Whatever `node` and `edge` calls build a graph from a new builder, its
/// node ids are distinct and its relationships name existing nodes, so
/// validation never rejects it for a repeated node id or a missing node.
/// `steps` lists the calls in order; `new` starts from `empty_graph()`, and
/// each call changes `gview` exactly as `after_steps` takes one more step
/// (the `ensures` of `node` and `edge`), which `build` hands on as
/// `evidence_view(g)`.
pub proof fn lemma_built_graph_sound(g: EvidenceGraph, steps: Seq<BuildStep>, r: Result<(), GraphValidationError>)
    requires
        evidence_view(g) == after_steps(empty_graph(), steps),
        validation_result(g, r),
    ensures
        node_ids_distinct(g),
        !(r matches Err(GraphValidationError::DuplicateNodeId(_))),
        !(r matches Err(GraphValidationError::MissingNodeReference(_))),
{
    lemma_steps_sound(steps);
    let v = evidence_view(g);
    assert forall|i: int, j: int| 0 <= i < j < g.nodes@.len() implies g.nodes@[i].id@ != g.nodes@[j].id@ by {
        assert(v.0[i] == nview(g.nodes@[i]) && v.0[j] == nview(g.nodes@[j]));
    }
    assert forall|k: int| 0 <= k < g.relationships@.len() implies seq_has_id(g.nodes@, #[trigger] g.relationships@[k].from@)
        && seq_has_id(g.nodes@, g.relationships@[k].to@) by {
        assert(v.1[k] == rview(g.relationships@[k]));
        assert(view_has_id(v.0, v.1[k].0));
        let a = choose|i: int| 0 <= i < v.0.len() && #[trigger] v.0[i].0 == v.1[k].0;
        let b = choose|i: int| 0 <= i < v.0.len() && #[trigger] v.0[i].0 == v.1[k].2;
        assert(v.0[a] == nview(g.nodes@[a]) && v.0[b] == nview(g.nodes@[b]));
    }
    lemma_sound_graph_validation(g, r);
}

} // verus!
