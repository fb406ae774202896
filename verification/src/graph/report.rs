use vstd::prelude::*;
use crate::inspectors::finding::{Finding, Severity};

verus! {

/// The findings of `fs` with severity `sev`, in their order.
pub open spec fn with_severity(fs: Seq<Finding>, sev: Severity) -> Seq<Finding>
    decreases fs.len(),
{
    if fs.len() == 0 {
        seq![]
    } else {
        let prev = with_severity(fs.drop_last(), sev);
        if fs.last().severity == sev {
            prev.push(fs.last())
        } else {
            prev
        }
    }
}

/// The findings ranked from most to least severe; findings of equal
/// severity keep their order.
pub open spec fn ranked(fs: Seq<Finding>) -> Seq<Finding> {
    with_severity(fs, Severity::Error) + with_severity(fs, Severity::Warning) + with_severity(fs, Severity::Info)
}

/// Some node of `a`'s evidence has the same id as some node of `b`'s.
pub open spec fn share_node_id(a: Finding, b: Finding) -> bool {
    exists|i: int, j: int|
        0 <= i < a.graph.nodes@.len() && 0 <= j < b.graph.nodes@.len() && #[trigger] a.graph.nodes@[i].id@
            == #[trigger] b.graph.nodes@[j].id@
}

/// A ranked collection of findings for one inspection target.
#[derive(Debug)]
pub struct DiagnosticReport {
    pub title: String,
    pub findings: Vec<Finding>,
}

/// Sorts findings from most to least severe, keeping the order of findings of
/// equal severity.
fn rank_findings(findings: Vec<Finding>) -> (r: Vec<Finding>)
    ensures
        r@ == ranked(findings@),
{
    let ghost all = findings@;
    let mut errors: Vec<Finding> = Vec::new();
    let mut warnings: Vec<Finding> = Vec::new();
    let mut infos: Vec<Finding> = Vec::new();
    for f in it: findings.into_iter()
        invariant
            it.seq() == all,
            errors@ == with_severity(all.take(it.index()), Severity::Error),
            warnings@ == with_severity(all.take(it.index()), Severity::Warning),
            infos@ == with_severity(all.take(it.index()), Severity::Info),
    {
        proof {
            assert(all.take(it.index() + 1).drop_last() == all.take(it.index()));
            assert(all.take(it.index() + 1).last() == f);
        }
        match f.severity {
            Severity::Error => errors.push(f),
            Severity::Warning => warnings.push(f),
            Severity::Info => infos.push(f),
        }
    }
    proof {
        assert(all.take(all.len() as int) == all);
    }
    errors.append(&mut warnings);
    errors.append(&mut infos);
    errors
}

impl DiagnosticReport {
    /// A report with its findings ranked from most to least severe.
    pub fn new(title: String, findings: Vec<Finding>) -> (r: Self)
        ensures
            r.title == title,
            r.findings@ == ranked(findings@),
    {
        Self { title, findings: rank_findings(findings) }
    }

    /// Adds a finding and ranks the findings again.
    pub fn add(&mut self, finding: Finding)
        ensures
            final(self).title == old(self).title,
            final(self).findings@ == ranked(old(self).findings@.push(finding)),
    {
        let mut findings: Vec<Finding> = Vec::new();
        std::mem::swap(&mut findings, &mut self.findings);
        findings.push(finding);
        self.findings = rank_findings(findings);
    }

    /// The findings that block: those of severity `Error`, in report order.
    pub fn blockers(&self) -> (r: Vec<&Finding>)
        ensures
            r@.len() == with_severity(self.findings@, Severity::Error).len(),
            forall|j: int|
                0 <= j < r@.len() ==> *#[trigger] r@[j] == with_severity(self.findings@, Severity::Error)[j],
    {
        let n = self.findings.len();
        let mut r: Vec<&Finding> = Vec::new();
        let mut i: usize = 0;
        while i < n
            invariant
                n == self.findings@.len(),
                i <= n,
                r@.len() == with_severity(self.findings@.take(i as int), Severity::Error).len(),
                forall|j: int|
                    0 <= j < r@.len() ==> *#[trigger] r@[j] == with_severity(
                        self.findings@.take(i as int),
                        Severity::Error,
                    )[j],
            decreases n - i,
        {
            proof {
                assert(self.findings@.take(i + 1).drop_last() == self.findings@.take(i as int));
            }
            if self.findings[i].severity == Severity::Error {
                r.push(&self.findings[i]);
            }
            i += 1;
        }
        proof {
            assert(self.findings@.take(n as int) == self.findings@);
        }
        r
    }

    /// True when the two findings share no node id: they are independent
    /// problems with separate causal chains.
    pub fn are_independent(a: &Finding, b: &Finding) -> (r: bool)
        ensures
            r == !share_node_id(*a, *b),
    {
        let na = a.graph.nodes.len();
        let nb = b.graph.nodes.len();
        let mut i: usize = 0;
        while i < na
            invariant
                na == a.graph.nodes@.len(),
                nb == b.graph.nodes@.len(),
                i <= na,
                forall|i2: int, j2: int|
                    0 <= i2 < i && 0 <= j2 < nb ==> #[trigger] a.graph.nodes@[i2].id@ != #[trigger] b.graph.nodes@[j2].id@,
            decreases na - i,
        {
            let mut j: usize = 0;
            while j < nb
                invariant
                    na == a.graph.nodes@.len(),
                    nb == b.graph.nodes@.len(),
                    i < na,
                    j <= nb,
                    forall|i2: int, j2: int|
                        0 <= i2 < i && 0 <= j2 < nb ==> #[trigger] a.graph.nodes@[i2].id@
                            != #[trigger] b.graph.nodes@[j2].id@,
                    forall|j2: int| 0 <= j2 < j ==> a.graph.nodes@[i as int].id@ != #[trigger] b.graph.nodes@[j2].id@,
                decreases nb - j,
            {
                if a.graph.nodes[i].id == b.graph.nodes[j].id {
                    proof {
                        assert(a.graph.nodes@[i as int].id@ == b.graph.nodes@[j as int].id@);
                    }
                    return false;
                }
                j += 1;
            }
            i += 1;
        }
        true
    }
}

// ---------------------------------------------------------------------------
// Laws of ranking.
// ---------------------------------------------------------------------------

proof fn lemma_with_severity_concat(a: Seq<Finding>, b: Seq<Finding>, sev: Severity)
    ensures
        with_severity(a + b, sev) == with_severity(a, sev) + with_severity(b, sev),
    decreases b.len(),
{
    if b.len() == 0 {
        assert(a + b == a);
    } else {
        lemma_with_severity_concat(a, b.drop_last(), sev);
        assert((a + b).drop_last() == a + b.drop_last());
        assert((a + b).last() == b.last());
    }
}

/// Selecting one severity from findings that all have one severity.
proof fn lemma_with_severity_of_selected(fs: Seq<Finding>, s: Severity, t: Severity)
    ensures
        with_severity(with_severity(fs, s), t) == if s == t { with_severity(fs, s) } else { seq![] },
    decreases fs.len(),
{
    if fs.len() > 0 {
        lemma_with_severity_of_selected(fs.drop_last(), s, t);
        let prev = with_severity(fs.drop_last(), s);
        if fs.last().severity == s {
            assert(prev.push(fs.last()).drop_last() == prev);
        }
    }
}

proof fn lemma_ranked_selects(fs: Seq<Finding>, t: Severity)
    ensures
        with_severity(ranked(fs), t) == with_severity(fs, t),
{
    let e = with_severity(fs, Severity::Error);
    let w = with_severity(fs, Severity::Warning);
    let i = with_severity(fs, Severity::Info);
    lemma_with_severity_concat(e + w, i, t);
    lemma_with_severity_concat(e, w, t);
    lemma_with_severity_of_selected(fs, Severity::Error, t);
    lemma_with_severity_of_selected(fs, Severity::Warning, t);
    lemma_with_severity_of_selected(fs, Severity::Info, t);
    assert(with_severity(ranked(fs), t) =~= with_severity(fs, t));
}

/// Ranking an already ranked list of findings changes nothing.
pub proof fn lemma_ranked_idempotent(fs: Seq<Finding>)
    ensures
        ranked(ranked(fs)) == ranked(fs),
{
    lemma_ranked_selects(fs, Severity::Error);
    lemma_ranked_selects(fs, Severity::Warning);
    lemma_ranked_selects(fs, Severity::Info);
}

/// Adding a finding to a report ranks it as if it had been among the
/// findings the report was made with.
pub proof fn lemma_add_after_new(fs: Seq<Finding>, f: Finding)
    ensures
        ranked(ranked(fs).push(f)) == ranked(fs.push(f)),
{
    let one = seq![f];
    assert(ranked(fs).push(f) == ranked(fs) + one);
    assert(fs.push(f) == fs + one);
    lemma_with_severity_concat(ranked(fs), one, Severity::Error);
    lemma_with_severity_concat(ranked(fs), one, Severity::Warning);
    lemma_with_severity_concat(ranked(fs), one, Severity::Info);
    lemma_with_severity_concat(fs, one, Severity::Error);
    lemma_with_severity_concat(fs, one, Severity::Warning);
    lemma_with_severity_concat(fs, one, Severity::Info);
    lemma_ranked_selects(fs, Severity::Error);
    lemma_ranked_selects(fs, Severity::Warning);
    lemma_ranked_selects(fs, Severity::Info);
}

/// Ranking keeps every finding: each severity keeps the same findings, in the
/// same order, and the blockers come first.
pub proof fn lemma_ranked_keeps_findings(fs: Seq<Finding>)
    ensures
        ranked(fs).len() == fs.len(),
        forall|sev: Severity| #[trigger] with_severity(ranked(fs), sev) == with_severity(fs, sev),
        ranked(fs).take(with_severity(fs, Severity::Error).len() as int) == with_severity(fs, Severity::Error),
{
    lemma_with_severity_lens(fs);
    assert forall|sev: Severity| #[trigger] with_severity(ranked(fs), sev) == with_severity(fs, sev) by {
        lemma_ranked_selects(fs, sev);
    }
    let e = with_severity(fs, Severity::Error);
    assert(ranked(fs).take(e.len() as int) =~= e);
}

proof fn lemma_with_severity_lens(fs: Seq<Finding>)
    ensures
        with_severity(fs, Severity::Error).len() + with_severity(fs, Severity::Warning).len() + with_severity(
            fs,
            Severity::Info,
        ).len() == fs.len(),
    decreases fs.len(),
{
    if fs.len() > 0 {
        lemma_with_severity_lens(fs.drop_last());
    }
}

/// Independence of two findings does not depend on their order.
pub proof fn lemma_independence_symmetric(a: Finding, b: Finding)
    ensures
        share_node_id(a, b) == share_node_id(b, a),
{
    if share_node_id(a, b) {
        let (i, j) = choose|i: int, j: int|
            0 <= i < a.graph.nodes@.len() && 0 <= j < b.graph.nodes@.len() && #[trigger] a.graph.nodes@[i].id@
                == #[trigger] b.graph.nodes@[j].id@;
        assert(b.graph.nodes@[j].id@ == a.graph.nodes@[i].id@);
    }
    if share_node_id(b, a) {
        let (j, i) = choose|j: int, i: int|
            0 <= j < b.graph.nodes@.len() && 0 <= i < a.graph.nodes@.len() && #[trigger] b.graph.nodes@[j].id@
                == #[trigger] a.graph.nodes@[i].id@;
        assert(a.graph.nodes@[i].id@ == b.graph.nodes@[j].id@);
    }
}

} // verus!

verus! {

/// No two blockers share a node id.
pub open spec fn pairwise_independent(bs: Seq<Finding>) -> bool {
    forall|i: int, j: int| 0 <= i < j < bs.len() ==> !share_node_id(#[trigger] bs[i], #[trigger] bs[j])
}

/// What the summary of a report states.
#[derive(Clone, Copy, Debug)]
pub struct ReportSummary {
    /// How many findings the report has.
    pub total: usize,
    /// How many of them block.
    pub blocking: usize,
    /// Whether no two blockers share evidence: the problems can be fixed in
    /// any order.
    pub independent: bool,
}

/// The suffix that makes "problem" or "blocker" agree with `n`.
pub fn plural(n: usize) -> (r: &'static str)
    ensures
        r@ == (if n == 1 { ""@ } else { "s"@ }),
{
    if n == 1 { "" } else { "s" }
}

impl DiagnosticReport {
    /// The counts and the independence verdict the report prints.
    pub fn summary(&self) -> (r: ReportSummary)
        ensures
            r.total == self.findings@.len(),
            r.blocking == with_severity(self.findings@, Severity::Error).len(),
            r.independent == pairwise_independent(with_severity(self.findings@, Severity::Error)),
    {
        let blockers = self.blockers();
        let ghost bs = with_severity(self.findings@, Severity::Error);
        let n = blockers.len();
        let mut independent = true;
        let mut i: usize = 0;
        while i < n
            invariant
                n == blockers@.len(),
                blockers@.len() == bs.len(),
                forall|j: int| 0 <= j < blockers@.len() ==> *#[trigger] blockers@[j] == bs[j],
                i <= n,
                independent == forall|a: int, b: int|
                    0 <= a < i && a < b < bs.len() ==> !share_node_id(#[trigger] bs[a], #[trigger] bs[b]),
            decreases n - i,
        {
            let mut j: usize = i + 1;
            let ghost before = independent;
            let mut row = true;
            while j < n
                invariant
                    n == blockers@.len(),
                    blockers@.len() == bs.len(),
                    forall|k: int| 0 <= k < blockers@.len() ==> *#[trigger] blockers@[k] == bs[k],
                    i < n,
                    i + 1 <= j <= n,
                    row == forall|b: int| i < b < j ==> !share_node_id(bs[i as int], #[trigger] bs[b]),
                decreases n - j,
            {
                let ok = DiagnosticReport::are_independent(blockers[i], blockers[j]);
                proof {
                    assert(*blockers@[i as int] == bs[i as int]);
                    assert(*blockers@[j as int] == bs[j as int]);
                }
                row = row && ok;
                j += 1;
            }
            independent = independent && row;
            proof {
                assert(independent == forall|a: int, b: int|
                    0 <= a < i + 1 && a < b < bs.len() ==> !share_node_id(#[trigger] bs[a], #[trigger] bs[b])) by {
                    if independent {
                        assert forall|a: int, b: int| 0 <= a < i + 1 && a < b < bs.len() implies !share_node_id(
                            #[trigger] bs[a],
                            #[trigger] bs[b],
                        ) by {
                            if a < i {
                                assert(before);
                            }
                        }
                    } else {
                        if !before {
                            let (a, b) = choose|a: int, b: int|
                                0 <= a < i && a < b < bs.len() && share_node_id(#[trigger] bs[a], #[trigger] bs[b]);
                        } else {
                            let b = choose|b: int| i < b < n && share_node_id(bs[i as int], #[trigger] bs[b]);
                        }
                    }
                }
            }
            i += 1;
        }
        ReportSummary { total: self.findings.len(), blocking: blockers.len(), independent }
    }
}

} // verus!

verus! {

/// How many findings of a ranked list are at least as severe as `sev`.
pub open spec fn at_least_as_severe(fs: Seq<Finding>, sev: Severity) -> int {
    let e = with_severity(fs, Severity::Error).len() as int;
    let w = with_severity(fs, Severity::Warning).len() as int;
    match sev {
        Severity::Error => e,
        Severity::Warning => e + w,
        Severity::Info => fs.len() as int,
    }
}

/// Adding a finding to ranked findings places it right after the last
/// finding at least as severe, and leaves the others in their order.
pub proof fn lemma_add_to_ranked(fs: Seq<Finding>, f: Finding)
    requires
        ranked(fs) == fs,
    ensures
        ranked(fs.push(f)) == fs.take(at_least_as_severe(fs, f.severity)) + seq![f] + fs.skip(
            at_least_as_severe(fs, f.severity),
        ),
{
    let one = seq![f];
    assert(fs.push(f) == fs + one);
    lemma_with_severity_concat(fs, one, Severity::Error);
    lemma_with_severity_concat(fs, one, Severity::Warning);
    lemma_with_severity_concat(fs, one, Severity::Info);
    lemma_with_severity_lens(fs);
    let e = with_severity(fs, Severity::Error);
    let w = with_severity(fs, Severity::Warning);
    let i = with_severity(fs, Severity::Info);
    assert(fs == e + w + i);
    let p = at_least_as_severe(fs, f.severity);
    assert(one.drop_last() =~= Seq::<Finding>::empty());
    assert(one.last() == f);
    assert(Seq::<Finding>::empty().push(f) =~= one);
    assert forall|sev: Severity| #[trigger] with_severity(one, sev) == (if f.severity == sev {
        one
    } else {
        Seq::<Finding>::empty()
    }) by {
        assert(with_severity(Seq::<Finding>::empty(), sev) == Seq::<Finding>::empty());
        assert(with_severity(one, sev) == (if one.last().severity == sev {
            with_severity(one.drop_last(), sev).push(one.last())
        } else {
            with_severity(one.drop_last(), sev)
        }));
    }
    match f.severity {
        Severity::Error => {
            assert(fs.take(p) =~= e);
            assert(fs.skip(p) =~= w + i);
            assert(ranked(fs.push(f)) =~= e + one + w + i);
        },
        Severity::Warning => {
            assert(fs.take(p) =~= e + w);
            assert(fs.skip(p) =~= i);
            assert(ranked(fs.push(f)) =~= e + w + one + i);
        },
        Severity::Info => {
            assert(fs.take(p) =~= fs);
            assert(fs.skip(p) =~= Seq::<Finding>::empty());
            assert(ranked(fs.push(f)) =~= e + w + i + one);
        },
    }
}

} // verus!
