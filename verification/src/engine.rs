//! The matching engine: one walk over a tree, in pre-order, under a budget.
//!
//! The walk keeps the nodes that are still to be visited on a work-list of
//! its own, so the depth of a tree costs memory of the list and none of the
//! call stack. At each node the rules that name the node's kind are
//! evaluated in the order of the rule set. A rule that cannot read a node is
//! recorded as a fault and the walk goes on.

use crate::detect::outcome;
use crate::rule::Fault;
use crate::rule::FaultModel;
use crate::rule::Finding;
use crate::rule::FindingModel;
use crate::rule::Outcome;
use crate::rule::RuleModel;
use crate::ruleset::RuleSet;
use crate::tree::Tree;
use crate::tree::TreeModel;
use vstd::prelude::*;

verus! {

impl TreeModel {
    /// The nodes of the subtree under node `i`, in pre-order: the node, then
    /// the subtrees of its children in their order.
    pub open spec fn subtree(self, i: usize) -> Seq<usize>
        decreases self.nodes.len() - i, self.children(i).len() + 1,
    {
        if self.has(i) {
            seq![i] + self.forest(i, 0)
        } else {
            Seq::empty()
        }
    }

    /// The nodes of the subtrees under the children of node `i` from child
    /// `k` on, in pre-order.
    pub open spec fn forest(self, i: usize, k: int) -> Seq<usize>
        decreases self.nodes.len() - i, self.children(i).len() - k,
    {
        if self.has(i) && 0 <= k < self.children(i).len() {
            let c = self.children(i)[k];
            if i < c && self.has(c) {
                self.subtree(c) + self.forest(i, k + 1)
            } else {
                self.forest(i, k + 1)
            }
        } else {
            Seq::empty()
        }
    }

    /// The nodes of the tree in pre-order, from the root.
    pub open spec fn preorder(self) -> Seq<usize> {
        self.subtree(0)
    }

    /// The nodes that a walk under a budget visits: the first `budget` nodes
    /// of the pre-order, or all of them where they are no more than that.
    pub open spec fn visited(self, budget: usize) -> Seq<usize> {
        if budget < self.preorder().len() {
            self.preorder().take(budget as int)
        } else {
            self.preorder()
        }
    }

    /// What a work-list stands for: the subtrees of its entries, the last
    /// entry first.
    pub open spec fn pending(self, list: Seq<usize>) -> Seq<usize>
        decreases list.len(),
    {
        if list.len() == 0 {
            Seq::empty()
        } else {
            self.subtree(list.last()) + self.pending(list.drop_last())
        }
    }

    /// Putting a node on the work-list puts its subtree in front of what the
    /// list stands for.
    pub proof fn lemma_pending_push(self, list: Seq<usize>, c: usize)
        ensures
            self.pending(list.push(c)) == self.subtree(c) + self.pending(list),
    {
        assert(list.push(c).drop_last() =~= list);
    }
}

/// What a rule says of node `i`: what its detector says where the rule names
/// the node's kind, and nothing elsewhere.
pub open spec fn rule_outcome(rule: RuleModel, t: TreeModel, i: usize) -> Outcome {
    if rule.kinds.contains(t.kind(i)) {
        outcome(rule.detector, t, i)
    } else {
        Outcome::Silent
    }
}

/// The finding of a rule at node `i`.
pub open spec fn finding_of(rule: RuleModel, t: TreeModel, i: usize) -> FindingModel {
    FindingModel {
        rule_id: rule.id,
        severity: rule.severity,
        span: t.nodes[i as int].span,
        message: rule.description,
    }
}

/// The findings of the first `upto` rules at node `i`, in the order of the rules.
pub open spec fn findings_at(rules: Seq<RuleModel>, t: TreeModel, i: usize, upto: int) -> Seq<
    FindingModel,
>
    decreases upto,
{
    if upto <= 0 {
        Seq::empty()
    } else if rule_outcome(rules[upto - 1], t, i) == Outcome::Match {
        findings_at(rules, t, i, upto - 1).push(finding_of(rules[upto - 1], t, i))
    } else {
        findings_at(rules, t, i, upto - 1)
    }
}

/// The faults of the first `upto` rules at node `i`, in the order of the rules.
pub open spec fn faults_at(rules: Seq<RuleModel>, t: TreeModel, i: usize, upto: int) -> Seq<
    FaultModel,
>
    decreases upto,
{
    if upto <= 0 {
        Seq::empty()
    } else if rule_outcome(rules[upto - 1], t, i) == Outcome::Fault {
        faults_at(rules, t, i, upto - 1).push(FaultModel { rule_id: rules[upto - 1].id, node: i })
    } else {
        faults_at(rules, t, i, upto - 1)
    }
}

/// The findings of all rules at the nodes of `order`, node by node.
pub open spec fn findings_over(rules: Seq<RuleModel>, t: TreeModel, order: Seq<usize>) -> Seq<
    FindingModel,
>
    decreases order.len(),
{
    if order.len() == 0 {
        Seq::empty()
    } else {
        findings_over(rules, t, order.drop_last()) + findings_at(
            rules,
            t,
            order.last(),
            rules.len() as int,
        )
    }
}

/// The faults of all rules at the nodes of `order`, node by node.
pub open spec fn faults_over(rules: Seq<RuleModel>, t: TreeModel, order: Seq<usize>) -> Seq<
    FaultModel,
>
    decreases order.len(),
{
    if order.len() == 0 {
        Seq::empty()
    } else {
        faults_over(rules, t, order.drop_last()) + faults_at(
            rules,
            t,
            order.last(),
            rules.len() as int,
        )
    }
}

/// The mathematical model of the result of an analysis.
pub struct AnalysisModel {
    pub findings: Seq<FindingModel>,
    pub faults: Seq<FaultModel>,
    pub visited: nat,
    pub truncated: bool,
}

/// The analysis of a tree under a rule set and a budget: what the rules find
/// at the nodes that the walk visits, and whether the budget cut the walk short.
pub open spec fn analysis(rules: Seq<RuleModel>, t: TreeModel, budget: usize) -> AnalysisModel {
    AnalysisModel {
        findings: findings_over(rules, t, t.visited(budget)),
        faults: faults_over(rules, t, t.visited(budget)),
        visited: t.visited(budget).len(),
        truncated: budget < t.preorder().len(),
    }
}

/// The models of a sequence of findings.
pub open spec fn finding_models(s: Seq<Finding>) -> Seq<FindingModel> {
    Seq::new(s.len(), |i: int| s[i]@)
}

/// The models of a sequence of faults.
pub open spec fn fault_models(s: Seq<Fault>) -> Seq<FaultModel> {
    Seq::new(s.len(), |i: int| s[i]@)
}

/// The result of the analysis of one unit.
#[derive(Debug)]
pub struct Analysis {
    /// What the rules found, in the order of the walk and, at one node, of the rules.
    pub findings: Vec<Finding>,
    /// The rules that could not read a node, with the node.
    pub faults: Vec<Fault>,
    /// How many nodes were visited.
    pub visited: usize,
    /// Whether the budget ended the walk before every node was visited.
    pub truncated: bool,
}

impl View for Analysis {
    type V = AnalysisModel;

    open spec fn view(&self) -> AnalysisModel {
        AnalysisModel {
            findings: finding_models(self.findings@),
            faults: fault_models(self.faults@),
            visited: self.visited as nat,
            truncated: self.truncated,
        }
    }
}

/// Evaluates the rules of `rules` at node `i` and appends what they report.
fn evaluate_at(
    rules: &RuleSet,
    tree: &Tree,
    i: usize,
    findings: &mut Vec<Finding>,
    faults: &mut Vec<Fault>,
)
    requires
        tree@.has(i),
    ensures
        finding_models(final(findings)@) == finding_models(old(findings)@) + findings_at(
            rules@,
            tree@,
            i,
            rules@.len() as int,
        ),
        fault_models(final(faults)@) == fault_models(old(faults)@) + faults_at(
            rules@,
            tree@,
            i,
            rules@.len() as int,
        ),
{
    let node = tree.node(i);
    let kind = node.kind();
    let span = node.span();
    let n = rules.len();
    let mut r: usize = 0;
    while r < n
        invariant
            n == rules@.len(),
            r <= n,
            tree@.has(i),
            kind == tree@.kind(i),
            span == tree@.nodes[i as int].span,
            finding_models(findings@) == finding_models(old(findings)@) + findings_at(
                rules@,
                tree@,
                i,
                r as int,
            ),
            fault_models(faults@) == fault_models(old(faults)@) + faults_at(
                rules@,
                tree@,
                i,
                r as int,
            ),
        decreases n - r,
    {
        let rule = rules.rule(r);
        let ghost found = finding_models(findings@);
        let ghost failed = fault_models(faults@);
        if rule.applies_to(kind) {
            match rule.detector.evaluate(tree, i) {
                Outcome::Match => {
                    let finding = Finding {
                        rule_id: rule.id.clone(),
                        severity: rule.severity,
                        span,
                        message: rule.description.clone(),
                    };
                    findings.push(finding);
                    assert(finding_models(findings@) =~= found.push(
                        finding_of(rules@[r as int], tree@, i),
                    ));
                },
                Outcome::Fault => {
                    faults.push(Fault { rule_id: rule.id.clone(), node: i });
                    assert(fault_models(faults@) =~= failed.push(
                        FaultModel { rule_id: rules@[r as int].id, node: i },
                    ));
                },
                Outcome::Silent => {},
            }
        }
        r += 1;
    }
}

/// Puts the children of node `i` on the work-list, the last child first, so
/// that the first child is the next to be taken off.
fn push_children(tree: &Tree, i: usize, list: &mut Vec<usize>)
    requires
        tree@.has(i),
        forall|k: int| 0 <= k < old(list)@.len() ==> tree@.has(#[trigger] old(list)@[k]),
    ensures
        tree@.pending(final(list)@) == tree@.forest(i, 0) + tree@.pending(old(list)@),
        forall|k: int| 0 <= k < final(list)@.len() ==> tree@.has(#[trigger] final(list)@[k]),
{
    proof {
        use_type_invariant(tree);
        tree@.lemma_links(i);
    }
    let children = tree.node(i).children();
    let mut k: usize = children.len();
    while k > 0
        invariant
            tree@.wf(),
            tree@.has(i),
            children@ == tree@.children(i),
            k <= children@.len(),
            tree@.pending(list@) == tree@.forest(i, k as int) + tree@.pending(old(list)@),
            forall|j: int| 0 <= j < list@.len() ==> tree@.has(#[trigger] list@[j]),
        decreases k,
    {
        k -= 1;
        let c = children[k];
        proof {
            tree@.lemma_links(i);
            tree@.lemma_pending_push(list@, c);
        }
        list.push(c);
    }
}

/// Analyses a tree: walks it in pre-order, visits at most `budget` nodes, and
/// at each node visited evaluates the rules that name the node's kind.
///
/// The result holds the findings and the faults in the order in which they
/// arose, the number of nodes visited, and whether nodes were left unvisited.
pub fn analyze(rules: &RuleSet, tree: &Tree, budget: usize) -> (result: Analysis)
    ensures
        result@ == analysis(rules@, tree@, budget),
{
    proof {
        use_type_invariant(tree);
    }
    let mut findings: Vec<Finding> = Vec::new();
    let mut faults: Vec<Fault> = Vec::new();
    let mut list: Vec<usize> = Vec::new();
    let mut visited: usize = 0;
    let ghost mut order: Seq<usize> = Seq::empty();
    if tree.len() > 0 {
        list.push(0);
        proof {
            tree@.lemma_pending_push(Seq::empty(), 0);
        }
    }
    while list.len() > 0 && visited < budget
        invariant
            tree@.wf(),
            visited <= budget,
            order.len() == visited,
            order + tree@.pending(list@) == tree@.preorder(),
            forall|k: int| 0 <= k < list@.len() ==> tree@.has(#[trigger] list@[k]),
            finding_models(findings@) == findings_over(rules@, tree@, order),
            fault_models(faults@) == faults_over(rules@, tree@, order),
        decreases budget - visited,
    {
        let i = list.pop().unwrap();
        evaluate_at(rules, tree, i, &mut findings, &mut faults);
        push_children(tree, i, &mut list);
        visited += 1;
        proof {
            let next = order.push(i);
            assert(next.drop_last() =~= order);
            order = next;
        }
    }
    let truncated = list.len() > 0;
    proof {
        if list@.len() > 0 {
            assert(order =~= tree@.preorder().take(budget as int));
        }
    }
    Analysis { findings, faults, visited, truncated }
}

} // verus!
