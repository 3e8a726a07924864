//! What holds of every analysis: laws that relate the functions of the
//! library to each other, each proved from their definitions.

use crate::detect::inspects;
use crate::engine::analysis;
use crate::engine::faults_at;
use crate::engine::faults_over;
use crate::engine::finding_of;
use crate::engine::findings_at;
use crate::engine::findings_over;
use crate::engine::rule_outcome;
use crate::preorder::law_every_node_once;
use crate::report::ordered;
use crate::rule::FaultModel;
use crate::rule::FindingModel;
use crate::rule::Outcome;
use crate::rule::RuleModel;
use crate::rule::Severity;
use crate::ruleset::consistent;
use crate::tree::TreeModel;
use crate::verdict::has_severity;
use crate::verdict::verdict_of;
use vstd::prelude::*;

verus! {

/// The findings that do not come from the rule with identifier `id`.
pub open spec fn not_of_rule(id: Seq<char>) -> spec_fn(FindingModel) -> bool {
    |f: FindingModel| f.rule_id != id
}

/// The faults that do not come from the rule with identifier `id`.
pub open spec fn fault_not_of_rule(id: Seq<char>) -> spec_fn(FaultModel) -> bool {
    |f: FaultModel| f.rule_id != id
}

/// Filtering a sequence with one more element at its end.
proof fn lemma_filter_push<A>(s: Seq<A>, a: A, pred: spec_fn(A) -> bool)
    ensures
        s.push(a).filter(pred) == (if pred(a) {
            s.filter(pred).push(a)
        } else {
            s.filter(pred)
        }),
{
    reveal(Seq::filter);
    assert(s.push(a).drop_last() =~= s);
}

/// At one node, the findings of a rule set without rule `k` are the findings
/// of the whole set without those of rule `k`.
proof fn lemma_isolation_at(rules: Seq<RuleModel>, k: int, t: TreeModel, i: usize, upto: int)
    requires
        consistent(rules),
        0 <= k < rules.len(),
        0 <= upto <= rules.len(),
    ensures
        findings_at(rules, t, i, upto).filter(not_of_rule(rules[k].id)) == findings_at(
            rules.remove(k),
            t,
            i,
            if upto <= k {
                upto
            } else {
                upto - 1
            },
        ),
        faults_at(rules, t, i, upto).filter(fault_not_of_rule(rules[k].id)) == faults_at(
            rules.remove(k),
            t,
            i,
            if upto <= k {
                upto
            } else {
                upto - 1
            },
        ),
    decreases upto,
{
    let pred = not_of_rule(rules[k].id);
    let fault_pred = fault_not_of_rule(rules[k].id);
    if upto == 0 {
        reveal(Seq::filter);
    } else {
        lemma_isolation_at(rules, k, t, i, upto - 1);
        let rule = rules[upto - 1];
        let finding = finding_of(rule, t, i);
        let fault = FaultModel { rule_id: rule.id, node: i };
        lemma_filter_push(findings_at(rules, t, i, upto - 1), finding, pred);
        lemma_filter_push(faults_at(rules, t, i, upto - 1), fault, fault_pred);
    }
}

/// Rule isolation: taking one rule out of a rule set takes its findings and
/// its faults out of the result and changes nothing else. What the other
/// rules report at the nodes of `order`, and in which order, stays as it was.
pub proof fn law_rule_isolation(rules: Seq<RuleModel>, k: int, t: TreeModel, order: Seq<usize>)
    requires
        consistent(rules),
        0 <= k < rules.len(),
    ensures
        findings_over(rules.remove(k), t, order) == findings_over(rules, t, order).filter(
            not_of_rule(rules[k].id),
        ),
        faults_over(rules.remove(k), t, order) == faults_over(rules, t, order).filter(
            fault_not_of_rule(rules[k].id),
        ),
    decreases order.len(),
{
    let pred = not_of_rule(rules[k].id);
    let fault_pred = fault_not_of_rule(rules[k].id);
    if order.len() == 0 {
        reveal(Seq::filter);
    } else {
        law_rule_isolation(rules, k, t, order.drop_last());
        lemma_isolation_at(rules, k, t, order.last(), rules.len() as int);
        Seq::filter_distributes_over_add(
            findings_over(rules, t, order.drop_last()),
            findings_at(rules, t, order.last(), rules.len() as int),
            pred,
        );
        Seq::filter_distributes_over_add(
            faults_over(rules, t, order.drop_last()),
            faults_at(rules, t, order.last(), rules.len() as int),
            fault_pred,
        );
    }
}

/// Rule isolation, of a whole analysis: without rule `k` the same nodes are
/// visited, the walk is cut short on the same budgets, and the findings are
/// those of the whole rule set without the findings of rule `k`.
pub proof fn law_rule_isolation_of_analysis(
    rules: Seq<RuleModel>,
    k: int,
    t: TreeModel,
    budget: usize,
)
    requires
        consistent(rules),
        0 <= k < rules.len(),
    ensures
        analysis(rules.remove(k), t, budget).findings == analysis(
            rules,
            t,
            budget,
        ).findings.filter(not_of_rule(rules[k].id)),
        analysis(rules.remove(k), t, budget).faults == analysis(rules, t, budget).faults.filter(
            fault_not_of_rule(rules[k].id),
        ),
        analysis(rules.remove(k), t, budget).visited == analysis(rules, t, budget).visited,
        analysis(rules.remove(k), t, budget).truncated == analysis(rules, t, budget).truncated,
{
    law_rule_isolation(rules, k, t, t.visited(budget));
}

/// A rule is heard only at nodes of the kinds that it names, and of those
/// only at kinds that its detector reads: everywhere else it is silent.
pub proof fn law_rules_keep_to_their_kinds(rule: RuleModel, t: TreeModel, i: usize)
    requires
        t.has(i),
    ensures
        rule_outcome(rule, t, i) != Outcome::Silent ==> rule.kinds.contains(t.kind(i))
            && inspects(rule.detector, t.kind(i)),
{
}

/// The verdict depends on which findings there are, not on their order: two
/// sequences with the same findings, each as often, have the same verdict.
pub proof fn law_verdict_ignores_order(a: Seq<FindingModel>, b: Seq<FindingModel>)
    requires
        a.to_multiset() == b.to_multiset(),
    ensures
        verdict_of(a) == verdict_of(b),
{
    a.to_multiset_ensures();
    b.to_multiset_ensures();
    if has_severity(a, Severity::Critical) {
        lemma_same_severities(a, b, Severity::Critical);
    }
    if has_severity(b, Severity::Critical) {
        lemma_same_severities(b, a, Severity::Critical);
    }
    if has_severity(a, Severity::Warning) {
        lemma_same_severities(a, b, Severity::Warning);
    }
    if has_severity(b, Severity::Warning) {
        lemma_same_severities(b, a, Severity::Warning);
    }
}

/// A severity that occurs in one sequence occurs in every sequence with the
/// same findings.
proof fn lemma_same_severities(a: Seq<FindingModel>, b: Seq<FindingModel>, s: Severity)
    requires
        a.to_multiset() == b.to_multiset(),
        has_severity(a, s),
    ensures
        has_severity(b, s),
{
    a.to_multiset_ensures();
    b.to_multiset_ensures();
    let i = choose|i: int| 0 <= i < a.len() && (#[trigger] a[i]).severity == s;
    assert(b.to_multiset().count(a[i]) > 0);
    let j = choose|j: int| 0 <= j < b.len() && b[j] == a[i];
}

/// Running the analysis again on the same rules, tree and budget gives the
/// same findings, and every report of them, however it is ordered, holds the
/// same findings, each as often.
pub proof fn law_rerun_finds_the_same(
    rules: Seq<RuleModel>,
    t: TreeModel,
    budget: usize,
    first: Seq<FindingModel>,
    second: Seq<FindingModel>,
    first_report: Seq<FindingModel>,
    second_report: Seq<FindingModel>,
)
    requires
        first == analysis(rules, t, budget).findings,
        second == analysis(rules, t, budget).findings,
        ordered(first_report),
        ordered(second_report),
        first_report.to_multiset() == first.to_multiset(),
        second_report.to_multiset() == second.to_multiset(),
    ensures
        first == second,
        first_report.to_multiset() == second_report.to_multiset(),
        verdict_of(first_report) == verdict_of(second),
{
    law_verdict_ignores_order(first_report, second);
}

/// Rule `r` matches at node `i` and `f` is what it reports there.
pub open spec fn reports(rules: Seq<RuleModel>, t: TreeModel, i: usize, r: int, f: FindingModel) -> bool {
    &&& 0 <= r < rules.len()
    &&& rule_outcome(rules[r], t, i) == Outcome::Match
    &&& f == finding_of(rules[r], t, i)
}

/// Some rule matches at node `order[x]` and `f` is what it reports there.
pub open spec fn reported(
    rules: Seq<RuleModel>,
    t: TreeModel,
    order: Seq<usize>,
    x: int,
    f: FindingModel,
) -> bool {
    0 <= x < order.len() && exists|r: int| #[trigger] reports(rules, t, order[x], r, f)
}

/// The findings at one node are what the rules that match there report.
proof fn lemma_findings_at_are_matches(rules: Seq<RuleModel>, t: TreeModel, i: usize, upto: int)
    requires
        0 <= upto <= rules.len(),
    ensures
        forall|f: FindingModel|
            #[trigger] findings_at(rules, t, i, upto).contains(f) <==> exists|r: int|
                r < upto && #[trigger] reports(rules, t, i, r, f),
    decreases upto,
{
    let now = findings_at(rules, t, i, upto);
    if upto > 0 {
        lemma_findings_at_are_matches(rules, t, i, upto - 1);
        let before = findings_at(rules, t, i, upto - 1);
        let rule = rules[upto - 1];
        let matched = rule_outcome(rule, t, i) == Outcome::Match;
        assert forall|f: FindingModel| #[trigger] now.contains(f) <==> exists|r: int|
            r < upto && #[trigger] reports(rules, t, i, r, f) by {
            if now.contains(f) {
                let x = choose|x: int| 0 <= x < now.len() && now[x] == f;
                if matched && x == now.len() - 1 {
                    assert(reports(rules, t, i, upto - 1, f));
                } else {
                    assert(before.contains(f));
                    let r = choose|r: int| r < upto - 1 && #[trigger] reports(rules, t, i, r, f);
                }
            }
            if exists|r: int| r < upto && #[trigger] reports(rules, t, i, r, f) {
                let r = choose|r: int| r < upto && #[trigger] reports(rules, t, i, r, f);
                if r == upto - 1 {
                    assert(now[now.len() - 1] == f);
                } else {
                    assert(before.contains(f));
                    let x = choose|x: int| 0 <= x < before.len() && before[x] == f;
                    assert(now[x] == f);
                }
            }
        }
    }
}

/// The findings are the matches: a finding is among those of the nodes of
/// `order` exactly if some rule of the set matches at one of these nodes and
/// the finding is what that rule reports there.
pub proof fn law_findings_are_matches(rules: Seq<RuleModel>, t: TreeModel, order: Seq<usize>)
    ensures
        forall|f: FindingModel|
            #[trigger] findings_over(rules, t, order).contains(f) <==> exists|x: int|
                #[trigger] reported(rules, t, order, x, f),
    decreases order.len(),
{
    let now = findings_over(rules, t, order);
    if order.len() == 0 {
        assert forall|f: FindingModel| #[trigger] now.contains(f) <==> exists|x: int|
            #[trigger] reported(rules, t, order, x, f) by {}
    } else {
        let front = order.drop_last();
        let before = findings_over(rules, t, front);
        let here = findings_at(rules, t, order.last(), rules.len() as int);
        law_findings_are_matches(rules, t, front);
        lemma_findings_at_are_matches(rules, t, order.last(), rules.len() as int);
        assert forall|f: FindingModel| #[trigger] now.contains(f) <==> exists|x: int|
            #[trigger] reported(rules, t, order, x, f) by {
            if now.contains(f) {
                let y = choose|y: int| 0 <= y < now.len() && now[y] == f;
                if y < before.len() {
                    assert(before.contains(f));
                    let x = choose|x: int| #[trigger] reported(rules, t, front, x, f);
                    assert(reported(rules, t, order, x, f));
                } else {
                    assert(here.contains(f));
                    let r = choose|r: int|
                        r < rules.len() && #[trigger] reports(rules, t, order.last(), r, f);
                    assert(reported(rules, t, order, order.len() - 1, f));
                }
            }
            if exists|x: int| #[trigger] reported(rules, t, order, x, f) {
                let x = choose|x: int| #[trigger] reported(rules, t, order, x, f);
                let r = choose|r: int| #[trigger] reports(rules, t, order[x], r, f);
                if x == order.len() - 1 {
                    assert(here.contains(f));
                    let y = choose|y: int| 0 <= y < here.len() && here[y] == f;
                    assert(now[before.len() + y] == f);
                } else {
                    assert(reports(rules, t, front[x], r, f));
                    assert(reported(rules, t, front, x, f));
                    assert(before.contains(f));
                    let y = choose|y: int| 0 <= y < before.len() && before[y] == f;
                    assert(now[y] == f);
                }
            }
        }
    }
}

/// The span of every node lies inside the span of the root.
pub proof fn lemma_span_in_unit(t: TreeModel, i: usize)
    requires
        t.wf(),
        t.has(i),
    ensures
        t.nodes[i as int].span.valid(),
        t.nodes[i as int].span.within(t.nodes[0].span),
    decreases i,
{
    assert(t.node_wf(i as int));
    if i > 0 {
        lemma_span_in_unit(t, t.nodes[i as int].parent->0);
    }
}

/// Every finding of an analysis points into the unit: its span is valid and
/// lies inside the span of the root. It carries the identifier, the severity
/// and the description of a rule of the set.
pub proof fn law_findings_lie_in_unit(rules: Seq<RuleModel>, t: TreeModel, budget: usize)
    requires
        t.wf(),
    ensures
        forall|k: int|
            0 <= k < analysis(rules, t, budget).findings.len() ==> {
                let f = #[trigger] analysis(rules, t, budget).findings[k];
                &&& f.span.valid()
                &&& f.span.within(t.nodes[0].span)
                &&& exists|r: int|
                    0 <= r < rules.len() && f.rule_id == (#[trigger] rules[r]).id && f.severity
                        == rules[r].severity && f.message == rules[r].description
            },
{
    let order = t.visited(budget);
    let all = analysis(rules, t, budget).findings;
    law_every_node_once(t);
    law_findings_are_matches(rules, t, order);
    assert forall|k: int| 0 <= k < all.len() implies {
        let f = #[trigger] all[k];
        &&& f.span.valid()
        &&& f.span.within(t.nodes[0].span)
        &&& exists|r: int|
            0 <= r < rules.len() && f.rule_id == (#[trigger] rules[r]).id && f.severity
                == rules[r].severity && f.message == rules[r].description
    } by {
        let f = all[k];
        assert(all.contains(f));
        let x = choose|x: int| #[trigger] reported(rules, t, order, x, f);
        let r = choose|r: int| #[trigger] reports(rules, t, order[x], r, f);
        lemma_span_in_unit(t, order[x]);
    }
}

/// What the budget does to an analysis of a well-formed tree: the walk is cut
/// short exactly where the budget is less than the number of nodes, and it
/// visits as many nodes as the budget allows and the tree has.
pub proof fn law_budget_bounds_the_walk(rules: Seq<RuleModel>, t: TreeModel, budget: usize)
    requires
        t.wf(),
    ensures
        analysis(rules, t, budget).truncated == (budget < t.nodes.len()),
        analysis(rules, t, budget).visited == (if budget < t.nodes.len() {
            budget as nat
        } else {
            t.nodes.len()
        }),
{
    law_every_node_once(t);
}

/// What is found at the nodes of two sequences, one behind the other, is what
/// is found at the nodes of the first and then at the nodes of the second.
pub proof fn lemma_findings_over_concat(
    rules: Seq<RuleModel>,
    t: TreeModel,
    front: Seq<usize>,
    back: Seq<usize>,
)
    ensures
        findings_over(rules, t, front + back) == findings_over(rules, t, front) + findings_over(
            rules,
            t,
            back,
        ),
        faults_over(rules, t, front + back) == faults_over(rules, t, front) + faults_over(
            rules,
            t,
            back,
        ),
    decreases back.len(),
{
    if back.len() > 0 {
        lemma_findings_over_concat(rules, t, front, back.drop_last());
        assert((front + back).drop_last() =~= front + back.drop_last());
    }
}

/// A walk that is cut short loses nothing of what it found: the findings
/// under a smaller budget are the first of the findings under a greater one,
/// followed there by what is found at the nodes that the greater budget adds.
pub proof fn law_partial_findings_stay(
    rules: Seq<RuleModel>,
    t: TreeModel,
    small: usize,
    great: usize,
)
    requires
        small <= great,
    ensures
        analysis(rules, t, great).findings == analysis(rules, t, small).findings + findings_over(
            rules,
            t,
            t.visited(great).skip(t.visited(small).len() as int),
        ),
        analysis(rules, t, small).findings.len() <= analysis(rules, t, great).findings.len(),
{
    let front = t.visited(small);
    let all = t.visited(great);
    let back = all.skip(front.len() as int);
    assert(all =~= front + back);
    lemma_findings_over_concat(rules, t, front, back);
}

} // verus!
