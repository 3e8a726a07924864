//! The aggregate of a unit's findings: its verdict, and the findings of one rule.

use crate::engine::finding_models;
use crate::rule::Finding;
use crate::rule::FindingModel;
use crate::rule::Severity;
use crate::text::text_eq;
use vstd::prelude::*;

verus! {

/// The outcome of a unit, after the gravest of its findings.
#[derive(Clone, Copy, Debug, PartialEq, Eq, Structural)]
pub enum Verdict {
    /// The unit has no finding.
    Clean,
    /// The unit has findings, none of them above `Info`.
    Noted,
    /// The unit has a finding of severity `Warning` and none of severity `Critical`.
    Flagged,
    /// The unit has a finding of severity `Critical`.
    Defective,
}

/// Some finding has the severity `s`.
pub open spec fn has_severity(findings: Seq<FindingModel>, s: Severity) -> bool {
    exists|i: int| 0 <= i < findings.len() && (#[trigger] findings[i]).severity == s
}

/// The verdict of a unit with the given findings.
pub open spec fn verdict_of(findings: Seq<FindingModel>) -> Verdict {
    if has_severity(findings, Severity::Critical) {
        Verdict::Defective
    } else if has_severity(findings, Severity::Warning) {
        Verdict::Flagged
    } else if findings.len() > 0 {
        Verdict::Noted
    } else {
        Verdict::Clean
    }
}

/// The gravest severity among the findings; `None` where there is no finding.
pub open spec fn gravest(findings: Seq<FindingModel>) -> Option<Severity> {
    if has_severity(findings, Severity::Critical) {
        Some(Severity::Critical)
    } else if has_severity(findings, Severity::Warning) {
        Some(Severity::Warning)
    } else if findings.len() > 0 {
        Some(Severity::Info)
    } else {
        None
    }
}

/// The verdict that goes with the gravest severity.
pub open spec fn verdict_for(gravest: Option<Severity>) -> Verdict {
    match gravest {
        None => Verdict::Clean,
        Some(Severity::Info) => Verdict::Noted,
        Some(Severity::Warning) => Verdict::Flagged,
        Some(Severity::Critical) => Verdict::Defective,
    }
}

/// The findings of the rule with identifier `id`, in their order.
pub open spec fn of_rule(findings: Seq<FindingModel>, id: Seq<char>) -> Seq<FindingModel> {
    findings.filter(|f: FindingModel| f.rule_id == id)
}

/// The findings of the rule with identifier `id` that are at least as grave
/// as `floor`, in their order.
pub open spec fn of_rule_at_least(
    findings: Seq<FindingModel>,
    id: Seq<char>,
    floor: Severity,
) -> Seq<FindingModel> {
    findings.filter(|f: FindingModel| f.rule_id == id && f.severity.rank() >= floor.rank())
}

/// The gravest severity among the findings; `None` where there is no finding.
pub fn max_severity(findings: &Vec<Finding>) -> (r: Option<Severity>)
    ensures
        r == gravest(finding_models(findings@)),
{
    let ghost all = finding_models(findings@);
    let mut warning = false;
    let mut i: usize = 0;
    while i < findings.len()
        invariant
            i <= findings@.len(),
            all == finding_models(findings@),
            forall|k: int| 0 <= k < i ==> (#[trigger] all[k]).severity != Severity::Critical,
            warning <==> exists|k: int|
                0 <= k < i && (#[trigger] all[k]).severity == Severity::Warning,
        decreases findings@.len() - i,
    {
        assert(all[i as int] == findings@[i as int]@);
        match findings[i].severity {
            Severity::Critical => {
                return Some(Severity::Critical);
            },
            Severity::Warning => {
                warning = true;
            },
            Severity::Info => {},
        }
        i += 1;
    }
    if warning {
        Some(Severity::Warning)
    } else if findings.len() > 0 {
        Some(Severity::Info)
    } else {
        None
    }
}

/// The verdict of a unit with the given findings: `Defective` where one is
/// critical, else `Flagged` where one is a warning, else `Noted` where there
/// is one at all, else `Clean`.
pub fn verdict(findings: &Vec<Finding>) -> (v: Verdict)
    ensures
        v == verdict_of(finding_models(findings@)),
        v == verdict_for(gravest(finding_models(findings@))),
{
    match max_severity(findings) {
        None => Verdict::Clean,
        Some(Severity::Info) => Verdict::Noted,
        Some(Severity::Warning) => Verdict::Flagged,
        Some(Severity::Critical) => Verdict::Defective,
    }
}

/// The findings of the rule with identifier `id`, in their order.
pub fn findings_for_rule(findings: &Vec<Finding>, id: &str) -> (r: Vec<Finding>)
    ensures
        finding_models(r@) == of_rule(finding_models(findings@), id@),
{
    let ghost all = finding_models(findings@);
    let ghost pred = |f: FindingModel| f.rule_id == id@;
    let mut out: Vec<Finding> = Vec::new();
    let mut i: usize = 0;
    proof {
        reveal(Seq::filter);
    }
    while i < findings.len()
        invariant
            i <= findings@.len(),
            all == finding_models(findings@),
            pred == (|f: FindingModel| f.rule_id == id@),
            finding_models(out@) == all.take(i as int).filter(pred),
        decreases findings@.len() - i,
    {
        proof {
            reveal(Seq::filter);
            assert(all.take(i + 1).drop_last() =~= all.take(i as int));
        }
        if text_eq(findings[i].rule_id.as_str(), id) {
            out.push(findings[i].duplicate());
        }
        i += 1;
    }
    assert(all.take(i as int) =~= all);
    out
}

/// The number of findings of the rule with identifier `id` that are at least
/// as grave as `floor`.
pub fn count_for_rule(findings: &Vec<Finding>, id: &str, floor: Severity) -> (n: usize)
    ensures
        n == of_rule_at_least(finding_models(findings@), id@, floor).len(),
{
    let ghost all = finding_models(findings@);
    let ghost pred = |f: FindingModel| f.rule_id == id@ && f.severity.rank() >= floor.rank();
    let mut n: usize = 0;
    let mut i: usize = 0;
    proof {
        reveal(Seq::filter);
    }
    while i < findings.len()
        invariant
            i <= findings@.len(),
            all == finding_models(findings@),
            pred == (|f: FindingModel| f.rule_id == id@ && f.severity.rank() >= floor.rank()),
            n == all.take(i as int).filter(pred).len(),
            n <= i,
        decreases findings@.len() - i,
    {
        proof {
            reveal(Seq::filter);
            assert(all.take(i + 1).drop_last() =~= all.take(i as int));
        }
        if text_eq(findings[i].rule_id.as_str(), id) && findings[i].severity.at_least(floor) {
            n += 1;
        }
        i += 1;
    }
    assert(all.take(i as int) =~= all);
    n
}

} // verus!
