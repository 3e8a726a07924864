//! Units: what is reported of one source text, the order of the reports of a
//! run, and the status with which the run ends.

use crate::engine::analysis;
use crate::engine::analyze;
use crate::engine::Analysis;
use crate::ruleset::RuleSet;
use crate::text::lemma_bytes_less_total;
use crate::text::lemma_bytes_less_transitive;
use crate::text::text_less;
use crate::text::text_lt;
use crate::tree::Tree;
use crate::verdict::verdict;
use crate::verdict::verdict_of;
use crate::verdict::Verdict;
use vstd::prelude::*;
use vstd::seq_lib::to_multiset_build;
use vstd::seq_lib::to_multiset_insert;
use vstd::utf8::encode_utf8;

verus! {

/// A source text that the front-end could not turn into a tree.
#[derive(Debug)]
pub struct ParseError {
    /// The byte offset at which the front-end gave up.
    pub offset: usize,
    /// What the front-end says of it.
    pub message: String,
}

/// What became of one unit.
#[derive(Debug)]
pub enum UnitOutcome {
    /// The unit could not be parsed; no rule was evaluated.
    Unparseable(ParseError),
    /// The unit was analysed.
    Analyzed { analysis: Analysis, verdict: Verdict },
}

/// What is reported of one unit.
#[derive(Debug)]
pub struct UnitReport {
    /// The identity of the unit, such as the path of its source text.
    pub unit: String,
    /// What became of the unit.
    pub outcome: UnitOutcome,
}

/// The unit's verdict is `Defective`.
pub open spec fn is_defective(report: UnitReport) -> bool {
    report.outcome matches UnitOutcome::Analyzed { verdict, .. } && verdict == Verdict::Defective
}

/// The unit counts against the run: it is defective, or it could not be
/// parsed and the run is strict.
pub open spec fn fails_run(report: UnitReport, strict: bool) -> bool {
    is_defective(report) || (strict && report.outcome is Unparseable)
}

/// The reports stand in the order of the bytes of their units' identities.
pub open spec fn units_ordered(reports: Seq<UnitReport>) -> bool {
    forall|i: int, j: int|
        #![trigger reports[i], reports[j]]
        0 <= i < j < reports.len() ==> !text_less(reports[j].unit@, reports[i].unit@)
}

/// Reports on one unit from what the front-end made of it: an unparseable
/// unit is recorded as such, a tree is analysed and classified.
pub fn examine(
    rules: &RuleSet,
    unit: String,
    parsed: Result<Tree, ParseError>,
    budget: usize,
) -> (r: UnitReport)
    ensures
        r.unit == unit,
        match parsed {
            Ok(tree) => r.outcome matches UnitOutcome::Analyzed { analysis: a, verdict: v } && a@
                == analysis(rules@, tree@, budget) && v == verdict_of(a@.findings),
            Err(e) => r.outcome == UnitOutcome::Unparseable(e),
        },
{
    let outcome = match parsed {
        Ok(tree) => {
            let analysis = analyze(rules, &tree, budget);
            let verdict = verdict(&analysis.findings);
            UnitOutcome::Analyzed { analysis, verdict }
        },
        Err(e) => UnitOutcome::Unparseable(e),
    };
    UnitReport { unit, outcome }
}

/// The exit status of a run: 1 where a unit counts against it, else 0. An
/// unparseable unit counts only in a strict run.
pub fn exit_status(reports: &Vec<UnitReport>, strict: bool) -> (status: u8)
    ensures
        status == (if exists|i: int|
            0 <= i < reports@.len() && fails_run(#[trigger] reports@[i], strict) {
            1u8
        } else {
            0u8
        }),
{
    let mut i: usize = 0;
    while i < reports.len()
        invariant
            i <= reports@.len(),
            forall|k: int| 0 <= k < i ==> !fails_run(#[trigger] reports@[k], strict),
        decreases reports@.len() - i,
    {
        let fails = match &reports[i].outcome {
            UnitOutcome::Unparseable(_) => strict,
            UnitOutcome::Analyzed { verdict, .. } => *verdict == Verdict::Defective,
        };
        if fails {
            return 1;
        }
        i += 1;
    }
    0
}

/// Putting a report in front of the first one whose unit comes behind its own
/// keeps the reports in order.
proof fn lemma_insert_unit(s: Seq<UnitReport>, p: int, r: UnitReport)
    requires
        units_ordered(s),
        0 <= p <= s.len(),
        forall|k: int| 0 <= k < p ==> !text_less(r.unit@, s[k].unit@),
        p < s.len() ==> text_less(r.unit@, s[p].unit@),
    ensures
        units_ordered(s.insert(p, r)),
{
    let t = s.insert(p, r);
    s.insert_ensures(p, r);
    assert forall|i: int, j: int|
        #![trigger t[i], t[j]]
        0 <= i < j < t.len() implies !text_less(t[j].unit@, t[i].unit@) by {
        if i == p && text_less(t[j].unit@, r.unit@) {
            lemma_bytes_less_transitive(
                encode_utf8(t[j].unit@),
                encode_utf8(r.unit@),
                encode_utf8(s[p].unit@),
            );
            lemma_bytes_less_total(encode_utf8(s[p].unit@), encode_utf8(r.unit@));
        }
    }
}

/// Adding an empty sequence's elements adds nothing.
proof fn lemma_nothing_added(none: Seq<UnitReport>, some: Seq<UnitReport>)
    requires
        none.len() == 0,
    ensures
        none.to_multiset().add(some.to_multiset()) == some.to_multiset(),
{
    broadcast use vstd::multiset::group_multiset_axioms;

    none.to_multiset_ensures();
}

/// The same reports in the order of their units' identities, whatever the
/// order in which the units were finished.
pub fn sort_reports(reports: Vec<UnitReport>) -> (sorted: Vec<UnitReport>)
    ensures
        units_ordered(sorted@),
        sorted@.to_multiset() == reports@.to_multiset(),
{
    let mut rest = reports;
    let mut out: Vec<UnitReport> = Vec::new();
    proof {
        lemma_nothing_added(out@, rest@);
    }
    while rest.len() > 0
        invariant
            units_ordered(out@),
            out@.to_multiset().add(rest@.to_multiset()) == reports@.to_multiset(),
        decreases rest@.len(),
    {
        let ghost before = rest@;
        let ghost placed = out@;
        let r = rest.pop().unwrap();
        let mut p: usize = 0;
        while p < out.len() && !text_lt(r.unit.as_str(), out[p].unit.as_str())
            invariant
                p <= out@.len(),
                placed == out@,
                forall|k: int| 0 <= k < p ==> !text_less(r.unit@, placed[k].unit@),
            decreases out@.len() - p,
        {
            p += 1;
        }
        out.insert(p, r);
        proof {
            lemma_insert_unit(placed, p as int, r);
            to_multiset_insert(placed, p as int, r);
            assert(before =~= rest@.push(r));
            to_multiset_build(rest@, r);
        }
    }
    proof {
        lemma_nothing_added(rest@, out@);
    }
    out
}

} // verus!
