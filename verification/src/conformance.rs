//! The conformance check: what a sample labelled buggy or clean must yield
//! for the rule that it is meant to exercise.

use crate::engine::finding_models;
use crate::rule::Finding;
use crate::rule::FindingModel;
use crate::rule::Rule;
use crate::rule::RuleModel;
use crate::rule::Severity;
use crate::text::text_eq;
use crate::verdict::count_for_rule;
use crate::verdict::of_rule;
use crate::verdict::of_rule_at_least;
use vstd::prelude::*;
use vstd::string::StrSliceExecFns;

verus! {

/// What a sample is meant to show.
#[derive(Clone, Copy, Debug, PartialEq, Eq, Structural)]
pub enum Label {
    /// The sample shows the defect.
    Buggy,
    /// The sample does not show the defect.
    Clean,
}

/// A sample that did not yield what its label asks for.
#[derive(Debug)]
pub struct Mismatch {
    /// The path of the sample.
    pub sample: String,
    /// The identifier of the rule that the sample exercises.
    pub rule_id: String,
    /// The sample's label.
    pub label: Label,
    /// The least number of findings that the label asks for.
    pub at_least: usize,
    /// The greatest number of findings that the label allows, if it sets one.
    pub at_most: Option<usize>,
    /// The number of findings that counted.
    pub found: usize,
}

/// The number of findings that count for a rule under a label: for a buggy
/// sample those of the rule that are at least as grave as the rule declares,
/// for a clean sample all those of the rule.
pub open spec fn counted(findings: Seq<FindingModel>, rule: RuleModel, label: Label) -> nat {
    match label {
        Label::Buggy => of_rule_at_least(findings, rule.id, rule.severity).len(),
        Label::Clean => of_rule(findings, rule.id).len(),
    }
}

/// The findings meet the label: a buggy sample has at least one finding that
/// counts, a clean sample has none.
pub open spec fn meets(findings: Seq<FindingModel>, rule: RuleModel, label: Label) -> bool {
    match label {
        Label::Buggy => counted(findings, rule, label) >= 1,
        Label::Clean => counted(findings, rule, label) == 0,
    }
}

/// Every finding is at least as grave as `Info`, so a floor of `Info` keeps
/// all findings of a rule.
pub proof fn lemma_floor_info(findings: Seq<FindingModel>, id: Seq<char>)
    ensures
        of_rule_at_least(findings, id, Severity::Info) == of_rule(findings, id),
    decreases findings.len(),
{
    reveal(Seq::filter);
    if findings.len() > 0 {
        lemma_floor_info(findings.drop_last(), id);
    }
}

/// Holds the findings of the sample at `path` against its label, for one rule.
///
/// A buggy sample conforms where the rule has at least one finding that is at
/// least as grave as the rule declares; a clean sample conforms where the
/// rule has no finding. Findings of other rules do not count.
pub fn conforms(path: &str, findings: &Vec<Finding>, rule: &Rule, label: Label) -> (r: Result<
    (),
    Mismatch,
>)
    ensures
        r is Ok <==> meets(finding_models(findings@), rule@, label),
        r matches Err(m) ==> {
            &&& m.sample@ == path@
            &&& m.rule_id@ == rule@.id
            &&& m.label == label
            &&& m.found == counted(finding_models(findings@), rule@, label)
            &&& m.at_least == (if label == Label::Buggy { 1usize } else { 0usize })
            &&& m.at_most == (if label == Label::Buggy { None } else { Some(0usize) })
        },
{
    match label {
        Label::Buggy => {
            let found = count_for_rule(findings, rule.id.as_str(), rule.severity);
            if found >= 1 {
                Ok(())
            } else {
                Err(
                    Mismatch {
                        sample: path.to_owned(),
                        rule_id: rule.id.clone(),
                        label,
                        at_least: 1,
                        at_most: None,
                        found,
                    },
                )
            }
        },
        Label::Clean => {
            let found = count_for_rule(findings, rule.id.as_str(), Severity::Info);
            proof {
                lemma_floor_info(finding_models(findings@), rule@.id);
            }
            if found == 0 {
                Ok(())
            } else {
                Err(
                    Mismatch {
                        sample: path.to_owned(),
                        rule_id: rule.id.clone(),
                        label,
                        at_least: 0,
                        at_most: Some(0),
                        found,
                    },
                )
            }
        },
    }
}

/// Where a sample stands in the corpus: the rule category that it belongs to
/// and its label.
#[derive(Debug)]
pub struct Placement {
    /// The name of the directory above the label's directory.
    pub category: String,
    /// The sample's label.
    pub label: Label,
}

/// The mathematical model of a placement.
pub struct PlacementModel {
    pub category: Seq<char>,
    pub label: Label,
}

impl View for Placement {
    type V = PlacementModel;

    open spec fn view(&self) -> PlacementModel {
        PlacementModel { category: self.category@, label: self.label }
    }
}

/// The index of the last `/` in front of `end`; -1 where there is none.
pub open spec fn last_slash(path: Seq<char>, end: int) -> int
    decreases end,
{
    if end <= 0 {
        -1
    } else if path[end - 1] == '/' {
        end - 1
    } else {
        last_slash(path, end - 1)
    }
}

/// The label that a directory name stands for.
pub open spec fn label_named(name: Seq<char>) -> Option<Label> {
    if name == "buggy"@ {
        Some(Label::Buggy)
    } else if name == "clean"@ {
        Some(Label::Clean)
    } else {
        None
    }
}

/// The placement of the sample with path `path`, by the layout
/// `category/label/file`: the file name is what follows the last `/`, the
/// label is the directory that holds the file and is `buggy` or `clean`, the
/// category is the directory that holds that one. A path with fewer parts,
/// with another directory in the place of the label, or with an empty
/// category or file name, places no sample.
pub open spec fn placement_of(path: Seq<char>) -> Option<PlacementModel> {
    let file = last_slash(path, path.len() as int);
    let label = last_slash(path, file);
    let category = last_slash(path, label);
    if file < 0 || label < 0 || file + 1 == path.len() || category + 1 == label {
        None
    } else {
        match label_named(path.subrange(label + 1, file)) {
            Some(l) => Some(
                PlacementModel { category: path.subrange(category + 1, label), label: l },
            ),
            None => None,
        }
    }
}

/// The index of the last `/` in front of `end`; `None` where there is none.
fn find_last_slash(path: &str, end: usize) -> (r: Option<usize>)
    requires
        end <= path@.len(),
    ensures
        match r {
            Some(i) => i == last_slash(path@, end as int) && i < end,
            None => last_slash(path@, end as int) == -1,
        },
{
    let mut i: usize = end;
    while i > 0
        invariant
            i <= end <= path@.len(),
            last_slash(path@, end as int) == last_slash(path@, i as int),
        decreases i,
    {
        if path.get_char(i - 1) == '/' {
            return Some(i - 1);
        }
        i -= 1;
    }
    None
}

/// Places a sample by its path, after the layout `category/label/file`.
pub fn place(path: &str) -> (r: Option<Placement>)
    ensures
        match r {
            Some(p) => placement_of(path@) == Some(p@),
            None => placement_of(path@) is None,
        },
{
    let len = path.unicode_len();
    let file = match find_last_slash(path, len) {
        Some(i) => i,
        None => {
            return None;
        },
    };
    let label = match find_last_slash(path, file) {
        Some(i) => i,
        None => {
            return None;
        },
    };
    let start = match find_last_slash(path, label) {
        Some(i) => i + 1,
        None => 0,
    };
    if file + 1 == len || start == label {
        return None;
    }
    let name = path.substring_char(label + 1, file);
    let found = if text_eq(name, "buggy") {
        Label::Buggy
    } else if text_eq(name, "clean") {
        Label::Clean
    } else {
        return None;
    };
    let category = path.substring_char(start, label).to_owned();
    Some(Placement { category, label: found })
}

} // verus!
