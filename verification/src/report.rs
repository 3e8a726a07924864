//! The order of a report: findings by the start of their span, then by its
//! end, then by the bytes of the rule's identifier.

use crate::engine::finding_models;
use crate::rule::Finding;
use crate::rule::FindingModel;
use crate::rule::Severity;
use crate::text::lemma_bytes_decide_text;
use crate::text::lemma_bytes_less_total;
use crate::text::lemma_bytes_less_transitive;
use crate::text::text_less;
use crate::text::text_lt;
use vstd::prelude::*;
use vstd::string::StringSliceAdditionalSpecFns;
use vstd::seq_lib::to_multiset_build;
use vstd::seq_lib::to_multiset_insert;
use vstd::utf8::encode_utf8;

verus! {

/// Finding `a` stands before finding `b` in a report.
pub open spec fn before(a: FindingModel, b: FindingModel) -> bool {
    if a.span.start != b.span.start {
        a.span.start < b.span.start
    } else if a.span.end != b.span.end {
        a.span.end < b.span.end
    } else {
        text_less(a.rule_id, b.rule_id)
    }
}

/// No finding stands behind one that it should stand before.
pub open spec fn ordered(s: Seq<FindingModel>) -> bool {
    forall|i: int, j: int| 0 <= i < j < s.len() ==> !before(s[j], s[i])
}

/// Of two findings at most one stands before the other; exactly one where
/// they differ in span or rule.
pub proof fn lemma_before_asymmetric(a: FindingModel, b: FindingModel)
    ensures
        !(before(a, b) && before(b, a)),
        (a.span != b.span || a.rule_id != b.rule_id) ==> (before(a, b) || before(b, a)),
{
    lemma_bytes_less_total(encode_utf8(a.rule_id), encode_utf8(b.rule_id));
    lemma_bytes_decide_text(a.rule_id, b.rule_id);
}

/// Standing before is transitive.
pub proof fn lemma_before_transitive(a: FindingModel, b: FindingModel, c: FindingModel)
    requires
        before(a, b),
        before(b, c),
    ensures
        before(a, c),
{
    if a.span == b.span && b.span == c.span {
        lemma_bytes_less_transitive(
            encode_utf8(a.rule_id),
            encode_utf8(b.rule_id),
            encode_utf8(c.rule_id),
        );
    }
}

/// Whether finding `a` stands before finding `b` in a report.
pub fn comes_before(a: &Finding, b: &Finding) -> (r: bool)
    ensures
        r == before(a@, b@),
{
    if a.span.start != b.span.start {
        a.span.start < b.span.start
    } else if a.span.end != b.span.end {
        a.span.end < b.span.end
    } else {
        text_lt(a.rule_id.as_str(), b.rule_id.as_str())
    }
}

/// Putting a finding in front of the first one that it stands before keeps a
/// report in order.
proof fn lemma_insert_ordered(s: Seq<FindingModel>, p: int, f: FindingModel)
    requires
        ordered(s),
        0 <= p <= s.len(),
        forall|k: int| 0 <= k < p ==> !before(f, s[k]),
        p < s.len() ==> before(f, s[p]),
    ensures
        ordered(s.insert(p, f)),
{
    let t = s.insert(p, f);
    s.insert_ensures(p, f);
    assert forall|i: int, j: int| 0 <= i < j < t.len() implies !before(t[j], t[i]) by {
        if i == p && before(t[j], f) {
            lemma_before_transitive(t[j], f, s[p]);
            lemma_before_asymmetric(s[p], f);
        }
    }
}

/// The same findings in the order of a report.
pub fn sort_findings(findings: Vec<Finding>) -> (sorted: Vec<Finding>)
    ensures
        ordered(finding_models(sorted@)),
        finding_models(sorted@).to_multiset() == finding_models(findings@).to_multiset(),
{
    let mut out: Vec<Finding> = Vec::new();
    let n = findings.len();
    let ghost all = finding_models(findings@);
    let mut i: usize = 0;
    assert(all.take(0) =~= finding_models(out@));
    while i < n
        invariant
            n == findings@.len(),
            i <= n,
            all == finding_models(findings@),
            ordered(finding_models(out@)),
            finding_models(out@).to_multiset() == all.take(i as int).to_multiset(),
        decreases n - i,
    {
        let f = findings[i].duplicate();
        let ghost placed = finding_models(out@);
        let mut p: usize = 0;
        while p < out.len() && !comes_before(&f, &out[p])
            invariant
                p <= out@.len(),
                placed == finding_models(out@),
                forall|k: int| 0 <= k < p ==> !before(f@, placed[k]),
            decreases out@.len() - p,
        {
            p += 1;
        }
        out.insert(p, f);
        proof {
            assert(finding_models(out@) =~= placed.insert(p as int, f@));
            lemma_insert_ordered(placed, p as int, f@);
            to_multiset_insert(placed, p as int, f@);
            assert(all.take(i + 1) =~= all.take(i as int).push(f@));
            to_multiset_build(all.take(i as int), f@);
        }
        i += 1;
    }
    assert(all.take(n as int) =~= all);
    out
}

/// A place in a source text, by line and column, both counted from zero.
/// The column is counted in bytes.
#[derive(Clone, Copy, Debug, PartialEq, Eq, Structural)]
pub struct Position {
    pub line: usize,
    pub column: usize,
}

/// The number of line feeds among `bytes`.
pub open spec fn line_feeds(bytes: Seq<u8>) -> nat
    decreases bytes.len(),
{
    if bytes.len() == 0 {
        0
    } else if bytes.last() == 10u8 {
        line_feeds(bytes.drop_last()) + 1
    } else {
        line_feeds(bytes.drop_last())
    }
}

/// The length of what follows the last line feed among `bytes`; the length
/// of `bytes` where there is none.
pub open spec fn tail_length(bytes: Seq<u8>) -> nat
    decreases bytes.len(),
{
    if bytes.len() == 0 || bytes.last() == 10u8 {
        0
    } else {
        tail_length(bytes.drop_last()) + 1
    }
}

/// The place of the byte offset `offset` in a text with the bytes `bytes`:
/// the line is the number of line feeds in front of the offset, the column
/// the number of bytes between the last of them and the offset.
pub open spec fn position_of(bytes: Seq<u8>, offset: int) -> Position {
    Position {
        line: line_feeds(bytes.take(offset)) as usize,
        column: tail_length(bytes.take(offset)) as usize,
    }
}

/// The place of a byte offset in a text; `None` where the offset lies behind
/// the end of the text.
pub fn locate(text: &str, offset: usize) -> (r: Option<Position>)
    ensures
        r == (if offset <= text.spec_bytes().len() {
            Some(position_of(text.spec_bytes(), offset as int))
        } else {
            None
        }),
{
    let bytes = text.as_bytes();
    if offset > bytes.len() {
        return None;
    }
    let mut line: usize = 0;
    let mut column: usize = 0;
    let mut i: usize = 0;
    while i < offset
        invariant
            i <= offset <= bytes@.len(),
            line == line_feeds(bytes@.take(i as int)),
            column == tail_length(bytes@.take(i as int)),
            line <= i,
            column <= i,
        decreases offset - i,
    {
        proof {
            assert(bytes@.take(i + 1).drop_last() =~= bytes@.take(i as int));
        }
        if bytes[i] == 10u8 {
            line += 1;
            column = 0;
        } else {
            column += 1;
        }
        i += 1;
    }
    Some(Position { line, column })
}

/// One line of a report: a finding with the unit that it was found in and
/// the place where it starts.
#[derive(Debug)]
pub struct Record {
    /// The identifier of the rule that matched.
    pub rule_id: String,
    /// The rule's severity.
    pub severity: Severity,
    /// The identity of the unit.
    pub unit: String,
    /// The place in the unit's text where the finding starts.
    pub position: Position,
    /// The rule's description.
    pub message: String,
}

/// The finding starts inside the text with the bytes `bytes`, or at its end.
pub open spec fn starts_in(finding: FindingModel, bytes: Seq<u8>) -> bool {
    finding.span.start <= bytes.len()
}

/// The record of a finding in the unit `unit` with the text `text`; `None`
/// where the finding starts behind the end of the text.
pub fn record(unit: &str, text: &str, finding: &Finding) -> (r: Option<Record>)
    ensures
        match r {
            Some(rec) => {
                &&& starts_in(finding@, text.spec_bytes())
                &&& rec.rule_id@ == finding@.rule_id
                &&& rec.severity == finding@.severity
                &&& rec.unit@ == unit@
                &&& rec.position == position_of(text.spec_bytes(), finding@.span.start as int)
                &&& rec.message@ == finding@.message
            },
            None => !starts_in(finding@, text.spec_bytes()),
        },
{
    match locate(text, finding.span.start) {
        Some(position) => Some(
            Record {
                rule_id: finding.rule_id.clone(),
                severity: finding.severity,
                unit: unit.to_owned(),
                position,
                message: finding.message.clone(),
            },
        ),
        None => None,
    }
}

} // verus!
