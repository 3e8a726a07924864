//! The standard catalog: one rule for each detector.

use crate::detect::inspects;
use crate::rule::Detector;
use crate::rule::Rule;
use crate::rule::RuleModel;
use crate::rule::Severity;
use crate::ruleset::consistent;
use crate::ruleset::models;
use crate::ruleset::rule_valid;
use crate::tree::NodeKind;
use vstd::prelude::*;

verus! {

/// The identifier of the standard rule for a detector.
pub open spec fn standard_id(d: Detector) -> Seq<char> {
    match d {
        Detector::UnwrapPanic => "UnwrapPanic"@,
        Detector::LockPoisonOnPanic => "LockPoisonOnPanic"@,
        Detector::UnsafeReinterpret => "UnsafeReinterpret"@,
        Detector::FireAndForgetSpawn => "FireAndForgetSpawn"@,
        Detector::SilentBackgroundError => "SilentBackgroundError"@,
        Detector::UnboundedBlockingWait => "UnboundedBlockingWait"@,
    }
}

/// The description of the standard rule for a detector.
pub open spec fn standard_description(d: Detector) -> Seq<char> {
    match d {
        Detector::UnwrapPanic => "value taken out with unwrap and no check before it"@,
        Detector::LockPoisonOnPanic => "possible panic while a lock is held"@,
        Detector::UnsafeReinterpret => "owned sequence reinterpreted as an address-sized integer"@,
        Detector::FireAndForgetSpawn => "task spawned and never waited for"@,
        Detector::SilentBackgroundError => "error discarded inside a spawned task"@,
        Detector::UnboundedBlockingWait => "fixed wait in a spawned task whose result is taken out unchecked"@,
    }
}

/// The severity of the standard rule for a detector.
pub open spec fn standard_severity(d: Detector) -> Severity {
    match d {
        Detector::UnwrapPanic => Severity::Warning,
        Detector::LockPoisonOnPanic => Severity::Critical,
        Detector::UnsafeReinterpret => Severity::Critical,
        Detector::FireAndForgetSpawn => Severity::Warning,
        Detector::SilentBackgroundError => Severity::Warning,
        Detector::UnboundedBlockingWait => Severity::Info,
    }
}

/// The node kinds of the standard rule for a detector: all that it reads.
pub open spec fn standard_kinds(d: Detector) -> Seq<NodeKind> {
    match d {
        Detector::UnwrapPanic => seq![NodeKind::MethodCall],
        Detector::LockPoisonOnPanic => seq![NodeKind::Panic, NodeKind::MethodCall],
        Detector::UnsafeReinterpret => seq![NodeKind::Call],
        Detector::FireAndForgetSpawn => seq![NodeKind::Spawn],
        Detector::SilentBackgroundError => seq![NodeKind::Let, NodeKind::MethodCall],
        Detector::UnboundedBlockingWait => seq![NodeKind::Wait],
    }
}

/// The standard rule for a detector.
pub open spec fn standard_rule(d: Detector) -> RuleModel {
    RuleModel {
        id: standard_id(d),
        description: standard_description(d),
        severity: standard_severity(d),
        kinds: standard_kinds(d),
        detector: d,
    }
}

/// The standard catalog, in its order.
pub open spec fn standard_rules() -> Seq<RuleModel> {
    seq![
        standard_rule(Detector::UnwrapPanic),
        standard_rule(Detector::LockPoisonOnPanic),
        standard_rule(Detector::UnsafeReinterpret),
        standard_rule(Detector::FireAndForgetSpawn),
        standard_rule(Detector::SilentBackgroundError),
        standard_rule(Detector::UnboundedBlockingWait),
    ]
}

/// The standard rules are valid, and no two of them share an identifier.
pub proof fn lemma_standard_consistent()
    ensures
        consistent(standard_rules()),
{
    reveal_strlit("UnwrapPanic");
    reveal_strlit("LockPoisonOnPanic");
    reveal_strlit("UnsafeReinterpret");
    reveal_strlit("FireAndForgetSpawn");
    reveal_strlit("SilentBackgroundError");
    reveal_strlit("UnboundedBlockingWait");
    let rules = standard_rules();
    assert forall|i: int| 0 <= i < rules.len() implies rule_valid(#[trigger] rules[i]) by {
        let r = rules[i];
        assert forall|k: int| 0 <= k < r.kinds.len() implies inspects(
            r.detector,
            #[trigger] r.kinds[k],
        ) by {}
    }
    assert forall|i: int, j: int| 0 <= i < j < rules.len() implies (#[trigger] rules[i]).id != (
    #[trigger] rules[j]).id by {
        let x = rules[i].id;
        let y = rules[j].id;
        assert(x.len() != y.len() || x[0] != y[0]);
    }
}

/// The standard rule for a detector.
pub fn rule_for(d: Detector) -> (r: Rule)
    ensures
        r@ == standard_rule(d),
{
    let mut kinds: Vec<NodeKind> = Vec::new();
    let rule = match d {
        Detector::UnwrapPanic => {
            kinds.push(NodeKind::MethodCall);
            Rule::new(
                "UnwrapPanic".to_owned(),
                "value taken out with unwrap and no check before it".to_owned(),
                Severity::Warning,
                kinds,
                d,
            )
        },
        Detector::LockPoisonOnPanic => {
            kinds.push(NodeKind::Panic);
            kinds.push(NodeKind::MethodCall);
            Rule::new(
                "LockPoisonOnPanic".to_owned(),
                "possible panic while a lock is held".to_owned(),
                Severity::Critical,
                kinds,
                d,
            )
        },
        Detector::UnsafeReinterpret => {
            kinds.push(NodeKind::Call);
            Rule::new(
                "UnsafeReinterpret".to_owned(),
                "owned sequence reinterpreted as an address-sized integer".to_owned(),
                Severity::Critical,
                kinds,
                d,
            )
        },
        Detector::FireAndForgetSpawn => {
            kinds.push(NodeKind::Spawn);
            Rule::new(
                "FireAndForgetSpawn".to_owned(),
                "task spawned and never waited for".to_owned(),
                Severity::Warning,
                kinds,
                d,
            )
        },
        Detector::SilentBackgroundError => {
            kinds.push(NodeKind::Let);
            kinds.push(NodeKind::MethodCall);
            Rule::new(
                "SilentBackgroundError".to_owned(),
                "error discarded inside a spawned task".to_owned(),
                Severity::Warning,
                kinds,
                d,
            )
        },
        Detector::UnboundedBlockingWait => {
            kinds.push(NodeKind::Wait);
            Rule::new(
                "UnboundedBlockingWait".to_owned(),
                "fixed wait in a spawned task whose result is taken out unchecked".to_owned(),
                Severity::Info,
                kinds,
                d,
            )
        },
    };
    assert(rule@.kinds =~= standard_kinds(d));
    rule
}

/// The rules of the standard catalog, in its order.
pub fn catalog() -> (c: Vec<Rule>)
    ensures
        models(c@) == standard_rules(),
{
    let mut c: Vec<Rule> = Vec::new();
    c.push(rule_for(Detector::UnwrapPanic));
    c.push(rule_for(Detector::LockPoisonOnPanic));
    c.push(rule_for(Detector::UnsafeReinterpret));
    c.push(rule_for(Detector::FireAndForgetSpawn));
    c.push(rule_for(Detector::SilentBackgroundError));
    c.push(rule_for(Detector::UnboundedBlockingWait));
    c
}

} // verus!
