//! Rules, and what they report.
//!
//! A rule names one detector of the closed catalog, the node kinds at which it
//! is to be evaluated, and the severity of what it finds.

use crate::tree::NodeKind;
use crate::tree::Span;
use vstd::prelude::*;

verus! {

/// How grave a finding is. `Info` is the lowest level, `Critical` the highest.
#[derive(Clone, Copy, Debug, PartialEq, Eq, Structural)]
pub enum Severity {
    Info,
    Warning,
    Critical,
}

impl Severity {
    /// The position of a severity in the order `Info < Warning < Critical`.
    pub open spec fn rank(self) -> nat {
        match self {
            Severity::Info => 1,
            Severity::Warning => 2,
            Severity::Critical => 3,
        }
    }

    /// The position of a severity in the order `Info < Warning < Critical`.
    pub fn level(&self) -> (r: u8)
        ensures
            r == self.rank(),
    {
        match self {
            Severity::Info => 1,
            Severity::Warning => 2,
            Severity::Critical => 3,
        }
    }

    /// Whether `self` is at least as grave as `floor`.
    pub fn at_least(&self, floor: Severity) -> (b: bool)
        ensures
            b == (self.rank() >= floor.rank()),
    {
        self.level() >= floor.level()
    }
}

/// The detectors of the catalog, one for each class of defect.
#[derive(Clone, Copy, Debug, PartialEq, Eq, Structural)]
pub enum Detector {
    /// A value is taken out of an optional or fallible value with no check before it.
    UnwrapPanic,
    /// Something that may panic runs while a lock is held.
    LockPoisonOnPanic,
    /// An owned, growable value is reinterpreted as an address-sized integer.
    UnsafeReinterpret,
    /// Work is scheduled and its handle is dropped or never waited for.
    FireAndForgetSpawn,
    /// Scheduled work discards the error of a fallible step.
    SilentBackgroundError,
    /// Scheduled work waits a fixed time and its result is then taken out unchecked.
    UnboundedBlockingWait,
}

/// What a detector says of one node.
#[derive(Clone, Copy, Debug, PartialEq, Eq, Structural)]
pub enum Outcome {
    /// The node does not show the defect.
    Silent,
    /// The node shows the defect.
    Match,
    /// The node has a shape that the detector cannot read.
    Fault,
}

/// The mathematical model of a rule.
pub struct RuleModel {
    pub id: Seq<char>,
    pub description: Seq<char>,
    pub severity: Severity,
    pub kinds: Seq<NodeKind>,
    pub detector: Detector,
}

/// A rule: a detector under a name, with the node kinds it applies to.
pub struct Rule {
    /// The rule's identifier, unique within a rule set.
    pub id: String,
    /// What the rule reports, in words; the message of its findings.
    pub description: String,
    /// The severity of its findings.
    pub severity: Severity,
    /// The node kinds at which the rule is evaluated.
    pub kinds: Vec<NodeKind>,
    /// The detector that the rule runs.
    pub detector: Detector,
}

impl View for Rule {
    type V = RuleModel;

    open spec fn view(&self) -> RuleModel {
        RuleModel {
            id: self.id@,
            description: self.description@,
            severity: self.severity,
            kinds: self.kinds@,
            detector: self.detector,
        }
    }
}

impl Rule {
    /// A rule with the given parts. Whether it is valid is decided when a rule
    /// set is built from it.
    pub fn new(
        id: String,
        description: String,
        severity: Severity,
        kinds: Vec<NodeKind>,
        detector: Detector,
    ) -> (r: Rule)
        ensures
            r@ == (RuleModel {
                id: id@,
                description: description@,
                severity,
                kinds: kinds@,
                detector,
            }),
    {
        Rule { id, description, severity, kinds, detector }
    }

    /// Whether the rule is evaluated at nodes of kind `kind`.
    pub fn applies_to(&self, kind: NodeKind) -> (b: bool)
        ensures
            b == self@.kinds.contains(kind),
    {
        let mut k: usize = 0;
        while k < self.kinds.len()
            invariant
                k <= self.kinds@.len(),
                forall|j: int| 0 <= j < k ==> self.kinds@[j] != kind,
            decreases self.kinds@.len() - k,
        {
            if self.kinds[k] == kind {
                return true;
            }
            k += 1;
        }
        false
    }
}

/// The mathematical model of a finding.
pub struct FindingModel {
    pub rule_id: Seq<char>,
    pub severity: Severity,
    pub span: Span,
    pub message: Seq<char>,
}

/// One reported instance of a rule matching in a unit.
#[derive(Debug)]
pub struct Finding {
    /// The identifier of the rule that matched.
    pub rule_id: String,
    /// The rule's severity.
    pub severity: Severity,
    /// The span of the node at which the rule matched.
    pub span: Span,
    /// The rule's description.
    pub message: String,
}

impl View for Finding {
    type V = FindingModel;

    open spec fn view(&self) -> FindingModel {
        FindingModel {
            rule_id: self.rule_id@,
            severity: self.severity,
            span: self.span,
            message: self.message@,
        }
    }
}

impl Finding {
    /// A copy of the finding.
    pub fn duplicate(&self) -> (f: Finding)
        ensures
            f@ == self@,
    {
        Finding {
            rule_id: self.rule_id.clone(),
            severity: self.severity,
            span: self.span,
            message: self.message.clone(),
        }
    }
}

/// The mathematical model of a fault.
pub struct FaultModel {
    pub rule_id: Seq<char>,
    pub node: usize,
}

/// A record that a rule could not read a node. It is no finding.
#[derive(Debug)]
pub struct Fault {
    /// The identifier of the rule that failed.
    pub rule_id: String,
    /// The index of the node that it could not read.
    pub node: usize,
}

impl View for Fault {
    type V = FaultModel;

    open spec fn view(&self) -> FaultModel {
        FaultModel { rule_id: self.rule_id@, node: self.node }
    }
}

} // verus!
