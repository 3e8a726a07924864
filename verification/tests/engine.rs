use defect_scan::catalog::rule_for;
use defect_scan::engine::analyze;
use defect_scan::rule::Detector;
use defect_scan::rule::Rule;
use defect_scan::rule::Severity;
use defect_scan::ruleset::RuleSet;
use defect_scan::tree::NodeKind;
use defect_scan::tree::Span;
use defect_scan::tree::Tree;
use defect_scan::tree::TypeTag;

fn add(
    tree: &mut Tree,
    parent: usize,
    kind: NodeKind,
    span: (usize, usize),
    tag: TypeTag,
    text: Option<&str>,
) -> usize {
    tree.add_child(parent, kind, Span::new(span.0, span.1), tag, text.map(|t| t.to_string()))
        .unwrap()
}

/// A spawn with a body, as a statement of the block `parent`: it is reported
/// by the rule on forgotten spawns, at its span.
fn forgotten(tree: &mut Tree, parent: usize, span: (usize, usize)) -> usize {
    let spawn = add(tree, parent, NodeKind::Spawn, span, TypeTag::Unknown, None);
    add(tree, spawn, NodeKind::Other, span, TypeTag::Unknown, None);
    spawn
}

/// Nine nodes, added in an order that is not the pre-order:
/// root, a, b, s1 (in a), its body, s2 (in b), its body, s3 (in a), its body.
fn crossed() -> Tree {
    let mut tree = Tree::new(100);
    let a = add(&mut tree, 0, NodeKind::Block, (10, 50), TypeTag::Unknown, None);
    let b = add(&mut tree, 0, NodeKind::Block, (50, 90), TypeTag::Unknown, None);
    forgotten(&mut tree, a, (10, 20));
    forgotten(&mut tree, b, (50, 60));
    forgotten(&mut tree, a, (30, 40));
    tree
}

fn spans(findings: &[defect_scan::rule::Finding]) -> Vec<(usize, usize)> {
    findings.iter().map(|f| (f.span.start, f.span.end)).collect()
}

#[test]
fn unit_without_nodes_below_the_root_is_visited_and_silent() {
    let tree = Tree::new(10);
    let result = analyze(&RuleSet::standard(), &tree, 100);
    assert_eq!(result.findings.len(), 0);
    assert_eq!(result.faults.len(), 0);
    assert_eq!(result.visited, 1);
    assert!(!result.truncated);
}

#[test]
fn findings_come_in_pre_order() {
    let tree = crossed();
    let result = analyze(&RuleSet::standard(), &tree, 100);
    assert_eq!(spans(&result.findings), vec![(10, 20), (30, 40), (50, 60)]);
    assert_eq!(result.visited, 9);
    assert!(!result.truncated);
    for f in &result.findings {
        assert_eq!(f.rule_id, "FireAndForgetSpawn");
        assert_eq!(f.severity, Severity::Warning);
        assert_eq!(f.message, "task spawned and never waited for");
    }
}

#[test]
fn budget_cuts_the_walk_short_and_keeps_what_was_found() {
    let tree = crossed();
    let rules = RuleSet::standard();
    let expected: [(usize, Vec<(usize, usize)>); 10] = [
        (0, vec![]),
        (1, vec![]),
        (2, vec![]),
        (3, vec![(10, 20)]),
        (4, vec![(10, 20)]),
        (5, vec![(10, 20), (30, 40)]),
        (6, vec![(10, 20), (30, 40)]),
        (7, vec![(10, 20), (30, 40)]),
        (8, vec![(10, 20), (30, 40), (50, 60)]),
        (9, vec![(10, 20), (30, 40), (50, 60)]),
    ];
    for (budget, found) in expected {
        let result = analyze(&rules, &tree, budget);
        assert_eq!(spans(&result.findings), found, "budget {}", budget);
        assert_eq!(result.visited, budget);
        assert_eq!(result.truncated, budget < 9);
    }
}

#[test]
fn budget_beyond_the_tree_changes_nothing() {
    let tree = crossed();
    let rules = RuleSet::standard();
    for budget in [9, 10, 1000, usize::MAX] {
        let result = analyze(&rules, &tree, budget);
        assert_eq!(result.visited, 9);
        assert!(!result.truncated);
        assert_eq!(result.findings.len(), 3);
    }
}

#[test]
fn rule_that_cannot_read_a_node_is_recorded_and_the_others_go_on() {
    let mut tree = Tree::new(100);
    let block = add(&mut tree, 0, NodeKind::Block, (0, 100), TypeTag::Unknown, None);
    let spawn = add(&mut tree, block, NodeKind::Spawn, (0, 50), TypeTag::Unknown, None);
    let broken = add(&mut tree, spawn, NodeKind::MethodCall, (10, 20), TypeTag::Unknown, Some("unwrap"));
    let wait = add(&mut tree, block, NodeKind::Wait, (60, 70), TypeTag::Unknown, None);
    let result = analyze(&RuleSet::standard(), &tree, 100);
    let faults: Vec<(String, usize)> =
        result.faults.iter().map(|f| (f.rule_id.clone(), f.node)).collect();
    assert_eq!(
        faults,
        vec![
            ("UnwrapPanic".to_string(), broken),
            ("LockPoisonOnPanic".to_string(), broken),
            ("SilentBackgroundError".to_string(), broken),
            ("UnboundedBlockingWait".to_string(), wait),
        ]
    );
    assert_eq!(spans(&result.findings), vec![(0, 50)]);
    assert_eq!(result.findings[0].rule_id, "FireAndForgetSpawn");
    assert_eq!(result.visited, 5);
    assert!(!result.truncated);
}

#[test]
fn several_rules_at_one_node_report_in_the_order_of_the_set() {
    let mut tree = Tree::new(100);
    let spawn = add(&mut tree, 0, NodeKind::Spawn, (0, 90), TypeTag::Unknown, None);
    let block = add(&mut tree, spawn, NodeKind::Block, (0, 90), TypeTag::Unknown, None);
    add(&mut tree, block, NodeKind::Let, (0, 10), TypeTag::Guard, Some("g"));
    let call = add(&mut tree, block, NodeKind::MethodCall, (20, 30), TypeTag::Unknown, Some("unwrap"));
    add(&mut tree, call, NodeKind::Identifier, (20, 21), TypeTag::ResultLike, Some("r"));
    let result = analyze(&RuleSet::standard(), &tree, 100);
    let ids: Vec<&str> = result.findings.iter().map(|f| f.rule_id.as_str()).collect();
    assert_eq!(ids, vec!["UnwrapPanic", "LockPoisonOnPanic", "SilentBackgroundError"]);
    assert_eq!(spans(&result.findings), vec![(20, 30), (20, 30), (20, 30)]);

    let reversed = RuleSet::new(vec![
        rule_for(Detector::SilentBackgroundError),
        rule_for(Detector::LockPoisonOnPanic),
        rule_for(Detector::UnwrapPanic),
    ])
    .unwrap();
    let result = analyze(&reversed, &tree, 100);
    let ids: Vec<&str> = result.findings.iter().map(|f| f.rule_id.as_str()).collect();
    assert_eq!(ids, vec!["SilentBackgroundError", "LockPoisonOnPanic", "UnwrapPanic"]);
}

#[test]
fn rule_is_heard_only_at_the_kinds_that_it_names() {
    let mut tree = Tree::new(100);
    let block = add(&mut tree, 0, NodeKind::Block, (0, 90), TypeTag::Unknown, None);
    add(&mut tree, block, NodeKind::Let, (0, 10), TypeTag::Guard, Some("g"));
    let call = add(&mut tree, block, NodeKind::MethodCall, (20, 30), TypeTag::Unknown, Some("unwrap"));
    add(&mut tree, call, NodeKind::Identifier, (20, 21), TypeTag::OptionLike, Some("v"));
    add(&mut tree, block, NodeKind::Panic, (40, 50), TypeTag::Unknown, None);
    add(&mut tree, block, NodeKind::MethodCall, (60, 70), TypeTag::Unknown, Some("broken"));

    let both = RuleSet::new(vec![rule_for(Detector::LockPoisonOnPanic)]).unwrap();
    let result = analyze(&both, &tree, 100);
    assert_eq!(spans(&result.findings), vec![(20, 30), (40, 50)]);
    assert_eq!(result.faults.len(), 1);

    let narrow = Rule::new(
        "panic-under-lock".to_string(),
        "explicit panic while a lock is held".to_string(),
        Severity::Info,
        vec![NodeKind::Panic],
        Detector::LockPoisonOnPanic,
    );
    let only_panics = RuleSet::new(vec![narrow]).unwrap();
    let result = analyze(&only_panics, &tree, 100);
    assert_eq!(spans(&result.findings), vec![(40, 50)]);
    assert_eq!(result.findings[0].rule_id, "panic-under-lock");
    assert_eq!(result.findings[0].severity, Severity::Info);
    assert_eq!(result.findings[0].message, "explicit panic while a lock is held");
    assert_eq!(result.faults.len(), 0);
}

#[test]
fn empty_rule_set_visits_and_finds_nothing() {
    let tree = crossed();
    let none = RuleSet::new(vec![]).unwrap();
    let result = analyze(&none, &tree, 100);
    assert_eq!(result.findings.len(), 0);
    assert_eq!(result.faults.len(), 0);
    assert_eq!(result.visited, 9);
    assert!(!result.truncated);
}

#[test]
fn very_deep_tree_is_walked_to_the_bottom() {
    let depth = 200_000;
    let mut tree = Tree::new(10);
    let mut parent = 0;
    for _ in 0..depth {
        parent = add(&mut tree, parent, NodeKind::Block, (0, 10), TypeTag::Unknown, None);
    }
    let panic = add(&mut tree, parent, NodeKind::Panic, (3, 4), TypeTag::Unknown, None);
    add(&mut tree, 1, NodeKind::Let, (0, 0), TypeTag::Guard, Some("g"));
    assert_eq!(tree.len(), depth + 3);
    let result = analyze(&RuleSet::standard(), &tree, usize::MAX);
    assert_eq!(result.visited, depth + 3);
    assert!(!result.truncated);
    assert_eq!(result.findings.len(), 0);
    assert_eq!(tree.get(panic).unwrap().kind(), NodeKind::Panic);
    let cut = analyze(&RuleSet::standard(), &tree, depth);
    assert_eq!(cut.visited, depth);
    assert!(cut.truncated);
}

#[test]
fn very_wide_tree_is_walked_from_left_to_right() {
    let width = 50_000;
    let mut tree = Tree::new(width);
    let block = add(&mut tree, 0, NodeKind::Block, (0, width), TypeTag::Unknown, None);
    for k in 0..width {
        forgotten(&mut tree, block, (k, k));
    }
    let result = analyze(&RuleSet::standard(), &tree, usize::MAX);
    assert_eq!(result.visited, 2 * width + 2);
    assert_eq!(result.findings.len(), width);
    for (k, f) in result.findings.iter().enumerate() {
        assert_eq!(f.span, Span::new(k, k));
    }
}
