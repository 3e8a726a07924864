use defect_scan::tree::NodeKind;
use defect_scan::tree::Span;
use defect_scan::tree::Tree;
use defect_scan::tree::TreeError;
use defect_scan::tree::TypeTag;

#[test]
fn new_tree_is_a_single_unit_root() {
    let tree = Tree::new(42);
    assert_eq!(tree.len(), 1);
    let root = tree.get(0).unwrap();
    assert_eq!(root.kind(), NodeKind::Unit);
    assert_eq!(root.tag(), TypeTag::Unknown);
    assert_eq!(root.span(), Span::new(0, 42));
    assert_eq!(root.parent(), None);
    assert_eq!(root.children().len(), 0);
    assert!(root.text().is_none());
    assert!(tree.get(1).is_none());
}

#[test]
fn tree_of_an_empty_text_has_a_root() {
    let tree = Tree::new(0);
    assert_eq!(tree.len(), 1);
    assert_eq!(tree.get(0).unwrap().span(), Span::new(0, 0));
}

#[test]
fn add_child_appends_and_links_both_ways() {
    let mut tree = Tree::new(100);
    let a = tree
        .add_child(0, NodeKind::Function, Span::new(10, 60), TypeTag::Unknown, Some("f".to_string()))
        .unwrap();
    let b = tree.add_child(0, NodeKind::Function, Span::new(60, 90), TypeTag::Unknown, None).unwrap();
    let c = tree
        .add_child(a, NodeKind::Call, Span::new(20, 30), TypeTag::ResultLike, Some("g".to_string()))
        .unwrap();
    assert_eq!((a, b, c), (1, 2, 3));
    assert_eq!(tree.len(), 4);
    assert_eq!(tree.get(0).unwrap().children(), &vec![1, 2]);
    assert_eq!(tree.get(a).unwrap().children(), &vec![3]);
    assert_eq!(tree.get(b).unwrap().children().len(), 0);
    assert_eq!(tree.get(c).unwrap().parent(), Some(a));
    assert_eq!(tree.get(a).unwrap().parent(), Some(0));
    let node = tree.get(c).unwrap();
    assert_eq!(node.kind(), NodeKind::Call);
    assert_eq!(node.tag(), TypeTag::ResultLike);
    assert_eq!(node.span(), Span::new(20, 30));
    assert_eq!(node.text().unwrap(), "g");
    assert!(node.text_is("g"));
    assert!(!node.text_is("f"));
    assert!(!tree.get(b).unwrap().text_is(""));
}

#[test]
fn add_child_refuses_an_unknown_parent() {
    let mut tree = Tree::new(100);
    let r = tree.add_child(1, NodeKind::Block, Span::new(0, 10), TypeTag::Unknown, None);
    assert_eq!(r, Err(TreeError::UnknownParent));
    assert_eq!(tree.len(), 1);
    assert_eq!(tree.get(0).unwrap().children().len(), 0);
}

#[test]
fn add_child_refuses_a_span_that_ends_before_it_starts() {
    let mut tree = Tree::new(100);
    let r = tree.add_child(0, NodeKind::Block, Span::new(10, 9), TypeTag::Unknown, None);
    assert_eq!(r, Err(TreeError::InvalidSpan));
    assert_eq!(tree.len(), 1);
}

#[test]
fn add_child_refuses_a_span_outside_the_parent() {
    let mut tree = Tree::new(100);
    let a = tree.add_child(0, NodeKind::Block, Span::new(10, 20), TypeTag::Unknown, None).unwrap();
    assert_eq!(
        tree.add_child(a, NodeKind::Block, Span::new(9, 15), TypeTag::Unknown, None),
        Err(TreeError::OutsideParent)
    );
    assert_eq!(
        tree.add_child(a, NodeKind::Block, Span::new(15, 21), TypeTag::Unknown, None),
        Err(TreeError::OutsideParent)
    );
    assert_eq!(
        tree.add_child(0, NodeKind::Block, Span::new(0, 101), TypeTag::Unknown, None),
        Err(TreeError::OutsideParent)
    );
    assert_eq!(tree.len(), 2);
    assert_eq!(tree.get(a).unwrap().children().len(), 0);
}

#[test]
fn add_child_names_the_first_thing_that_is_wrong() {
    let mut tree = Tree::new(100);
    assert_eq!(
        tree.add_child(5, NodeKind::Block, Span::new(10, 9), TypeTag::Unknown, None),
        Err(TreeError::UnknownParent)
    );
    assert_eq!(
        tree.add_child(0, NodeKind::Block, Span::new(300, 200), TypeTag::Unknown, None),
        Err(TreeError::InvalidSpan)
    );
}

#[test]
fn add_child_accepts_the_parents_own_span_and_an_empty_span() {
    let mut tree = Tree::new(100);
    let a = tree.add_child(0, NodeKind::Block, Span::new(0, 100), TypeTag::Unknown, None).unwrap();
    let b = tree.add_child(a, NodeKind::Block, Span::new(100, 100), TypeTag::Unknown, None).unwrap();
    assert_eq!(tree.get(b).unwrap().span(), Span::new(100, 100));
}

#[test]
fn spans_compare_by_their_bounds() {
    assert!(Span::new(3, 3).is_valid());
    assert!(Span::new(3, 4).is_valid());
    assert!(!Span::new(4, 3).is_valid());
    assert!(Span::new(3, 5).is_within(&Span::new(3, 5)));
    assert!(Span::new(3, 5).is_within(&Span::new(0, 9)));
    assert!(!Span::new(3, 5).is_within(&Span::new(4, 9)));
    assert!(!Span::new(3, 5).is_within(&Span::new(0, 4)));
}
