//! Filter evaluation: type-mask visibility, short-circuiting, native and
//! callback filters, and callback failure surfacing to the caller.

use node_iterator::filter::Filter;
use node_iterator::filter::FilterError;
use node_iterator::filter::Verdict;
use node_iterator::iterator::NodeIterator;
use node_iterator::tree::Tree;

const ELEMENT: u32 = 1;
const TEXT: u32 = 3;
const DOCUMENT: u32 = 9;

/// Mask admitting only kind 1 (bit 0).
const SHOW_ELEMENTS: u32 = 1;

/// Mask admitting every kind.
const SHOW_ALL: u32 = 0xFFFF_FFFF;

/// root -> [A, B, C] with B of a different kind than A and C.
fn mixed_list() -> (Tree, usize, usize, usize, usize) {
    let mut t = Tree::new(DOCUMENT);
    let a = t.append_child(0, ELEMENT);
    let b = t.append_child(0, TEXT);
    let c = t.append_child(0, ELEMENT);
    (t, 0, a, b, c)
}

#[test]
fn mask_excludes_kind_of_b() {
    let (t, root, a, b, c) = mixed_list();
    let mut it = NodeIterator::new_inherited(root, SHOW_ELEMENTS, Filter::FilterNone);
    assert_eq!(it.next_node(&t), Ok(Some(a)));
    assert_eq!(it.next_node(&t), Ok(Some(c)));
    assert_eq!(it.next_node(&t), Ok(None));
    let _ = b;
}

#[test]
fn masked_node_never_returned_backward_either() {
    let (t, root, a, b, c) = mixed_list();
    let mut it = NodeIterator::new_inherited(root, SHOW_ELEMENTS, Filter::FilterNone);
    assert_eq!(it.next_node(&t), Ok(Some(a)));
    assert_eq!(it.next_node(&t), Ok(Some(c)));
    assert_eq!(it.prev_node(&t), Ok(Some(c)));
    assert_eq!(it.prev_node(&t), Ok(Some(a)));
    assert_eq!(it.prev_node(&t), Ok(None));
    let _ = b;
}

#[test]
fn empty_mask_shows_nothing() {
    let (t, root, _, _, _) = mixed_list();
    let mut it = NodeIterator::new_inherited(root, 0, Filter::FilterNone);
    assert_eq!(it.next_node(&t), Ok(None));
    assert_eq!(it.reference_node(), root);
    assert!(it.pointer_before_reference_node());
}

#[test]
fn failing_filter_surfaces_error_and_preserves_cursor() {
    // The callback accepts A and B and fails on C.
    let mut t = Tree::new(DOCUMENT);
    let a = t.append_child(0, ELEMENT);
    let b = t.append_child(0, ELEMENT);
    let c = t.append_child(0, ELEMENT);
    let mut answers: Vec<Result<Verdict, FilterError>> = vec![Ok(Verdict::Accept); 4];
    answers[c] = Err(FilterError);
    let mut it = NodeIterator::new_inherited(0, SHOW_ELEMENTS, Filter::FilterCallback(answers));
    assert_eq!(it.next_node(&t), Ok(Some(a)));
    assert_eq!(it.next_node(&t), Ok(Some(b)));
    assert_eq!(it.next_node(&t), Err(FilterError));
    // The cursor still sits just after B, i.e. before C.
    assert_eq!(it.reference_node(), b);
    assert!(!it.pointer_before_reference_node());
    // A later retry with a filter that no longer fails continues from C.
    it.filter = Filter::FilterNone;
    assert_eq!(it.next_node(&t), Ok(Some(c)));
}

#[test]
fn masked_bit_short_circuits_a_failing_callback() {
    // The callback would fail on B, but B's kind is not admitted by the
    // mask, so the callback is never consulted for it and no error appears.
    let (t, root, a, b, c) = mixed_list();
    let mut answers: Vec<Result<Verdict, FilterError>> = vec![Ok(Verdict::Accept); 4];
    answers[b] = Err(FilterError);
    let mut it = NodeIterator::new_inherited(root, SHOW_ELEMENTS, Filter::FilterCallback(answers));
    assert_eq!(it.next_node(&t), Ok(Some(a)));
    assert_eq!(it.next_node(&t), Ok(Some(c)));
    assert_eq!(it.next_node(&t), Ok(None));
}

#[test]
fn native_filter_skips_by_identity() {
    let mut t = Tree::new(DOCUMENT);
    let a = t.append_child(0, ELEMENT);
    let b = t.append_child(0, ELEMENT);
    let c = t.append_child(0, ELEMENT);
    let mut verdicts: Vec<Verdict> = vec![Verdict::Accept; 4];
    verdicts[b] = Verdict::Skip;
    let mut it = NodeIterator::new_inherited(0, SHOW_ELEMENTS, Filter::FilterNative(verdicts));
    assert_eq!(it.next_node(&t), Ok(Some(a)));
    assert_eq!(it.next_node(&t), Ok(Some(c)));
    assert_eq!(it.next_node(&t), Ok(None));
}

#[test]
fn reject_is_passed_over_like_skip() {
    let mut t = Tree::new(DOCUMENT);
    let a = t.append_child(0, ELEMENT);
    let b = t.append_child(0, ELEMENT);
    let c = t.append_child(0, ELEMENT);
    let mut verdicts: Vec<Verdict> = vec![Verdict::Accept; 4];
    verdicts[b] = Verdict::Reject;
    let mut it = NodeIterator::new_inherited(0, SHOW_ELEMENTS, Filter::FilterNative(verdicts));
    assert_eq!(it.next_node(&t), Ok(Some(a)));
    assert_eq!(it.next_node(&t), Ok(Some(c)));
    assert_eq!(it.next_node(&t), Ok(None));
}

#[test]
fn accept_node_checks_mask_then_filter() {
    let (t, root, a, b, _c) = mixed_list();
    let it = NodeIterator::new_inherited(root, SHOW_ELEMENTS, Filter::FilterNone);
    assert_eq!(it.accept_node(&t, a), Ok(Verdict::Accept));
    assert_eq!(it.accept_node(&t, b), Ok(Verdict::Skip));
    assert_eq!(it.accept_node(&t, root), Ok(Verdict::Skip));
    let mut answers: Vec<Result<Verdict, FilterError>> = vec![Ok(Verdict::Accept); 5];
    answers[a] = Err(FilterError);
    let failing = NodeIterator::new_inherited(root, SHOW_ELEMENTS, Filter::FilterCallback(answers));
    assert_eq!(failing.accept_node(&t, a), Err(FilterError));
    assert_eq!(failing.accept_node(&t, b), Ok(Verdict::Skip));
}

#[test]
fn nodes_beyond_the_filter_table_are_accepted() {
    let mut t = Tree::new(DOCUMENT);
    let a = t.append_child(0, ELEMENT);
    let b = t.append_child(0, ELEMENT);
    let answers: Vec<Result<Verdict, FilterError>> = vec![Ok(Verdict::Skip); 2];
    let mut it = NodeIterator::new_inherited(0, SHOW_ELEMENTS, Filter::FilterCallback(answers));
    assert_eq!(it.next_node(&t), Ok(Some(b)));
    let _ = a;
}

#[test]
fn constructors_and_accessors() {
    let (t, root, a, _, _) = mixed_list();
    let it = NodeIterator::new(root, SHOW_ALL, None);
    assert_eq!(it.root(), root);
    assert_eq!(it.what_to_show(), SHOW_ALL);
    assert_eq!(it.reference_node(), root);
    assert!(it.pointer_before_reference_node());
    assert!(it.get_filter().is_none());
    let answers: Vec<Result<Verdict, FilterError>> = vec![Err(FilterError); 1];
    let with_cb = NodeIterator::new(root, SHOW_ALL, Some(answers.clone()));
    assert_eq!(with_cb.get_filter(), Some(&answers));
    let with = NodeIterator::new_with_filter(root, SHOW_ELEMENTS, Filter::FilterNone);
    assert_eq!(with.what_to_show(), SHOW_ELEMENTS);
    assert!(with.get_filter().is_none());
    let _ = (a, t);
}
