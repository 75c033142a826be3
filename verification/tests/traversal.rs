//! Traversal scenarios: document-order stepping, boundaries, exhaustion,
//! and forward/backward symmetry.

use node_iterator::filter::Filter;
use node_iterator::iterator::NodeIterator;
use node_iterator::tree::Tree;

const ELEMENT: u32 = 1;
const DOCUMENT: u32 = 9;

/// Mask admitting only kind 1 (bit 0).
const SHOW_ELEMENTS: u32 = 1;

/// Mask admitting every kind.
const SHOW_ALL: u32 = 0xFFFF_FFFF;

/// root -> [A, B, C]: three element children under a document root.
fn flat_list() -> (Tree, usize, usize, usize, usize) {
    let mut t = Tree::new(DOCUMENT);
    let a = t.append_child(0, ELEMENT);
    let b = t.append_child(0, ELEMENT);
    let c = t.append_child(0, ELEMENT);
    (t, 0, a, b, c)
}

/// root -> A -> [A1, A2]: one element child with two grandchildren.
fn nested() -> (Tree, usize, usize, usize, usize) {
    let mut t = Tree::new(DOCUMENT);
    let a = t.append_child(0, ELEMENT);
    let a1 = t.append_child(a, ELEMENT);
    let a2 = t.append_child(a, ELEMENT);
    (t, 0, a, a1, a2)
}

#[test]
fn flat_list_forward() {
    let (t, root, a, b, c) = flat_list();
    let mut it = NodeIterator::new_inherited(root, SHOW_ELEMENTS, Filter::FilterNone);
    assert_eq!(it.next_node(&t), Ok(Some(a)));
    assert_eq!(it.next_node(&t), Ok(Some(b)));
    assert_eq!(it.next_node(&t), Ok(Some(c)));
    assert_eq!(it.next_node(&t), Ok(None));
    assert_eq!(it.prev_node(&t), Ok(Some(c)));
}

#[test]
fn nested_forward() {
    let (t, root, a, a1, a2) = nested();
    let mut it = NodeIterator::new_inherited(root, SHOW_ELEMENTS, Filter::FilterNone);
    assert_eq!(it.next_node(&t), Ok(Some(a)));
    assert_eq!(it.next_node(&t), Ok(Some(a1)));
    assert_eq!(it.next_node(&t), Ok(Some(a2)));
    assert_eq!(it.next_node(&t), Ok(None));
}

#[test]
fn root_is_returned_first_when_mask_admits_it() {
    let (t, root, a, b, c) = flat_list();
    let mut it = NodeIterator::new_inherited(root, SHOW_ALL, Filter::FilterNone);
    assert_eq!(it.next_node(&t), Ok(Some(root)));
    assert_eq!(it.next_node(&t), Ok(Some(a)));
    assert_eq!(it.next_node(&t), Ok(Some(b)));
    assert_eq!(it.next_node(&t), Ok(Some(c)));
    assert_eq!(it.next_node(&t), Ok(None));
}

#[test]
fn previous_before_root_finds_nothing() {
    let (t, root, _, _, _) = flat_list();
    let mut it = NodeIterator::new_inherited(root, SHOW_ALL, Filter::FilterNone);
    assert_eq!(it.prev_node(&t), Ok(None));
    assert_eq!(it.reference_node(), root);
    assert!(it.pointer_before_reference_node());
}

#[test]
fn previous_before_root_finds_nothing_nested_masked() {
    let (t, root, _, _, _) = nested();
    let mut it = NodeIterator::new_inherited(root, SHOW_ELEMENTS, Filter::FilterNone);
    assert_eq!(it.prev_node(&t), Ok(None));
    assert_eq!(it.reference_node(), root);
    assert!(it.pointer_before_reference_node());
    let mut masked = NodeIterator::new_inherited(root, 0, Filter::FilterNone);
    assert_eq!(masked.prev_node(&t), Ok(None));
    assert_eq!(masked.reference_node(), root);
    assert!(masked.pointer_before_reference_node());
}

#[test]
fn exhaustion_is_idempotent() {
    let (t, root, a, b, c) = flat_list();
    let mut it = NodeIterator::new_inherited(root, SHOW_ELEMENTS, Filter::FilterNone);
    assert_eq!(it.next_node(&t), Ok(Some(a)));
    assert_eq!(it.next_node(&t), Ok(Some(b)));
    assert_eq!(it.next_node(&t), Ok(Some(c)));
    assert_eq!(it.next_node(&t), Ok(None));
    let reference = it.reference_node();
    let before = it.pointer_before_reference_node();
    assert_eq!(it.next_node(&t), Ok(None));
    assert_eq!(it.next_node(&t), Ok(None));
    assert_eq!(it.reference_node(), reference);
    assert_eq!(it.pointer_before_reference_node(), before);
}

#[test]
fn forward_then_backward_revisits_in_reverse() {
    let (t, root, a, b, c) = flat_list();
    let mut it = NodeIterator::new_inherited(root, SHOW_ELEMENTS, Filter::FilterNone);
    assert_eq!(it.next_node(&t), Ok(Some(a)));
    assert_eq!(it.next_node(&t), Ok(Some(b)));
    assert_eq!(it.next_node(&t), Ok(Some(c)));
    assert_eq!(it.prev_node(&t), Ok(Some(c)));
    assert_eq!(it.prev_node(&t), Ok(Some(b)));
    assert_eq!(it.prev_node(&t), Ok(Some(a)));
    assert_eq!(it.prev_node(&t), Ok(None));
    assert_eq!(it.reference_node(), a);
    assert!(it.pointer_before_reference_node());
}

#[test]
fn next_then_previous_returns_same_node() {
    let (t, root, a, _, _) = nested();
    let mut it = NodeIterator::new_inherited(root, SHOW_ELEMENTS, Filter::FilterNone);
    assert_eq!(it.next_node(&t), Ok(Some(a)));
    assert_eq!(it.reference_node(), a);
    assert!(!it.pointer_before_reference_node());
    assert_eq!(it.prev_node(&t), Ok(Some(a)));
    assert_eq!(it.reference_node(), a);
    assert!(it.pointer_before_reference_node());
    assert_eq!(it.next_node(&t), Ok(Some(a)));
}

#[test]
fn nested_backward_descends_into_subtrees() {
    let (t, root, a, a1, a2) = nested();
    let mut it = NodeIterator::new_inherited(root, SHOW_ELEMENTS, Filter::FilterNone);
    assert_eq!(it.next_node(&t), Ok(Some(a)));
    assert_eq!(it.next_node(&t), Ok(Some(a1)));
    assert_eq!(it.next_node(&t), Ok(Some(a2)));
    assert_eq!(it.prev_node(&t), Ok(Some(a2)));
    assert_eq!(it.prev_node(&t), Ok(Some(a1)));
    assert_eq!(it.prev_node(&t), Ok(Some(a)));
    assert_eq!(it.prev_node(&t), Ok(None));
}

#[test]
fn following_walks_document_order() {
    let (t, root, a, a1, a2) = nested();
    let it = NodeIterator::new_inherited(root, SHOW_ALL, Filter::FilterNone);
    assert_eq!(it.following(&t, root), Some(a));
    assert_eq!(it.following(&t, a), Some(a1));
    assert_eq!(it.following(&t, a1), Some(a2));
    assert_eq!(it.following(&t, a2), None);
}

#[test]
fn preceding_walks_document_order_backward() {
    let (t, root, a, a1, a2) = nested();
    let it = NodeIterator::new_inherited(root, SHOW_ALL, Filter::FilterNone);
    assert_eq!(it.preceding(&t, a2), Some(a1));
    assert_eq!(it.preceding(&t, a1), Some(a));
    assert_eq!(it.preceding(&t, a), Some(root));
    assert_eq!(it.preceding(&t, root), None);
}

#[test]
fn preceding_descends_to_deepest_last_descendant() {
    // root -> [A -> [A1, A2], B]: preceding B is A2, the last node of A's subtree.
    let mut t = Tree::new(DOCUMENT);
    let a = t.append_child(0, ELEMENT);
    let a1 = t.append_child(a, ELEMENT);
    let a2 = t.append_child(a, ELEMENT);
    let b = t.append_child(0, ELEMENT);
    let it = NodeIterator::new_inherited(0, SHOW_ALL, Filter::FilterNone);
    assert_eq!(it.preceding(&t, b), Some(a2));
    assert_eq!(it.following(&t, a2), Some(b));
    let _ = a1;
}

#[test]
fn detach_changes_nothing() {
    let (t, root, a, _, _) = flat_list();
    let mut it = NodeIterator::new_inherited(root, SHOW_ELEMENTS, Filter::FilterNone);
    assert_eq!(it.next_node(&t), Ok(Some(a)));
    it.detach();
    assert_eq!(it.root(), root);
    assert_eq!(it.what_to_show(), SHOW_ELEMENTS);
    assert_eq!(it.reference_node(), a);
    assert!(!it.pointer_before_reference_node());
    assert_eq!(it.next_node(&t), Ok(Some(a + 1)));
}

#[test]
fn is_root_node_compares_identity_not_structure() {
    // Two structurally identical sibling subtrees: only the handle matters.
    let mut t = Tree::new(DOCUMENT);
    let a = t.append_child(0, ELEMENT);
    let _a1 = t.append_child(a, ELEMENT);
    let b = t.append_child(0, ELEMENT);
    let _b1 = t.append_child(b, ELEMENT);
    let it = NodeIterator::new_inherited(a, SHOW_ALL, Filter::FilterNone);
    assert!(it.is_root_node(a));
    assert!(!it.is_root_node(b));
}

#[test]
fn tree_links_after_append() {
    let (t, root, a, b, c) = flat_list();
    assert_eq!(t.len(), 4);
    assert_eq!(t.kind(root), DOCUMENT);
    assert_eq!(t.kind(a), ELEMENT);
    assert_eq!(t.parent(a), Some(root));
    assert_eq!(t.first_child(root), Some(a));
    assert_eq!(t.last_child(root), Some(c));
    assert_eq!(t.next_sibling(a), Some(b));
    assert_eq!(t.prev_sibling(b), Some(a));
    assert_eq!(t.next_sibling(c), None);
    assert_eq!(t.prev_sibling(a), None);
    assert_eq!(t.first_child(a), None);
    assert_eq!(t.parent(root), None);
}

#[test]
fn empty_subtree_traversal() {
    // A root with no children: forward finds nothing beyond the root itself.
    let t = Tree::new(ELEMENT);
    let mut it = NodeIterator::new_inherited(0, SHOW_ALL, Filter::FilterNone);
    assert_eq!(it.next_node(&t), Ok(Some(0)));
    assert_eq!(it.next_node(&t), Ok(None));
    assert_eq!(it.prev_node(&t), Ok(Some(0)));
    assert_eq!(it.prev_node(&t), Ok(None));
}

#[test]
fn cursor_bounded_to_inner_root_stops_at_subtree_end() {
    // root -> [A -> [A1], B]: a cursor rooted at A never reaches B backward.
    let mut t = Tree::new(DOCUMENT);
    let a = t.append_child(0, ELEMENT);
    let a1 = t.append_child(a, ELEMENT);
    let _b = t.append_child(0, ELEMENT);
    let mut it = NodeIterator::new_inherited(a, SHOW_ELEMENTS, Filter::FilterNone);
    assert_eq!(it.next_node(&t), Ok(Some(a)));
    assert_eq!(it.next_node(&t), Ok(Some(a1)));
    assert_eq!(it.prev_node(&t), Ok(Some(a1)));
    assert_eq!(it.prev_node(&t), Ok(Some(a)));
    assert_eq!(it.prev_node(&t), Ok(None));
}

#[test]
fn traversal_never_leaves_the_subtree() {
    // root -> [A, B] with A childless: a cursor bounded at A finds nothing
    // beyond A, although A has a next sibling in the host tree.
    let mut t = Tree::new(DOCUMENT);
    let a = t.append_child(0, ELEMENT);
    let b = t.append_child(0, ELEMENT);
    let mut it = NodeIterator::new_inherited(a, SHOW_ALL, Filter::FilterNone);
    assert_eq!(it.next_node(&t), Ok(Some(a)));
    assert_eq!(it.next_node(&t), Ok(None));
    assert_eq!(it.following(&t, a), None);
    let _ = b;
}

#[test]
fn climb_stops_at_inner_root_before_its_sibling() {
    // root -> [A -> [A1], B]: a cursor bounded at A ends after A1; the climb
    // from A1 reaches A, the traversal root, and never enters B.
    let mut t = Tree::new(DOCUMENT);
    let a = t.append_child(0, ELEMENT);
    let a1 = t.append_child(a, ELEMENT);
    let b = t.append_child(0, ELEMENT);
    let mut it = NodeIterator::new_inherited(a, SHOW_ALL, Filter::FilterNone);
    assert_eq!(it.next_node(&t), Ok(Some(a)));
    assert_eq!(it.next_node(&t), Ok(Some(a1)));
    assert_eq!(it.next_node(&t), Ok(None));
    assert_eq!(it.following(&t, a1), None);
    let _ = b;
}
