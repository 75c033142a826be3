//! Document order: the canonical depth-first, pre-order traversal order of
//! the tree.
//!
//! [`spec_following`] and [`spec_preceding`] give the document-order
//! successor and predecessor of a node, bounded by the subtree rooted at a
//! fixed `root` node exactly as the stepping algorithm walks it: the root is
//! an inclusive boundary, and both steps stay within its subtree
//! ([`lemma_following_in_subtree`], [`lemma_preceding_in_subtree`]) and
//! invert one another there ([`lemma_following_preceding_inverse`]). The
//! measures [`forward_measure`] and [`preorder_rank`] strictly decrease
//! along those walks ([`lemma_following_measure`], [`lemma_preceding_rank`]),
//! which is what makes a traversal loop terminate on a well-formed tree.

use vstd::prelude::*;

use crate::tree::Tree;

verus! {

/// The climb at the end of a forward step: starting from `c`, walk up the
/// parent chain while the current node is not `root` and has no next
/// sibling; answer that sibling, or nothing when the climb reaches `root` or
/// runs out of parents.
pub open spec fn spec_climb(t: &Tree, root: usize, c: usize) -> Option<usize>
    decreases c,
        when t.wf() && c < t.spec_len()
        via spec_climb_decreases
{
    if c == root {
        None
    } else {
        match t.spec_next_sibling(c) {
            Some(s) => Some(s),
            None => match t.spec_parent(c) {
                None => None,
                Some(p) => spec_climb(t, root, p),
            },
        }
    }
}

/// The first node following `node` in document order, within the traversal
/// bounded at `root`: its first child, else the next sibling of the nearest
/// ancestor-or-self below `root` that has one. The climb checks for `root`
/// before it looks at a sibling, so the root's own siblings are never
/// entered: the traversal does not leave the subtree rooted at `root`.
pub open spec fn spec_following(t: &Tree, root: usize, node: usize) -> Option<usize> {
    match t.spec_first_child(node) {
        Some(c) => Some(c),
        None => spec_climb(t, root, node),
    }
}

/// The deepest node reached from `n` by repeatedly taking last children:
/// the last node of `n`'s subtree in document order.
pub open spec fn spec_descend_last(t: &Tree, n: usize) -> usize
    decreases t.spec_len() - n,
        when t.wf() && n < t.spec_len()
        via spec_descend_last_decreases
{
    match t.spec_last_child(n) {
        None => n,
        Some(l) => spec_descend_last(t, l),
    }
}

/// The first node preceding `node` in document order, within the traversal
/// bounded at `root`: nothing when `node` is `root` itself (the lower
/// boundary), else the last node of its previous sibling's subtree, else its
/// parent.
pub open spec fn spec_preceding(t: &Tree, root: usize, node: usize) -> Option<usize> {
    if node == root {
        None
    } else {
        match t.spec_prev_sibling(node) {
            Some(s) => Some(spec_descend_last(t, s)),
            None => t.spec_parent(node),
        }
    }
}

/// The number of nodes in the subtree rooted at `n`, itself included.
pub open spec fn subtree_size(t: &Tree, n: usize) -> nat
    decreases t.spec_len() - n, 0int,
        when t.wf() && n < t.spec_len()
        via subtree_size_decreases
{
    1 + match t.spec_first_child(n) {
        None => 0nat,
        Some(c) => sibling_chain_size(t, c),
    }
}

/// The number of nodes in the subtrees of `c` and of all its later siblings.
pub open spec fn sibling_chain_size(t: &Tree, c: usize) -> nat
    decreases t.spec_len() - c, 1int,
        when t.wf() && c < t.spec_len()
        via sibling_chain_size_decreases
{
    subtree_size(t, c) + match t.spec_next_sibling(c) {
        None => 0nat,
        Some(s) => sibling_chain_size(t, s),
    }
}

/// The number of nodes that lie after the subtrees of `n`'s ancestors'
/// sibling chains: everything in document order after the subtree of `n`'s
/// parent chain, gathered ancestor by ancestor.
pub open spec fn ancestor_rest(t: &Tree, n: usize) -> nat
    decreases n,
        when t.wf() && n < t.spec_len()
        via ancestor_rest_decreases
{
    match t.spec_parent(n) {
        None => 0,
        Some(p) => (match t.spec_next_sibling(p) {
            None => 0nat,
            Some(s) => sibling_chain_size(t, s),
        }) + ancestor_rest(t, p),
    }
}

/// The number of nodes at or after `n` in document order: the nodes of `n`'s
/// subtree and of everything that follows it. A forward step lands on a node
/// with a strictly smaller forward measure.
pub open spec fn forward_measure(t: &Tree, n: usize) -> nat {
    sibling_chain_size(t, n) + ancestor_rest(t, n)
}

/// The number of nodes strictly after the subtree of `n` in document order.
pub open spec fn after_subtree(t: &Tree, n: usize) -> nat {
    (match t.spec_next_sibling(n) {
        None => 0nat,
        Some(s) => sibling_chain_size(t, s),
    }) + ancestor_rest(t, n)
}

/// The number of nodes strictly before `n` in document order: `n`'s position
/// in the pre-order sequence of its tree. A backward step lands on a node
/// with a strictly smaller rank.
pub open spec fn preorder_rank(t: &Tree, n: usize) -> nat
    decreases n,
        when t.wf() && n < t.spec_len()
        via preorder_rank_decreases
{
    match t.spec_prev_sibling(n) {
        Some(d) => preorder_rank(t, d) + subtree_size(t, d),
        None => match t.spec_parent(n) {
            Some(p) => preorder_rank(t, p) + 1,
            None => 0,
        },
    }
}

#[via_fn]
proof fn spec_climb_decreases(t: &Tree, root: usize, c: usize) {
    assert(t.wf_entry(c));
}

#[via_fn]
proof fn spec_descend_last_decreases(t: &Tree, n: usize) {
    assert(t.wf_entry(n));
}

#[via_fn]
proof fn subtree_size_decreases(t: &Tree, n: usize) {
    assert(t.wf_entry(n));
}

#[via_fn]
proof fn sibling_chain_size_decreases(t: &Tree, c: usize) {
    assert(t.wf_entry(c));
}

#[via_fn]
proof fn ancestor_rest_decreases(t: &Tree, n: usize) {
    assert(t.wf_entry(n));
}

#[via_fn]
proof fn preorder_rank_decreases(t: &Tree, n: usize) {
    assert(t.wf_entry(n));
}

/// The climb keeps "what lies after the current subtree" constant, so the
/// sibling it finds starts exactly where the climbed-from subtree ended.
proof fn lemma_climb_measure(t: &Tree, root: usize, c: usize)
    requires
        t.wf(),
        c < t.spec_len(),
        spec_climb(t, root, c) is Some,
    ensures
        ({
            let m = spec_climb(t, root, c)->0;
            &&& m < t.spec_len()
            &&& forward_measure(t, m) == after_subtree(t, c)
        }),
    decreases c,
{
    assert(t.wf_entry(c));
    if c == root {
    } else {
        match t.spec_next_sibling(c) {
            Some(s) => {
                assert(t.wf_entry(s));
            },
            None => {
                let p = t.spec_parent(c)->0;
                assert(t.wf_entry(p));
                lemma_climb_measure(t, root, p);
            },
        }
    }
}

/// A forward step strictly shrinks the forward measure: following a node in
/// document order moves exactly one node closer to the end of the traversal.
pub proof fn lemma_following_measure(t: &Tree, root: usize, node: usize)
    requires
        t.wf(),
        node < t.spec_len(),
        spec_following(t, root, node) is Some,
    ensures
        ({
            let m = spec_following(t, root, node)->0;
            &&& m < t.spec_len()
            &&& forward_measure(t, m) < forward_measure(t, node)
        }),
{
    assert(t.wf_entry(node));
    match t.spec_first_child(node) {
        Some(c) => {
            assert(t.wf_entry(c));
            assert(subtree_size(t, node) == 1 + sibling_chain_size(t, c));
            assert(sibling_chain_size(t, node) == subtree_size(t, node) + (
            match t.spec_next_sibling(node) {
                None => 0nat,
                Some(s) => sibling_chain_size(t, s),
            }));
            assert(ancestor_rest(t, c) == (match t.spec_next_sibling(node) {
                None => 0nat,
                Some(s) => sibling_chain_size(t, s),
            }) + ancestor_rest(t, node));
        },
        None => {
            assert(subtree_size(t, node) == 1);
            assert(sibling_chain_size(t, node) == 1 + (match t.spec_next_sibling(node) {
                None => 0nat,
                Some(s) => sibling_chain_size(t, s),
            }));
            lemma_climb_measure(t, root, node);
        },
    }
}

/// Along a sibling chain, rank plus the size of the rest of the chain is
/// constant, and equals the rank of the parent plus its subtree size.
proof fn lemma_chain_rank(t: &Tree, c: usize)
    requires
        t.wf(),
        c < t.spec_len(),
        t.spec_parent(c) is Some,
    ensures
        ({
            let p = t.spec_parent(c)->0;
            preorder_rank(t, c) + sibling_chain_size(t, c) == preorder_rank(t, p)
                + subtree_size(t, p)
        }),
    decreases c,
{
    assert(t.wf_entry(c));
    let p = t.spec_parent(c)->0;
    assert(t.wf_entry(p));
    match t.spec_prev_sibling(c) {
        None => {},
        Some(d) => {
            assert(t.wf_entry(d));
            lemma_chain_rank(t, d);
        },
    }
}

/// The last node of `s`'s subtree in document order sits `subtree_size - 1`
/// places after `s` in the pre-order sequence.
proof fn lemma_descend_rank(t: &Tree, s: usize)
    requires
        t.wf(),
        s < t.spec_len(),
    ensures
        ({
            let m = spec_descend_last(t, s);
            &&& m < t.spec_len()
            &&& preorder_rank(t, m) + 1 == preorder_rank(t, s) + subtree_size(t, s)
        }),
    decreases t.spec_len() - s,
{
    assert(t.wf_entry(s));
    match t.spec_last_child(s) {
        None => {},
        Some(l) => {
            assert(t.wf_entry(l));
            lemma_descend_rank(t, l);
            lemma_chain_rank(t, l);
        },
    }
}

/// Whether `n` lies in the subtree rooted at `root`, `root` itself
/// included: climbing parents from `n` reaches `root`.
pub open spec fn in_subtree(t: &Tree, root: usize, n: usize) -> bool
    decreases n,
        when t.wf() && n < t.spec_len()
        via in_subtree_decreases
{
    n == root || match t.spec_parent(n) {
        None => false,
        Some(p) => in_subtree(t, root, p),
    }
}

#[via_fn]
proof fn in_subtree_decreases(t: &Tree, root: usize, n: usize) {
    assert(t.wf_entry(n));
}

/// A node of the subtree never has a smaller index than the subtree's root:
/// parent links point backward in the arena.
proof fn lemma_in_subtree_ge(t: &Tree, root: usize, n: usize)
    requires
        t.wf(),
        n < t.spec_len(),
        in_subtree(t, root, n),
    ensures
        root <= n,
    decreases n,
{
    assert(t.wf_entry(n));
    if n != root {
        lemma_in_subtree_ge(t, root, t.spec_parent(n)->0);
    }
}

/// The climb stays within the subtree: starting below (or at) `root`, the
/// sibling it finds lies in the subtree too, and is never `root` itself.
proof fn lemma_climb_in_subtree(t: &Tree, root: usize, c: usize)
    requires
        t.wf(),
        c < t.spec_len(),
        in_subtree(t, root, c),
        spec_climb(t, root, c) is Some,
    ensures
        ({
            let m = spec_climb(t, root, c)->0;
            &&& m < t.spec_len()
            &&& m != root
            &&& in_subtree(t, root, m)
        }),
    decreases c,
{
    assert(t.wf_entry(c));
    let p = t.spec_parent(c)->0;
    match t.spec_next_sibling(c) {
        Some(m) => {
            assert(t.wf_entry(m));
            assert(in_subtree(t, root, p));
            lemma_in_subtree_ge(t, root, p);
        },
        None => {
            assert(t.wf_entry(p));
            lemma_climb_in_subtree(t, root, p);
        },
    }
}

/// A forward step stays within the subtree rooted at `root`: the boundary
/// at `root` is inclusive and the traversal never leaves it.
pub proof fn lemma_following_in_subtree(t: &Tree, root: usize, x: usize)
    requires
        t.wf(),
        x < t.spec_len(),
        in_subtree(t, root, x),
        spec_following(t, root, x) is Some,
    ensures
        ({
            let m = spec_following(t, root, x)->0;
            &&& m < t.spec_len()
            &&& in_subtree(t, root, m)
        }),
{
    assert(t.wf_entry(x));
    match t.spec_first_child(x) {
        Some(m) => {
            assert(t.wf_entry(m));
        },
        None => {
            lemma_climb_in_subtree(t, root, x);
        },
    }
}

/// The deepest last descendant of a subtree node is a subtree node.
proof fn lemma_descend_in_subtree(t: &Tree, root: usize, s: usize)
    requires
        t.wf(),
        s < t.spec_len(),
        in_subtree(t, root, s),
    ensures
        ({
            let m = spec_descend_last(t, s);
            &&& m < t.spec_len()
            &&& in_subtree(t, root, m)
        }),
    decreases t.spec_len() - s,
{
    assert(t.wf_entry(s));
    match t.spec_last_child(s) {
        None => {},
        Some(l) => {
            assert(t.wf_entry(l));
            lemma_descend_in_subtree(t, root, l);
        },
    }
}

/// A backward step stays within the subtree rooted at `root`.
pub proof fn lemma_preceding_in_subtree(t: &Tree, root: usize, x: usize)
    requires
        t.wf(),
        x < t.spec_len(),
        in_subtree(t, root, x),
        spec_preceding(t, root, x) is Some,
    ensures
        ({
            let m = spec_preceding(t, root, x)->0;
            &&& m < t.spec_len()
            &&& in_subtree(t, root, m)
        }),
{
    assert(t.wf_entry(x));
    let p = t.spec_parent(x)->0;
    match t.spec_prev_sibling(x) {
        Some(s) => {
            assert(t.wf_entry(s));
            assert(in_subtree(t, root, p));
            lemma_descend_in_subtree(t, root, s);
        },
        None => {},
    }
}

/// The sibling a climb finds is preceded by the deepest last descendant of
/// the node the climb started from.
proof fn lemma_climb_preceding(t: &Tree, root: usize, c: usize)
    requires
        t.wf(),
        c < t.spec_len(),
        in_subtree(t, root, c),
        spec_climb(t, root, c) is Some,
    ensures
        ({
            let m = spec_climb(t, root, c)->0;
            &&& m < t.spec_len()
            &&& m != root
            &&& spec_preceding(t, root, m) == Some(spec_descend_last(t, c))
        }),
    decreases c,
{
    assert(t.wf_entry(c));
    lemma_climb_in_subtree(t, root, c);
    match t.spec_next_sibling(c) {
        Some(m) => {
            assert(t.wf_entry(m));
        },
        None => {
            let p = t.spec_parent(c)->0;
            assert(t.wf_entry(p));
            lemma_climb_preceding(t, root, p);
            assert(spec_descend_last(t, p) == spec_descend_last(t, c));
        },
    }
}

/// Within the subtree the traversal is bounded to, a backward step undoes a
/// forward step: when `following` answers `m`, `preceding` from `m` answers
/// the node it followed from.
pub proof fn lemma_following_preceding_inverse(t: &Tree, root: usize, x: usize)
    requires
        t.wf(),
        x < t.spec_len(),
        in_subtree(t, root, x),
        spec_following(t, root, x) is Some,
    ensures
        ({
            let m = spec_following(t, root, x)->0;
            &&& m < t.spec_len()
            &&& m != root
            &&& spec_preceding(t, root, m) == Some(x)
        }),
{
    assert(t.wf_entry(x));
    match t.spec_first_child(x) {
        Some(m) => {
            assert(t.wf_entry(m));
            lemma_in_subtree_ge(t, root, x);
        },
        None => {
            lemma_climb_preceding(t, root, x);
            assert(spec_descend_last(t, x) == x);
        },
    }
}

/// A backward step strictly shrinks the pre-order rank: preceding a node in
/// document order moves exactly one node closer to the root.
pub proof fn lemma_preceding_rank(t: &Tree, root: usize, node: usize)
    requires
        t.wf(),
        node < t.spec_len(),
        spec_preceding(t, root, node) is Some,
    ensures
        ({
            let m = spec_preceding(t, root, node)->0;
            &&& m < t.spec_len()
            &&& preorder_rank(t, m) < preorder_rank(t, node)
        }),
{
    assert(t.wf_entry(node));
    match t.spec_prev_sibling(node) {
        Some(s) => {
            assert(t.wf_entry(s));
            lemma_descend_rank(t, s);
        },
        None => {},
    }
}

} // verus!
