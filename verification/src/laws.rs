//! The laws of the traversal engine, proved of the model that
//! [`crate::iterator::NodeIterator::next_node`] and
//! [`crate::iterator::NodeIterator::prev_node`] are verified against:
//! the traversal outcome from a position is unique, stepping backward from
//! "before the root" finds nothing, an exhausted traversal stays exhausted,
//! a node whose kind the type-mask does not admit is never returned and its
//! filter entry is never consulted, every returned node lies in the subtree
//! the cursor is bounded to (the root is an inclusive boundary), and a
//! successful step forward is undone by a step backward.

use vstd::prelude::*;

use crate::filter::Filter;
use crate::filter::FilterError;
use crate::filter::Verdict;
use crate::filter::mask_admits;
use crate::filter::spec_classify;
use crate::iterator::Direction;
use crate::iterator::determined;
use crate::iterator::spec_step;
use crate::iterator::traverse_rec;
use crate::iterator::traverse_post;
use crate::iterator::NodeIterator;
use crate::order::in_subtree;
use crate::order::lemma_following_in_subtree;
use crate::order::lemma_following_preceding_inverse;
use crate::order::lemma_preceding_in_subtree;
use crate::order::spec_following;
use crate::order::spec_preceding;
use crate::tree::Tree;

verus! {

/// Once enough fuel settles the traversal model, more fuel does not change
/// the outcome.
proof fn lemma_traverse_rec_monotone(
    t: &Tree,
    root: usize,
    mask: u32,
    f: Filter,
    dir: Direction,
    node: usize,
    before: bool,
    k1: nat,
    k2: nat,
)
    requires
        traverse_rec(t, root, mask, f, dir, node, before, k1) is Some,
        k1 <= k2,
    ensures
        traverse_rec(t, root, mask, f, dir, node, before, k2) == traverse_rec(
            t,
            root,
            mask,
            f,
            dir,
            node,
            before,
            k1,
        ),
    decreases k1,
{
    if k1 == 0 {
    } else {
        match spec_step(t, root, dir, node, before) {
            None => {},
            Some(step) => {
                match spec_classify(t, mask, f, step.0) {
                    Err(_) => {},
                    Ok(Verdict::Accept) => {},
                    Ok(_) => {
                        lemma_traverse_rec_monotone(
                            t,
                            root,
                            mask,
                            f,
                            dir,
                            step.0,
                            step.1,
                            (k1 - 1) as nat,
                            (k2 - 1) as nat,
                        );
                    },
                }
            },
        }
    }
}

/// The traversal outcome from one position is unique: the model determines
/// at most one outcome, so two calls from the same cursor state agree.
pub proof fn lemma_traverse_deterministic(
    t: &Tree,
    root: usize,
    mask: u32,
    f: Filter,
    dir: Direction,
    node: usize,
    before: bool,
    o1: Result<Option<(usize, bool)>, FilterError>,
    o2: Result<Option<(usize, bool)>, FilterError>,
)
    requires
        determined(t, root, mask, f, dir, node, before, o1),
        determined(t, root, mask, f, dir, node, before, o2),
    ensures
        o1 == o2,
{
    let k1 = choose|k: nat| traverse_rec(t, root, mask, f, dir, node, before, k) == Some(o1);
    let k2 = choose|k: nat| traverse_rec(t, root, mask, f, dir, node, before, k) == Some(o2);
    if k1 <= k2 {
        lemma_traverse_rec_monotone(t, root, mask, f, dir, node, before, k1, k2);
    } else {
        lemma_traverse_rec_monotone(t, root, mask, f, dir, node, before, k2, k1);
    }
}

/// Boundary law: from a cursor positioned before the root, a backward step
/// finds nothing, for every tree shape, mask and filter. Together with the
/// step contract (an `Ok(None)` outcome leaves the cursor exactly as it
/// was), `prev_node` from that position returns `Ok(None)` and changes
/// nothing.
pub proof fn lemma_previous_at_root_boundary(t: &Tree, root: usize, mask: u32, f: Filter)
    ensures
        determined(t, root, mask, f, Direction::Previous, root, true, Ok::<Option<(usize, bool)>, FilterError>(None)),
{
    assert(spec_preceding(t, root, root) is None);
    assert(traverse_rec(t, root, mask, f, Direction::Previous, root, true, 1nat) == Some(
        Ok::<Option<(usize, bool)>, FilterError>(None),
    ));
}

/// Exhaustion is idempotent: a traversal step that reported no node left
/// leaves the cursor unchanged (by the step contract), and from that same
/// position the only outcome the model determines is again "no node left" —
/// repeated calls return `Ok(None)` forever with no drift.
pub proof fn lemma_exhaustion_idempotent(
    t: &Tree,
    root: usize,
    mask: u32,
    f: Filter,
    dir: Direction,
    node: usize,
    before: bool,
    o: Result<Option<(usize, bool)>, FilterError>,
)
    requires
        determined(t, root, mask, f, dir, node, before, Ok::<Option<(usize, bool)>, FilterError>(None)),
        determined(t, root, mask, f, dir, node, before, o),
    ensures
        o == Ok::<Option<(usize, bool)>, FilterError>(None),
{
    lemma_traverse_deterministic(t, root, mask, f, dir, node, before, Ok::<Option<(usize, bool)>, FilterError>(None), o);
}

/// Every node a settled traversal returns was accepted by classification,
/// and the before/after flag it settles on is fixed by the direction.
proof fn lemma_rec_accepts(
    t: &Tree,
    root: usize,
    mask: u32,
    f: Filter,
    dir: Direction,
    node: usize,
    before: bool,
    fuel: nat,
    v: usize,
    b: bool,
)
    requires
        traverse_rec(t, root, mask, f, dir, node, before, fuel) == Some(
            Ok::<Option<(usize, bool)>, FilterError>(Some((v, b))),
        ),
    ensures
        spec_classify(t, mask, f, v) == Ok::<Verdict, FilterError>(Verdict::Accept),
        b == (dir is Previous),
    decreases fuel,
{
    let step = spec_step(t, root, dir, node, before)->0;
    match spec_classify(t, mask, f, step.0) {
        Err(_) => {},
        Ok(Verdict::Accept) => {},
        Ok(_) => {
            lemma_rec_accepts(t, root, mask, f, dir, step.0, step.1, (fuel - 1) as nat, v, b);
        },
    }
}

/// Mask law: a node whose kind's bit is clear in the type-mask is never the
/// node a traversal step returns, whatever the filter and the direction.
pub proof fn lemma_mask_correctness(
    t: &Tree,
    root: usize,
    mask: u32,
    f: Filter,
    dir: Direction,
    node: usize,
    before: bool,
    v: usize,
    b: bool,
)
    requires
        determined(t, root, mask, f, dir, node, before, Ok::<Option<(usize, bool)>, FilterError>(Some((v, b)))),
    ensures
        mask_admits(mask, t.spec_kind(v)),
        spec_classify(t, mask, f, v) == Ok::<Verdict, FilterError>(Verdict::Accept),
{
    let fuel = choose|k: nat|
        traverse_rec(t, root, mask, f, dir, node, before, k) == Some(
            Ok::<Option<(usize, bool)>, FilterError>(Some((v, b))),
        );
    lemma_rec_accepts(t, root, mask, f, dir, node, before, fuel, v, b);
}

/// Short-circuit law: for a node whose kind's bit is clear in the type-mask,
/// classification answers `Skip` without consulting the installed filter —
/// the answer is the same for every filter, so a filter's entry for such a
/// node (even a failing one) is never reached.
pub proof fn lemma_filter_short_circuit(t: &Tree, mask: u32, f: Filter, g: Filter, node: usize)
    requires
        !mask_admits(mask, t.spec_kind(node)),
    ensures
        spec_classify(t, mask, f, node) == Ok::<Verdict, FilterError>(Verdict::Skip),
        spec_classify(t, mask, f, node) == spec_classify(t, mask, g, node),
{
}

/// A cursor sitting just after an accepted node steps backward onto that
/// same node, and just before it steps forward onto it: the one-step answer
/// of the model on either side of an accepted node.
pub proof fn lemma_step_over_accepted(t: &Tree, root: usize, mask: u32, f: Filter, v: usize)
    requires
        spec_classify(t, mask, f, v) == Ok::<Verdict, FilterError>(Verdict::Accept),
    ensures
        determined(t, root, mask, f, Direction::Previous, v, false, Ok::<Option<(usize, bool)>, FilterError>(Some((v, true)))),
        determined(t, root, mask, f, Direction::Next, v, true, Ok::<Option<(usize, bool)>, FilterError>(Some((v, false)))),
{
    assert(traverse_rec(t, root, mask, f, Direction::Previous, v, false, 1nat) == Some(
        Ok::<Option<(usize, bool)>, FilterError>(Some((v, true))),
    ));
    assert(traverse_rec(t, root, mask, f, Direction::Next, v, true, 1nat) == Some(
        Ok::<Option<(usize, bool)>, FilterError>(Some((v, false))),
    ));
}

/// Symmetry law, forward then backward: when a forward step succeeds on `v`
/// (the cursor is then just after `v`), the next backward step succeeds on
/// the same `v` (restoring the cursor to just before `v`), and a forward
/// step from there returns `v` again — stepping back undoes stepping
/// forward, node for node.
pub proof fn lemma_forward_backward_roundtrip(
    t: &Tree,
    root: usize,
    mask: u32,
    f: Filter,
    node: usize,
    before: bool,
    v: usize,
    b: bool,
)
    requires
        determined(t, root, mask, f, Direction::Next, node, before, Ok::<Option<(usize, bool)>, FilterError>(Some((v, b)))),
    ensures
        b == false,
        determined(t, root, mask, f, Direction::Previous, v, false, Ok::<Option<(usize, bool)>, FilterError>(Some((v, true)))),
        determined(t, root, mask, f, Direction::Next, v, true, Ok::<Option<(usize, bool)>, FilterError>(Some((v, false)))),
{
    let fuel = choose|k: nat|
        traverse_rec(t, root, mask, f, Direction::Next, node, before, k) == Some(
            Ok::<Option<(usize, bool)>, FilterError>(Some((v, b))),
        );
    lemma_rec_accepts(t, root, mask, f, Direction::Next, node, before, fuel, v, b);
    lemma_step_over_accepted(t, root, mask, f, v);
}

/// Symmetry law, backward then forward: when a backward step succeeds on
/// `v` (the cursor is then just before `v`), the next forward step succeeds
/// on the same `v`, and a backward step from there returns `v` again.
pub proof fn lemma_backward_forward_roundtrip(
    t: &Tree,
    root: usize,
    mask: u32,
    f: Filter,
    node: usize,
    before: bool,
    v: usize,
    b: bool,
)
    requires
        determined(t, root, mask, f, Direction::Previous, node, before, Ok::<Option<(usize, bool)>, FilterError>(Some((v, b)))),
    ensures
        b == true,
        determined(t, root, mask, f, Direction::Next, v, true, Ok::<Option<(usize, bool)>, FilterError>(Some((v, false)))),
        determined(t, root, mask, f, Direction::Previous, v, false, Ok::<Option<(usize, bool)>, FilterError>(Some((v, true)))),
{
    let fuel = choose|k: nat|
        traverse_rec(t, root, mask, f, Direction::Previous, node, before, k) == Some(
            Ok::<Option<(usize, bool)>, FilterError>(Some((v, b))),
        );
    lemma_rec_accepts(t, root, mask, f, Direction::Previous, node, before, fuel, v, b);
    lemma_step_over_accepted(t, root, mask, f, v);
}

/// Stepping backward from just after a node behaves exactly as stepping
/// backward from just before its document-order successor: the first
/// candidate either way is that node itself.
proof fn lemma_prev_shift(
    t: &Tree,
    root: usize,
    mask: u32,
    f: Filter,
    c: usize,
    x: usize,
    o: Result<Option<(usize, bool)>, FilterError>,
)
    requires
        spec_preceding(t, root, c) == Some(x),
        determined(t, root, mask, f, Direction::Previous, x, false, o),
    ensures
        determined(t, root, mask, f, Direction::Previous, c, true, o),
{
    let j = choose|j: nat|
        traverse_rec(t, root, mask, f, Direction::Previous, x, false, j) == Some(o);
    assert(j >= 1);
    match spec_classify(t, mask, f, x) {
        Err(_) => {},
        Ok(Verdict::Accept) => {},
        Ok(_) => {
            lemma_traverse_rec_monotone(
                t,
                root,
                mask,
                f,
                Direction::Previous,
                x,
                true,
                (j - 1) as nat,
                j,
            );
        },
    }
    assert(traverse_rec(t, root, mask, f, Direction::Previous, c, true, j + 1) == Some(o));
}

/// When a forward traversal from just after `x` settles on `v`, a backward
/// traversal from just before `v` walks back over the same skipped
/// candidates, classifies `x`, and then goes on exactly as a backward
/// traversal from just after `x` would: the two settle on the same outcome.
proof fn lemma_back(
    t: &Tree,
    root: usize,
    mask: u32,
    f: Filter,
    x: usize,
    v: usize,
    k: nat,
    o: Result<Option<(usize, bool)>, FilterError>,
)
    requires
        t.wf(),
        x < t.spec_len(),
        in_subtree(t, root, x),
        traverse_rec(t, root, mask, f, Direction::Next, x, false, k) == Some(
            Ok::<Option<(usize, bool)>, FilterError>(Some((v, false))),
        ),
        determined(t, root, mask, f, Direction::Previous, x, false, o),
    ensures
        determined(t, root, mask, f, Direction::Previous, v, true, o),
    decreases k,
{
    let c = spec_following(t, root, x)->0;
    lemma_following_preceding_inverse(t, root, x);
    lemma_following_in_subtree(t, root, x);
    match spec_classify(t, mask, f, c) {
        Err(_) => {},
        Ok(Verdict::Accept) => {
            assert(c == v);
            lemma_prev_shift(t, root, mask, f, v, x, o);
        },
        Ok(_) => {
            lemma_prev_shift(t, root, mask, f, c, x, o);
            let j = choose|j: nat|
                traverse_rec(t, root, mask, f, Direction::Previous, c, true, j) == Some(o);
            assert(traverse_rec(t, root, mask, f, Direction::Previous, c, false, j + 1) == Some(
                o,
            ));
            assert(determined(t, root, mask, f, Direction::Previous, c, false, o));
            assert(t.wf_entry(x));
            lemma_back(t, root, mask, f, c, v, (k - 1) as nat, o);
        },
    }
}

/// Symmetry law, the full reversal step: when a forward step from just
/// after the accepted subtree node `u` settles on `v`, then from just after
/// `v` the first backward step returns `v` itself (see
/// [`lemma_forward_backward_roundtrip`]) and the second backward step
/// returns `u`: walking backward revisits the accepted nodes of a forward
/// walk in reverse order, node for node.
pub proof fn lemma_backward_revisits_previous_node(
    t: &Tree,
    root: usize,
    mask: u32,
    f: Filter,
    u: usize,
    v: usize,
)
    requires
        t.wf(),
        u < t.spec_len(),
        in_subtree(t, root, u),
        spec_classify(t, mask, f, u) == Ok::<Verdict, FilterError>(Verdict::Accept),
        determined(
            t,
            root,
            mask,
            f,
            Direction::Next,
            u,
            false,
            Ok::<Option<(usize, bool)>, FilterError>(Some((v, false))),
        ),
    ensures
        determined(
            t,
            root,
            mask,
            f,
            Direction::Previous,
            v,
            true,
            Ok::<Option<(usize, bool)>, FilterError>(Some((u, true))),
        ),
{
    let k = choose|k: nat|
        traverse_rec(t, root, mask, f, Direction::Next, u, false, k) == Some(
            Ok::<Option<(usize, bool)>, FilterError>(Some((v, false))),
        );
    assert(traverse_rec(t, root, mask, f, Direction::Previous, u, false, 1nat) == Some(
        Ok::<Option<(usize, bool)>, FilterError>(Some((u, true))),
    ));
    lemma_back(
        t,
        root,
        mask,
        f,
        u,
        v,
        k,
        Ok::<Option<(usize, bool)>, FilterError>(Some((u, true))),
    );
}

/// Boundary law over the step contract: a backward step taken by a cursor
/// that sits before its root returns `Ok(None)` and leaves the cursor
/// exactly as it was, for every tree shape, mask and filter.
pub proof fn lemma_prev_node_at_start_boundary(
    t: &Tree,
    pre: NodeIterator,
    post: NodeIterator,
    r: Result<Option<usize>, FilterError>,
)
    requires
        traverse_post(t, pre, post, Direction::Previous, r),
        pre.reference_node == pre.root_node,
        pre.pointer_before_reference_node,
    ensures
        r == Ok::<Option<usize>, FilterError>(None),
        post == pre,
{
    lemma_previous_at_root_boundary(t, pre.root_node, pre.what_to_show, pre.filter);
    match r {
        Err(e) => {
            lemma_traverse_deterministic(
                t,
                pre.root_node,
                pre.what_to_show,
                pre.filter,
                Direction::Previous,
                pre.reference_node,
                pre.pointer_before_reference_node,
                Err(e),
                Ok(None),
            );
        },
        Ok(None) => {},
        Ok(Some(v)) => {
            lemma_traverse_deterministic(
                t,
                pre.root_node,
                pre.what_to_show,
                pre.filter,
                Direction::Previous,
                pre.reference_node,
                pre.pointer_before_reference_node,
                Ok(Some((v, post.pointer_before_reference_node))),
                Ok(None),
            );
        },
    }
}

/// Exhaustion law over the step contract: after a step in some direction
/// returned `Ok(None)`, a second step in the same direction returns
/// `Ok(None)` again and the cursor never drifts.
pub proof fn lemma_exhausted_step_repeats(
    t: &Tree,
    pre: NodeIterator,
    mid: NodeIterator,
    post: NodeIterator,
    dir: Direction,
    r2: Result<Option<usize>, FilterError>,
)
    requires
        traverse_post(t, pre, mid, dir, Ok::<Option<usize>, FilterError>(None)),
        traverse_post(t, mid, post, dir, r2),
    ensures
        r2 == Ok::<Option<usize>, FilterError>(None),
        mid == pre,
        post == pre,
{
    match r2 {
        Err(e) => {
            lemma_exhaustion_idempotent(
                t,
                pre.root_node,
                pre.what_to_show,
                pre.filter,
                dir,
                pre.reference_node,
                pre.pointer_before_reference_node,
                Err(e),
            );
        },
        Ok(None) => {},
        Ok(Some(v)) => {
            lemma_exhaustion_idempotent(
                t,
                pre.root_node,
                pre.what_to_show,
                pre.filter,
                dir,
                pre.reference_node,
                pre.pointer_before_reference_node,
                Ok(Some((v, post.pointer_before_reference_node))),
            );
        },
    }
}

/// Mask law over the step contract: every node a step returns has its
/// kind's bit set in the cursor's type-mask, whatever the filter.
pub proof fn lemma_returned_node_is_mask_admitted(
    t: &Tree,
    pre: NodeIterator,
    post: NodeIterator,
    dir: Direction,
    v: usize,
)
    requires
        traverse_post(t, pre, post, dir, Ok::<Option<usize>, FilterError>(Some(v))),
    ensures
        mask_admits(pre.what_to_show, t.spec_kind(v)),
{
    lemma_mask_correctness(
        t,
        pre.root_node,
        pre.what_to_show,
        pre.filter,
        dir,
        pre.reference_node,
        pre.pointer_before_reference_node,
        v,
        post.pointer_before_reference_node,
    );
}

/// Symmetry law over the step contracts, first half: a backward step taken
/// right after a forward step returned `v` returns the same `v`, restoring
/// the cursor to just before it.
pub proof fn lemma_next_then_prev_revisits(
    t: &Tree,
    pre: NodeIterator,
    mid: NodeIterator,
    post: NodeIterator,
    v: usize,
    r2: Result<Option<usize>, FilterError>,
)
    requires
        traverse_post(t, pre, mid, Direction::Next, Ok::<Option<usize>, FilterError>(Some(v))),
        traverse_post(t, mid, post, Direction::Previous, r2),
    ensures
        r2 == Ok::<Option<usize>, FilterError>(Some(v)),
        post.reference_node == v,
        post.pointer_before_reference_node,
{
    lemma_forward_backward_roundtrip(
        t,
        pre.root_node,
        pre.what_to_show,
        pre.filter,
        pre.reference_node,
        pre.pointer_before_reference_node,
        v,
        mid.pointer_before_reference_node,
    );
    match r2 {
        Err(e) => {
            lemma_traverse_deterministic(
                t,
                pre.root_node,
                pre.what_to_show,
                pre.filter,
                Direction::Previous,
                v,
                false,
                Err(e),
                Ok(Some((v, true))),
            );
        },
        Ok(None) => {
            lemma_traverse_deterministic(
                t,
                pre.root_node,
                pre.what_to_show,
                pre.filter,
                Direction::Previous,
                v,
                false,
                Ok(None),
                Ok(Some((v, true))),
            );
        },
        Ok(Some(w)) => {
            lemma_traverse_deterministic(
                t,
                pre.root_node,
                pre.what_to_show,
                pre.filter,
                Direction::Previous,
                v,
                false,
                Ok(Some((w, post.pointer_before_reference_node))),
                Ok(Some((v, true))),
            );
        },
    }
}

/// Symmetry law over the step contracts, full reversal: for a cursor whose
/// reference node lies in its root's subtree, after two forward steps
/// returned `u` and then `v`, two backward steps return `v` and then `u` —
/// walking backward revisits a forward walk's nodes in reverse order.
pub proof fn lemma_backward_walk_reverses_forward_walk(
    t: &Tree,
    s0: NodeIterator,
    s1: NodeIterator,
    s2: NodeIterator,
    s3: NodeIterator,
    s4: NodeIterator,
    u: usize,
    v: usize,
    r3: Result<Option<usize>, FilterError>,
    r4: Result<Option<usize>, FilterError>,
)
    requires
        t.wf(),
        s0.reference_node < t.spec_len(),
        in_subtree(t, s0.root_node, s0.reference_node),
        traverse_post(t, s0, s1, Direction::Next, Ok::<Option<usize>, FilterError>(Some(u))),
        traverse_post(t, s1, s2, Direction::Next, Ok::<Option<usize>, FilterError>(Some(v))),
        traverse_post(t, s2, s3, Direction::Previous, r3),
        traverse_post(t, s3, s4, Direction::Previous, r4),
    ensures
        r3 == Ok::<Option<usize>, FilterError>(Some(v)),
        r4 == Ok::<Option<usize>, FilterError>(Some(u)),
{
    lemma_next_then_prev_revisits(t, s1, s2, s3, v, r3);
    lemma_step_stays_in_subtree(t, s0, s1, Direction::Next, u);
    lemma_mask_correctness(
        t,
        s0.root_node,
        s0.what_to_show,
        s0.filter,
        Direction::Next,
        s0.reference_node,
        s0.pointer_before_reference_node,
        u,
        s1.pointer_before_reference_node,
    );
    lemma_backward_revisits_previous_node(
        t,
        s0.root_node,
        s0.what_to_show,
        s0.filter,
        u,
        v,
    );
    match r4 {
        Err(e) => {
            lemma_traverse_deterministic(
                t,
                s0.root_node,
                s0.what_to_show,
                s0.filter,
                Direction::Previous,
                v,
                true,
                Err(e),
                Ok(Some((u, true))),
            );
        },
        Ok(None) => {
            lemma_traverse_deterministic(
                t,
                s0.root_node,
                s0.what_to_show,
                s0.filter,
                Direction::Previous,
                v,
                true,
                Ok(None),
                Ok(Some((u, true))),
            );
        },
        Ok(Some(w)) => {
            lemma_traverse_deterministic(
                t,
                s0.root_node,
                s0.what_to_show,
                s0.filter,
                Direction::Previous,
                v,
                true,
                Ok(Some((w, s4.pointer_before_reference_node))),
                Ok(Some((u, true))),
            );
        },
    }
}

/// Every candidate a traversal visits, and so every node it settles on,
/// lies in the subtree of the traversal root once the starting node does:
/// each step moves by `following` or `preceding`, and both stay inside.
proof fn lemma_rec_in_subtree(
    t: &Tree,
    root: usize,
    mask: u32,
    f: Filter,
    dir: Direction,
    node: usize,
    before: bool,
    fuel: nat,
    v: usize,
    b: bool,
)
    requires
        t.wf(),
        node < t.spec_len(),
        in_subtree(t, root, node),
        traverse_rec(t, root, mask, f, dir, node, before, fuel) == Some(
            Ok::<Option<(usize, bool)>, FilterError>(Some((v, b))),
        ),
    ensures
        v < t.spec_len(),
        in_subtree(t, root, v),
    decreases fuel,
{
    let step = spec_step(t, root, dir, node, before)->0;
    match dir {
        Direction::Next => {
            if !before {
                lemma_following_in_subtree(t, root, node);
            }
        },
        Direction::Previous => {
            if before {
                lemma_preceding_in_subtree(t, root, node);
            }
        },
    }
    match spec_classify(t, mask, f, step.0) {
        Err(_) => {},
        Ok(Verdict::Accept) => {},
        Ok(_) => {
            lemma_rec_in_subtree(t, root, mask, f, dir, step.0, step.1, (fuel - 1) as nat, v, b);
        },
    }
}

/// Boundary law over the step contract: the root is an inclusive boundary —
/// once the cursor's reference node lies in the subtree rooted at the
/// cursor's root, every node a step returns (and so the new reference node)
/// lies in that subtree too; the traversal never leaves it.
pub proof fn lemma_step_stays_in_subtree(
    t: &Tree,
    pre: NodeIterator,
    post: NodeIterator,
    dir: Direction,
    v: usize,
)
    requires
        t.wf(),
        pre.reference_node < t.spec_len(),
        in_subtree(t, pre.root_node, pre.reference_node),
        traverse_post(t, pre, post, dir, Ok::<Option<usize>, FilterError>(Some(v))),
    ensures
        in_subtree(t, pre.root_node, v),
        in_subtree(t, post.root_node, post.reference_node),
{
    let fuel = choose|k: nat|
        traverse_rec(
            t,
            pre.root_node,
            pre.what_to_show,
            pre.filter,
            dir,
            pre.reference_node,
            pre.pointer_before_reference_node,
            k,
        ) == Some(
            Ok::<Option<(usize, bool)>, FilterError>(Some((v, post.pointer_before_reference_node))),
        );
    lemma_rec_in_subtree(
        t,
        pre.root_node,
        pre.what_to_show,
        pre.filter,
        dir,
        pre.reference_node,
        pre.pointer_before_reference_node,
        fuel,
        v,
        post.pointer_before_reference_node,
    );
}

} // verus!
