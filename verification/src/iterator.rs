//! The traversal cursor: walks forward and backward through the subtree
//! rooted at a fixed node, skipping nodes the filter does not accept, while
//! keeping a stable cursor (reference node plus before/after flag).
//!
//! The stepping algorithm is specified by the recursive model
//! [`traverse_rec`]: from a cursor position it takes one candidate step in
//! the given direction, classifies the candidate, and either stops (boundary
//! reached, filter failed, or candidate accepted) or goes on from the
//! candidate. The model is graded by fuel; [`determined`] says that some
//! fuel suffices, and the outcome is then unique
//! ([`crate::laws::lemma_traverse_deterministic`]). The executable
//! [`NodeIterator::next_node`] and [`NodeIterator::prev_node`] are proved to
//! return exactly the determined outcome, and to update the reference node
//! and the before/after flag together on success and not at all otherwise.

use vstd::prelude::*;

use crate::filter::Filter;
use crate::filter::FilterError;
use crate::filter::Verdict;
use crate::filter::spec_classify;
use crate::order::lemma_following_measure;
use crate::order::lemma_preceding_rank;
use crate::order::forward_measure;
use crate::order::preorder_rank;
use crate::order::spec_climb;
use crate::order::spec_descend_last;
use crate::order::spec_following;
use crate::order::spec_preceding;
use crate::tree::Tree;

verus! {

/// The direction of one traversal step.
#[derive(Clone, Copy)]
pub enum Direction {
    Next,
    Previous,
}

/// One candidate step from position (`node`, `before`): stepping `Next`
/// consumes the "before" flag or moves to the following node; stepping
/// `Previous` restores the "before" flag or moves to the preceding node.
/// `None` means the boundary in that direction was reached.
pub open spec fn spec_step(
    t: &Tree,
    root: usize,
    dir: Direction,
    node: usize,
    before: bool,
) -> Option<(usize, bool)> {
    match dir {
        Direction::Next => if before {
            Some((node, false))
        } else {
            match spec_following(t, root, node) {
                Some(n) => Some((n, false)),
                None => None,
            }
        },
        Direction::Previous => if !before {
            Some((node, true))
        } else {
            match spec_preceding(t, root, node) {
                Some(n) => Some((n, true)),
                None => None,
            }
        },
    }
}

/// The traversal model, graded by fuel: `None` when `fuel` iterations do not
/// settle the outcome, otherwise `Some` of the outcome — the filter's error,
/// no node left in that direction (`Ok(None)`), or the accepted node together
/// with the new before/after flag.
pub open spec fn traverse_rec(
    t: &Tree,
    root: usize,
    mask: u32,
    f: Filter,
    dir: Direction,
    node: usize,
    before: bool,
    fuel: nat,
) -> Option<Result<Option<(usize, bool)>, FilterError>>
    decreases fuel,
{
    if fuel == 0 {
        None
    } else {
        match spec_step(t, root, dir, node, before) {
            None => Some(Ok(None)),
            Some(step) => match spec_classify(t, mask, f, step.0) {
                Err(e) => Some(Err(e)),
                Ok(Verdict::Accept) => Some(Ok(Some(step))),
                Ok(_) => traverse_rec(t, root, mask, f, dir, step.0, step.1, (fuel - 1) as nat),
            },
        }
    }
}

/// Some fuel settles the traversal from (`node`, `before`) in direction
/// `dir` on outcome `o`. The outcome is unique: see
/// [`crate::laws::lemma_traverse_deterministic`].
pub open spec fn determined(
    t: &Tree,
    root: usize,
    mask: u32,
    f: Filter,
    dir: Direction,
    node: usize,
    before: bool,
    o: Result<Option<(usize, bool)>, FilterError>,
) -> bool {
    exists|fuel: nat| traverse_rec(t, root, mask, f, dir, node, before, fuel) == Some(o)
}

/// A traversal cursor over a tree it does not own: the fixed root the
/// traversal is bounded to, the reference node with its before/after flag,
/// the type-mask, and the installed filter. Only a traversal step mutates
/// the cursor, and it updates the reference node and the flag together.
pub struct NodeIterator {
    pub root_node: usize,
    pub reference_node: usize,
    pub pointer_before_reference_node: bool,
    pub what_to_show: u32,
    pub filter: Filter,
}

/// What a traversal step in direction `dir` ensures, relating the cursor
/// before the call (`pre`), after it (`post`), and the step's outcome `r`:
/// root, mask and filter never change; on an error or on `Ok(None)` the
/// cursor is exactly as it was; on `Ok(Some(v))` the cursor moved to `v`;
/// and in every case `r` is the outcome the model [`traverse_rec`]
/// determines from the starting position.
pub open spec fn traverse_post(
    t: &Tree,
    pre: NodeIterator,
    post: NodeIterator,
    dir: Direction,
    r: Result<Option<usize>, FilterError>,
) -> bool {
    &&& post.root_node == pre.root_node
    &&& post.what_to_show == pre.what_to_show
    &&& post.filter == pre.filter
    &&& post.wf(t)
    &&& match r {
        Err(e) => post == pre && determined(
            t,
            pre.root_node,
            pre.what_to_show,
            pre.filter,
            dir,
            pre.reference_node,
            pre.pointer_before_reference_node,
            Err(e),
        ),
        Ok(None) => post == pre && determined(
            t,
            pre.root_node,
            pre.what_to_show,
            pre.filter,
            dir,
            pre.reference_node,
            pre.pointer_before_reference_node,
            Ok(None),
        ),
        Ok(Some(v)) => {
            &&& v < t.spec_len()
            &&& post.reference_node == v
            &&& post.pointer_before_reference_node == (dir is Previous)
            &&& determined(
                t,
                pre.root_node,
                pre.what_to_show,
                pre.filter,
                dir,
                pre.reference_node,
                pre.pointer_before_reference_node,
                Ok(Some((v, post.pointer_before_reference_node))),
            )
        },
    }
}

impl NodeIterator {
    /// The cursor's handles point into the tree.
    pub open spec fn wf(&self, t: &Tree) -> bool {
        &&& self.root_node < t.spec_len()
        &&& self.reference_node < t.spec_len()
    }

    /// A new cursor bounded to `root_node`, positioned before it.
    pub fn new_inherited(root_node: usize, what_to_show: u32, filter: Filter) -> (it:
        NodeIterator)
        ensures
            it.root_node == root_node,
            it.reference_node == root_node,
            it.pointer_before_reference_node,
            it.what_to_show == what_to_show,
            it.filter == filter,
    {
        NodeIterator {
            root_node,
            reference_node: root_node,
            pointer_before_reference_node: true,
            what_to_show,
            filter,
        }
    }

    /// A new cursor with an already-built filter.
    pub fn new_with_filter(root_node: usize, what_to_show: u32, filter: Filter) -> (it:
        NodeIterator)
        ensures
            it.root_node == root_node,
            it.reference_node == root_node,
            it.pointer_before_reference_node,
            it.what_to_show == what_to_show,
            it.filter == filter,
    {
        NodeIterator::new_inherited(root_node, what_to_show, filter)
    }

    /// A new cursor with an optional external callback filter: no callback
    /// means no filter installed.
    pub fn new(
        root_node: usize,
        what_to_show: u32,
        node_filter: Option<Vec<Result<Verdict, FilterError>>>,
    ) -> (it: NodeIterator)
        ensures
            it.root_node == root_node,
            it.reference_node == root_node,
            it.pointer_before_reference_node,
            it.what_to_show == what_to_show,
            it.filter == (match node_filter {
                None => Filter::FilterNone,
                Some(answers) => Filter::FilterCallback(answers),
            }),
    {
        let filter = match node_filter {
            None => Filter::FilterNone,
            Some(answers) => Filter::FilterCallback(answers),
        };
        NodeIterator::new_with_filter(root_node, what_to_show, filter)
    }

    /// The root the traversal is bounded to.
    pub fn root(&self) -> (r: usize)
        ensures
            r == self.root_node,
    {
        self.root_node
    }

    /// The type-mask.
    pub fn what_to_show(&self) -> (r: u32)
        ensures
            r == self.what_to_show,
    {
        self.what_to_show
    }

    /// The current reference node.
    pub fn reference_node(&self) -> (r: usize)
        ensures
            r == self.reference_node,
    {
        self.reference_node
    }

    /// Whether the cursor sits before (rather than after) the reference node.
    pub fn pointer_before_reference_node(&self) -> (r: bool)
        ensures
            r == self.pointer_before_reference_node,
    {
        self.pointer_before_reference_node
    }

    /// The installed callback filter, if one is representable: a native
    /// predicate has no external representation, so asking for it is ruled
    /// out, exactly as constructing one through [`NodeIterator::new`] is.
    pub fn get_filter(&self) -> (r: Option<&Vec<Result<Verdict, FilterError>>>)
        requires
            !(self.filter is FilterNative),
        ensures
            match self.filter {
                Filter::FilterNone => r is None,
                Filter::FilterCallback(answers) => r matches Some(a) && a@ == answers@,
                Filter::FilterNative(_) => false,
            },
    {
        match &self.filter {
            Filter::FilterNone => None,
            Filter::FilterCallback(answers) => Some(answers),
            Filter::FilterNative(_) => {
                proof {
                    assert(false);
                }
                None
            },
        }
    }

    /// Detaching is, by contract, a deliberate no-op: it changes no
    /// observable state of the cursor.
    pub fn detach(&self) {
    }

    /// Identity comparison against the traversal root: handles, not
    /// structure, are compared.
    pub fn is_root_node(&self, node: usize) -> (r: bool)
        ensures
            r == (node == self.root_node),
    {
        node == self.root_node
    }

    /// The first node following `node` in document order, bounded at the
    /// cursor's root: first child, else the next sibling of the nearest
    /// ancestor-or-self below the root that has one. The climb checks for
    /// the root before it looks at a sibling, so the root's own siblings are
    /// never entered and the traversal stays within the root's subtree.
    #[verifier::loop_isolation(false)]
    pub fn following(&self, tree: &Tree, node: usize) -> (r: Option<usize>)
        requires
            tree.wf(),
            node < tree.spec_len(),
        ensures
            r == spec_following(tree, self.root_node, node),
            r matches Some(m) ==> m < tree.spec_len(),
    {
        proof {
            assert(tree.wf_entry(node));
        }
        match tree.first_child(node) {
            Some(c) => Some(c),
            None => {
                let mut candidate = node;
                while !self.is_root_node(candidate) && tree.next_sibling(candidate).is_none()
                    invariant
                        candidate < tree.spec_len(),
                        spec_climb(tree, self.root_node, candidate) == spec_climb(
                            tree,
                            self.root_node,
                            node,
                        ),
                    decreases candidate,
                {
                    proof {
                        assert(tree.wf_entry(candidate));
                    }
                    match tree.parent(candidate) {
                        None => {
                            return None;
                        },
                        Some(p) => {
                            candidate = p;
                        },
                    }
                }
                proof {
                    assert(tree.wf_entry(candidate));
                }
                if self.is_root_node(candidate) {
                    None
                } else {
                    tree.next_sibling(candidate)
                }
            },
        }
    }

    /// The first node preceding `node` in document order, bounded at the
    /// cursor's root: nothing at the root itself, else the deepest last
    /// descendant of the previous sibling, else the parent.
    #[verifier::loop_isolation(false)]
    pub fn preceding(&self, tree: &Tree, node: usize) -> (r: Option<usize>)
        requires
            tree.wf(),
            node < tree.spec_len(),
        ensures
            r == spec_preceding(tree, self.root_node, node),
            r matches Some(m) ==> m < tree.spec_len(),
    {
        if self.is_root_node(node) {
            None
        } else {
            proof {
                assert(tree.wf_entry(node));
            }
            match tree.prev_sibling(node) {
                Some(sibling) => {
                    let mut cur = sibling;
                    while tree.first_child(cur).is_some()
                        invariant
                            cur < tree.spec_len(),
                            spec_descend_last(tree, cur) == spec_descend_last(tree, sibling),
                        decreases tree.spec_len() - cur,
                    {
                        proof {
                            assert(tree.wf_entry(cur));
                        }
                        cur = tree.last_child(cur).unwrap();
                    }
                    proof {
                        assert(tree.wf_entry(cur));
                    }
                    Some(cur)
                },
                None => tree.parent(node),
            }
        }
    }

    /// Classifies `node`: `Skip` without consulting the filter when the
    /// type-mask does not admit the node's kind, otherwise the installed
    /// filter's answer.
    pub fn accept_node(&self, tree: &Tree, node: usize) -> (r: Result<Verdict, FilterError>)
        requires
            tree.wf(),
            node < tree.spec_len(),
        ensures
            r == spec_classify(tree, self.what_to_show, self.filter, node),
    {
        proof {
            assert(tree.wf_entry(node));
        }
        let n: u32 = tree.kind(node) - 1;
        if self.what_to_show & (1u32 << n) == 0 {
            return Ok(Verdict::Skip);
        }
        match &self.filter {
            Filter::FilterNone => Ok(Verdict::Accept),
            Filter::FilterNative(verdicts) => {
                if node < verdicts.len() {
                    Ok(verdicts[node])
                } else {
                    Ok(Verdict::Accept)
                }
            },
            Filter::FilterCallback(answers) => {
                if node < answers.len() {
                    answers[node]
                } else {
                    Ok(Verdict::Accept)
                }
            },
        }
    }

    /// One traversal step in `direction`: repeatedly take a candidate step
    /// and classify the candidate, until a candidate is accepted (the cursor
    /// moves to it), the boundary is reached (`Ok(None)`, cursor untouched),
    /// or the filter fails (the error propagates, cursor untouched).
    #[verifier::loop_isolation(false)]
    fn traverse(&mut self, tree: &Tree, direction: Direction) -> (r: Result<
        Option<usize>,
        FilterError,
    >)
        requires
            tree.wf(),
            old(self).wf(tree),
        ensures
            traverse_post(tree, *old(self), *final(self), direction, r),
    {
        let ghost root = self.root_node;
        let ghost mask = self.what_to_show;
        let ghost flt = self.filter;
        let ghost init_node = self.reference_node;
        let ghost init_before = self.pointer_before_reference_node;
        let mut node = self.reference_node;
        let mut before_node = self.pointer_before_reference_node;
        loop
            invariant
                self.root_node == root,
                self.what_to_show == mask,
                self.filter == flt,
                self.reference_node == init_node,
                self.pointer_before_reference_node == init_before,
                node < tree.spec_len(),
                forall|k: nat|
                    (#[trigger] traverse_rec(tree, root, mask, flt, direction, node, before_node, k))
                        is Some ==> exists|k0: nat|
                        traverse_rec(tree, root, mask, flt, direction, init_node, init_before, k0)
                            == traverse_rec(
                            tree,
                            root,
                            mask,
                            flt,
                            direction,
                            node,
                            before_node,
                            k,
                        ),
            decreases (match direction {
                Direction::Next => if before_node {
                    1int
                } else {
                    0int
                },
                Direction::Previous => if !before_node {
                    1int
                } else {
                    0int
                },
            }), (match direction {
                Direction::Next => forward_measure(tree, node),
                Direction::Previous => preorder_rank(tree, node),
            }),
        {
            let ghost node0 = node;
            let ghost before0 = before_node;
            match direction {
                Direction::Next => {
                    if !before_node {
                        match self.following(tree, node) {
                            Some(n) => {
                                proof {
                                    lemma_following_measure(tree, root, node);
                                }
                                node = n;
                            },
                            None => {
                                proof {
                                    assert(traverse_rec(
                                        tree,
                                        root,
                                        mask,
                                        flt,
                                        direction,
                                        node0,
                                        before0,
                                        1nat,
                                    ) == Some(
                                        Ok::<Option<(usize, bool)>, FilterError>(None),
                                    ));
                                }
                                return Ok(None);
                            },
                        }
                    } else {
                        before_node = false;
                    }
                },
                Direction::Previous => {
                    if before_node {
                        match self.preceding(tree, node) {
                            Some(n) => {
                                proof {
                                    lemma_preceding_rank(tree, root, node);
                                }
                                node = n;
                            },
                            None => {
                                proof {
                                    assert(traverse_rec(
                                        tree,
                                        root,
                                        mask,
                                        flt,
                                        direction,
                                        node0,
                                        before0,
                                        1nat,
                                    ) == Some(
                                        Ok::<Option<(usize, bool)>, FilterError>(None),
                                    ));
                                }
                                return Ok(None);
                            },
                        }
                    } else {
                        before_node = true;
                    }
                },
            }
            let verdict = self.accept_node(tree, node);
            proof {
                assert(spec_step(tree, root, direction, node0, before0) == Some(
                    (node, before_node),
                ));
            }
            match verdict {
                Err(e) => {
                    proof {
                        assert(traverse_rec(tree, root, mask, flt, direction, node0, before0, 1nat)
                            == Some(Err::<Option<(usize, bool)>, FilterError>(e)));
                    }
                    return Err(e);
                },
                Ok(Verdict::Accept) => {
                    proof {
                        assert(traverse_rec(tree, root, mask, flt, direction, node0, before0, 1nat)
                            == Some(Ok::<Option<(usize, bool)>, FilterError>(Some((node, before_node)))));
                    }
                    self.reference_node = node;
                    self.pointer_before_reference_node = before_node;
                    return Ok(Some(node));
                },
                Ok(_) => {
                    proof {
                        assert forall|k: nat|
                            (#[trigger] traverse_rec(
                                tree,
                                root,
                                mask,
                                flt,
                                direction,
                                node,
                                before_node,
                                k,
                            )) is Some implies exists|k0: nat|
                            traverse_rec(
                                tree,
                                root,
                                mask,
                                flt,
                                direction,
                                init_node,
                                init_before,
                                k0,
                            ) == traverse_rec(
                                tree,
                                root,
                                mask,
                                flt,
                                direction,
                                node,
                                before_node,
                                k,
                            ) by {
                            assert(traverse_rec(
                                tree,
                                root,
                                mask,
                                flt,
                                direction,
                                node0,
                                before0,
                                k + 1,
                            ) == traverse_rec(
                                tree,
                                root,
                                mask,
                                flt,
                                direction,
                                node,
                                before_node,
                                k,
                            ));
                            let k0 = choose|k0: nat|
                                traverse_rec(
                                    tree,
                                    root,
                                    mask,
                                    flt,
                                    direction,
                                    init_node,
                                    init_before,
                                    k0,
                                ) == traverse_rec(
                                    tree,
                                    root,
                                    mask,
                                    flt,
                                    direction,
                                    node0,
                                    before0,
                                    k + 1,
                                );
                            assert(traverse_rec(
                                tree,
                                root,
                                mask,
                                flt,
                                direction,
                                init_node,
                                init_before,
                                k0,
                            ) == traverse_rec(
                                tree,
                                root,
                                mask,
                                flt,
                                direction,
                                node,
                                before_node,
                                k,
                            ));
                        }
                    }
                },
            }
        }
    }

    /// Traverses in direction next: the first mask- and filter-accepted node
    /// after the cursor's position, or `Ok(None)` at the end of the
    /// traversal, or the filter's error; the cursor moves only on success.
    pub fn next_node(&mut self, tree: &Tree) -> (r: Result<Option<usize>, FilterError>)
        requires
            tree.wf(),
            old(self).wf(tree),
        ensures
            traverse_post(tree, *old(self), *final(self), Direction::Next, r),
    {
        self.traverse(tree, Direction::Next)
    }

    /// Traverses in direction previous: the first mask- and filter-accepted
    /// node before the cursor's position, or `Ok(None)` at the start of the
    /// traversal, or the filter's error; the cursor moves only on success.
    pub fn prev_node(&mut self, tree: &Tree) -> (r: Result<Option<usize>, FilterError>)
        requires
            tree.wf(),
            old(self).wf(tree),
        ensures
            traverse_post(tree, *old(self), *final(self), Direction::Previous, r),
    {
        self.traverse(tree, Direction::Previous)
    }
}

} // verus!
