//! The filter evaluator: decides, for a node, whether a traversal should
//! visit it (`Accept`), pass over it (`Skip` or `Reject`), or fail because an
//! externally supplied callback failed.
//!
//! Classification first checks the node's kind against a 32-bit type-mask
//! (bit `n` set means nodes of kind `n + 1` are visible) and answers `Skip`
//! without consulting the installed filter when the bit is clear. Only for a
//! mask-visible node is the filter itself consulted; only a callback filter
//! can fail, and the failure surfaces to the caller of the traversal step.

use vstd::prelude::*;

use crate::tree::Tree;

verus! {

/// A filter's classification of one node. `Reject` is reserved: this cursor
/// style treats it exactly like `Skip`, but a filter may return it.
#[derive(Clone, Copy, PartialEq, Eq, Structural, Debug)]
pub enum Verdict {
    Accept,
    Reject,
    Skip,
}

/// The single error of this engine: the installed callback filter itself
/// failed while classifying a node. It is never merged with "no more nodes".
#[derive(Clone, Copy, PartialEq, Eq, Structural, Debug)]
pub struct FilterError;

/// The filter installed in a cursor: a closed set of variants.
///
/// A native filter cannot fail; a callback filter, standing for an
/// externally supplied routine, may fail on any node. Both are captured as
/// their decision for each node of the arena, indexed by node handle; a node
/// beyond the end of the table is accepted, as if no filter were installed.
pub enum Filter {
    /// No filter installed: every mask-visible node is accepted.
    FilterNone,
    /// A native predicate, captured as its verdict for each node.
    FilterNative(Vec<Verdict>),
    /// An external callback, captured as its answer for each node: a verdict,
    /// or the typed failure the callback ended in.
    FilterCallback(Vec<Result<Verdict, FilterError>>),
}

/// Whether bit `kind - 1` (kinds are 1-based) is set in the type-mask.
pub open spec fn mask_admits(mask: u32, kind: u32) -> bool {
    mask & (1u32 << ((kind - 1) as u32)) != 0
}

/// What the installed filter itself answers for `node`, with no mask check.
pub open spec fn spec_filter_answer(f: Filter, node: usize) -> Result<Verdict, FilterError> {
    match f {
        Filter::FilterNone => Ok(Verdict::Accept),
        Filter::FilterNative(verdicts) => if node < verdicts@.len() {
            Ok(verdicts@[node as int])
        } else {
            Ok(Verdict::Accept)
        },
        Filter::FilterCallback(answers) => if node < answers@.len() {
            answers@[node as int]
        } else {
            Ok(Verdict::Accept)
        },
    }
}

/// The full classification of `node`: `Skip` when the type-mask does not
/// admit the node's kind, otherwise whatever the installed filter answers.
pub open spec fn spec_classify(t: &Tree, mask: u32, f: Filter, node: usize) -> Result<
    Verdict,
    FilterError,
> {
    if !mask_admits(mask, t.spec_kind(node)) {
        Ok(Verdict::Skip)
    } else {
        spec_filter_answer(f, node)
    }
}

} // verus!
