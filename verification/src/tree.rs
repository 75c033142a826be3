//! An arena-backed document tree.
//!
//! Nodes are identified by stable indices into the arena; every node carries
//! an integer `kind` (a 1-based classification used to index a type-mask) and
//! the five navigation links `parent`, `first_child`, `last_child`,
//! `next_sibling` and `prev_sibling`. The arena is append-only: children are
//! added under an existing parent, so a parent always has a smaller index
//! than each of its children, and siblings grow from left to right.

use vstd::prelude::*;

verus! {

/// The largest node kind: kinds are 1-based and index the bits of a 32-bit
/// type-mask, so they range over `1 ..= 32`.
pub const MAX_KIND: u32 = 32;

/// One node of the arena: its kind and its links into the tree.
#[derive(Clone, Copy)]
pub struct NodeEntry {
    pub kind: u32,
    pub parent: Option<usize>,
    pub first_child: Option<usize>,
    pub last_child: Option<usize>,
    pub next_sibling: Option<usize>,
    pub prev_sibling: Option<usize>,
}

/// An arena of tree nodes. The well-formedness invariant [`Tree::wf`] ties
/// the navigation links of all nodes together: child and sibling links point
/// forward in the arena, parent links point backward, and the links of
/// neighbouring nodes agree with one another.
pub struct Tree {
    pub nodes: Vec<NodeEntry>,
}

impl Tree {
    /// The number of nodes in the arena.
    pub open spec fn spec_len(&self) -> nat {
        self.nodes@.len()
    }

    /// The full entry of node `i`.
    pub open spec fn entry(&self, i: usize) -> NodeEntry {
        self.nodes@[i as int]
    }

    pub open spec fn spec_kind(&self, i: usize) -> u32 {
        self.entry(i).kind
    }

    pub open spec fn spec_parent(&self, i: usize) -> Option<usize> {
        self.entry(i).parent
    }

    pub open spec fn spec_first_child(&self, i: usize) -> Option<usize> {
        self.entry(i).first_child
    }

    pub open spec fn spec_last_child(&self, i: usize) -> Option<usize> {
        self.entry(i).last_child
    }

    pub open spec fn spec_next_sibling(&self, i: usize) -> Option<usize> {
        self.entry(i).next_sibling
    }

    pub open spec fn spec_prev_sibling(&self, i: usize) -> Option<usize> {
        self.entry(i).prev_sibling
    }

    /// Well-formedness of the links of one node.
    pub open spec fn wf_entry(&self, i: usize) -> bool {
        &&& 1 <= self.spec_kind(i) <= MAX_KIND
        &&& match self.spec_parent(i) {
            Some(p) => p < i,
            None => true,
        }
        &&& match self.spec_first_child(i) {
            Some(c) => {
                &&& i < c < self.spec_len()
                &&& self.spec_parent(c) == Some(i)
                &&& self.spec_prev_sibling(c) is None
            },
            None => true,
        }
        &&& match self.spec_last_child(i) {
            Some(l) => {
                &&& i < l < self.spec_len()
                &&& self.spec_parent(l) == Some(i)
                &&& self.spec_next_sibling(l) is None
            },
            None => true,
        }
        &&& (self.spec_first_child(i) is Some <==> self.spec_last_child(i) is Some)
        &&& match self.spec_next_sibling(i) {
            Some(s) => {
                &&& i < s < self.spec_len()
                &&& self.spec_parent(s) == self.spec_parent(i)
                &&& self.spec_prev_sibling(s) == Some(i)
            },
            None => true,
        }
        &&& match self.spec_prev_sibling(i) {
            Some(d) => {
                &&& d < i
                &&& self.spec_parent(d) == self.spec_parent(i)
                &&& self.spec_next_sibling(d) == Some(i)
            },
            None => true,
        }
        &&& match self.spec_parent(i) {
            Some(p) => {
                &&& (self.spec_prev_sibling(i) is None ==> self.spec_first_child(p) == Some(i))
                &&& (self.spec_next_sibling(i) is None ==> self.spec_last_child(p) == Some(i))
            },
            None => true,
        }
    }

    /// Well-formedness of the whole arena.
    pub open spec fn wf(&self) -> bool {
        forall|i: usize| i < self.spec_len() ==> #[trigger] self.wf_entry(i)
    }

    /// A new tree holding a single root node of the given kind.
    pub fn new(kind: u32) -> (t: Tree)
        requires
            1 <= kind <= MAX_KIND,
        ensures
            t.wf(),
            t.spec_len() == 1,
            t.spec_kind(0) == kind,
            t.spec_parent(0) is None,
            t.spec_first_child(0) is None,
            t.spec_last_child(0) is None,
            t.spec_next_sibling(0) is None,
            t.spec_prev_sibling(0) is None,
    {
        let entry = NodeEntry {
            kind,
            parent: None,
            first_child: None,
            last_child: None,
            next_sibling: None,
            prev_sibling: None,
        };
        let mut nodes: Vec<NodeEntry> = Vec::new();
        nodes.push(entry);
        let t = Tree { nodes };
        proof {
            assert(t.wf_entry(0));
        }
        t
    }

    /// Appends a new node of the given kind as the last child of `parent`
    /// and returns its index.
    pub fn append_child(&mut self, parent: usize, kind: u32) -> (id: usize)
        requires
            old(self).wf(),
            parent < old(self).spec_len(),
            1 <= kind <= MAX_KIND,
            old(self).spec_len() < usize::MAX,
        ensures
            final(self).wf(),
            id == old(self).spec_len(),
            final(self).spec_len() == old(self).spec_len() + 1,
            final(self).spec_kind(id) == kind,
            final(self).spec_parent(id) == Some(parent),
            final(self).spec_first_child(id) is None,
            final(self).spec_last_child(id) is None,
            final(self).spec_next_sibling(id) is None,
            final(self).spec_prev_sibling(id) == old(self).spec_last_child(parent),
            final(self).spec_last_child(parent) == Some(id),
            final(self).spec_first_child(parent) == (match old(self).spec_first_child(parent) {
                None => Some(id),
                Some(c) => Some(c),
            }),
            final(self).spec_kind(parent) == old(self).spec_kind(parent),
            final(self).spec_parent(parent) == old(self).spec_parent(parent),
            final(self).spec_next_sibling(parent) == old(self).spec_next_sibling(parent),
            final(self).spec_prev_sibling(parent) == old(self).spec_prev_sibling(parent),
            forall|i: usize|
                i < old(self).spec_len() && i != parent
                    && old(self).spec_last_child(parent) != Some(i)
                    ==> #[trigger] final(self).entry(i) == old(self).entry(i),
            match old(self).spec_last_child(parent) {
                Some(l) => {
                    &&& final(self).spec_next_sibling(l) == Some(id)
                    &&& final(self).spec_kind(l) == old(self).spec_kind(l)
                    &&& final(self).spec_parent(l) == old(self).spec_parent(l)
                    &&& final(self).spec_first_child(l) == old(self).spec_first_child(l)
                    &&& final(self).spec_last_child(l) == old(self).spec_last_child(l)
                    &&& final(self).spec_prev_sibling(l) == old(self).spec_prev_sibling(l)
                },
                None => true,
            },
    {
        let id = self.nodes.len();
        proof {
            assert(old(self).wf_entry(parent));
        }
        let prev = self.nodes[parent].last_child;
        let entry = NodeEntry {
            kind,
            parent: Some(parent),
            first_child: None,
            last_child: None,
            next_sibling: None,
            prev_sibling: prev,
        };
        self.nodes.push(entry);
        let mut pentry = self.nodes[parent];
        pentry.last_child = Some(id);
        if pentry.first_child.is_none() {
            pentry.first_child = Some(id);
        }
        self.nodes.set(parent, pentry);
        match prev {
            Some(l) => {
                let mut lentry = self.nodes[l];
                lentry.next_sibling = Some(id);
                self.nodes.set(l, lentry);
            },
            None => {},
        }
        proof {
            assert forall|i: usize| i < self.spec_len() implies #[trigger] self.wf_entry(i) by {
                assert(old(self).wf_entry(parent));
                if i < old(self).spec_len() {
                    assert(old(self).wf_entry(i));
                    match old(self).spec_first_child(i) {
                        Some(c) => {
                            assert(old(self).wf_entry(c));
                        },
                        None => {},
                    }
                    match old(self).spec_last_child(i) {
                        Some(l) => {
                            assert(old(self).wf_entry(l));
                        },
                        None => {},
                    }
                    match old(self).spec_next_sibling(i) {
                        Some(s) => {
                            assert(old(self).wf_entry(s));
                        },
                        None => {},
                    }
                    match old(self).spec_prev_sibling(i) {
                        Some(d) => {
                            assert(old(self).wf_entry(d));
                        },
                        None => {},
                    }
                    match old(self).spec_parent(i) {
                        Some(p) => {
                            assert(old(self).wf_entry(p));
                        },
                        None => {},
                    }
                }
            }
        }
        id
    }

    /// The number of nodes in the arena.
    pub fn len(&self) -> (n: usize)
        ensures
            n == self.spec_len(),
    {
        self.nodes.len()
    }

    /// The kind of node `i`.
    pub fn kind(&self, i: usize) -> (k: u32)
        requires
            i < self.spec_len(),
        ensures
            k == self.spec_kind(i),
    {
        self.nodes[i].kind
    }

    /// The parent of node `i`, if it has one.
    pub fn parent(&self, i: usize) -> (r: Option<usize>)
        requires
            i < self.spec_len(),
        ensures
            r == self.spec_parent(i),
    {
        self.nodes[i].parent
    }

    /// The first child of node `i`, if it has one.
    pub fn first_child(&self, i: usize) -> (r: Option<usize>)
        requires
            i < self.spec_len(),
        ensures
            r == self.spec_first_child(i),
    {
        self.nodes[i].first_child
    }

    /// The last child of node `i`, if it has one.
    pub fn last_child(&self, i: usize) -> (r: Option<usize>)
        requires
            i < self.spec_len(),
        ensures
            r == self.spec_last_child(i),
    {
        self.nodes[i].last_child
    }

    /// The next sibling of node `i`, if it has one.
    pub fn next_sibling(&self, i: usize) -> (r: Option<usize>)
        requires
            i < self.spec_len(),
        ensures
            r == self.spec_next_sibling(i),
    {
        self.nodes[i].next_sibling
    }

    /// The previous sibling of node `i`, if it has one.
    pub fn prev_sibling(&self, i: usize) -> (r: Option<usize>)
        requires
            i < self.spec_len(),
        ensures
            r == self.spec_prev_sibling(i),
    {
        self.nodes[i].prev_sibling
    }
}

} // verus!
