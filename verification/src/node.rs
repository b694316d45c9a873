use vstd::prelude::*;
use crate::tree::Tree;
use crate::tree::TreeType;
use crate::tree::WeakRef;
use crate::tree::upgraded;

verus! {

/// A single tree node: one stored value and two optional owned links to
/// child nodes.  A node on its own carries no ordering obligation; the
/// search-tree discipline is the tree's invariant, stated by `node_ordered`.
pub struct TreeNode {
    pub value: i64,
    pub left: Option<Box<TreeNode>>,
    pub right: Option<Box<TreeNode>>,
}

/// The set of values stored in an optional subtree.
pub open spec fn opt_values(o: Option<Box<TreeNode>>) -> Set<i64>
    decreases o,
{
    match o {
        None => Set::empty(),
        Some(n) => node_values(*n),
    }
}

/// The set of values stored in the subtree rooted at `n`.
pub open spec fn node_values(n: TreeNode) -> Set<i64>
    decreases n,
{
    opt_values(n.left).union(opt_values(n.right)).insert(n.value)
}

/// Search-tree ordering for an optional subtree.
pub open spec fn opt_ordered(o: Option<Box<TreeNode>>) -> bool
    decreases o,
{
    match o {
        None => true,
        Some(n) => node_ordered(*n),
    }
}

/// Search-tree ordering: every value reachable through the left link is
/// strictly below the node's value, every value reachable through the right
/// link strictly above, recursively at every node.
pub open spec fn node_ordered(n: TreeNode) -> bool
    decreases n,
{
    &&& (forall |x: i64| opt_values(n.left).contains(x) ==> x < n.value)
    &&& (forall |x: i64| opt_values(n.right).contains(x) ==> x > n.value)
    &&& opt_ordered(n.left)
    &&& opt_ordered(n.right)
}

/// Number of nodes in an optional subtree.
pub open spec fn opt_count(o: Option<Box<TreeNode>>) -> nat
    decreases o,
{
    match o {
        None => 0,
        Some(n) => node_count(*n),
    }
}

/// Number of nodes in the subtree rooted at `n`.
pub open spec fn node_count(n: TreeNode) -> nat
    decreases n,
{
    1 + opt_count(n.left) + opt_count(n.right)
}

/// In-order listing of an optional subtree.
pub open spec fn opt_in_order(o: Option<Box<TreeNode>>) -> Seq<i64>
    decreases o,
{
    match o {
        None => Seq::empty(),
        Some(n) => node_in_order(*n),
    }
}

/// In-order listing of the subtree rooted at `n`: left subtree, the node's
/// own value, right subtree.
pub open spec fn node_in_order(n: TreeNode) -> Seq<i64>
    decreases n,
{
    opt_in_order(n.left) + seq![n.value] + opt_in_order(n.right)
}

/// The node a search for `v` reaches in an optional subtree, descending by
/// comparison, or `None` when the walk runs off a missing child slot.
pub open spec fn opt_lookup(o: Option<Box<TreeNode>>, v: i64) -> Option<TreeNode>
    decreases o,
{
    match o {
        None => None,
        Some(n) => node_lookup(*n, v),
    }
}

/// The node a search for `v` reaches from `n`, descending by comparison.
pub open spec fn node_lookup(n: TreeNode, v: i64) -> Option<TreeNode>
    decreases n,
{
    if v == n.value {
        Some(n)
    } else if v < n.value {
        opt_lookup(n.left, v)
    } else {
        opt_lookup(n.right, v)
    }
}

/// What inserting `val` below an optional slot produces, structurally: a
/// fresh leaf when the slot is empty, else the occupant with the insertion
/// pushed down.
pub open spec fn opt_insert_spec(o: Option<Box<TreeNode>>, val: i64) -> Option<Box<TreeNode>>
    decreases o,
{
    match o {
        None => Some(Box::new(TreeNode { value: val, left: None, right: None })),
        Some(n) => Some(Box::new(node_insert_spec(*n, val))),
    }
}

/// What inserting `val` into the subtree rooted at `n` produces,
/// structurally: the walk descends by comparison, a fresh leaf fills the
/// first missing slot on the way — the wedge point — and nothing else
/// moves; an equal value changes nothing.
pub open spec fn node_insert_spec(n: TreeNode, val: i64) -> TreeNode
    decreases n,
{
    if val == n.value {
        n
    } else if val < n.value {
        TreeNode { value: n.value, left: opt_insert_spec(n.left, val), right: n.right }
    } else {
        TreeNode { value: n.value, left: n.left, right: opt_insert_spec(n.right, val) }
    }
}

/// What attaching the whole node `new` below an optional slot produces,
/// structurally: `new` itself when the slot is empty, else the occupant
/// with the attachment pushed down by comparison against `new`'s own value.
pub open spec fn opt_attach_spec(o: Option<Box<TreeNode>>, new: TreeNode) -> Option<Box<TreeNode>>
    decreases o,
{
    match o {
        None => Some(Box::new(new)),
        Some(n) => Some(Box::new(node_attach_spec(*n, new))),
    }
}

/// What attaching the whole node `new` into the subtree rooted at `n`
/// produces, structurally: the walk descends by `new`'s root value and the
/// node fills the first missing slot on the way, subtrees included.
pub open spec fn node_attach_spec(n: TreeNode, new: TreeNode) -> TreeNode
    decreases n,
{
    if new.value == n.value {
        n
    } else if new.value < n.value {
        TreeNode { value: n.value, left: opt_attach_spec(n.left, new), right: n.right }
    } else {
        TreeNode { value: n.value, left: n.left, right: opt_attach_spec(n.right, new) }
    }
}

/// The leftmost value of the subtree rooted at `n`.
pub open spec fn node_min(n: TreeNode) -> i64
    decreases n,
{
    match n.left {
        None => n.value,
        Some(l) => node_min(*l),
    }
}

/// What detaching the leftmost node of the subtree rooted at `n` produces,
/// structurally: the leftmost node's right subtree is respliced into its
/// place and nothing else moves.
pub open spec fn node_drop_min_spec(n: TreeNode) -> Option<Box<TreeNode>>
    decreases n,
{
    match n.left {
        None => n.right,
        Some(l) => Some(Box::new(TreeNode {
            value: n.value,
            left: node_drop_min_spec(*l),
            right: n.right,
        })),
    }
}

/// What removing `val` below an optional slot produces, structurally.
pub open spec fn opt_remove_spec(o: Option<Box<TreeNode>>, val: i64) -> Option<Box<TreeNode>>
    decreases o,
{
    match o {
        None => None,
        Some(n) => node_remove_spec(*n, val),
    }
}

/// What removing `val` from the subtree rooted at `n` produces,
/// structurally: the walk descends by comparison; a matched node with an
/// empty child slot is replaced by its other subtree, and a matched node
/// with two children takes over the least value of its right subtree — its
/// in-order successor, the policy chosen here — whose own node is detached
/// in turn.
pub open spec fn node_remove_spec(n: TreeNode, val: i64) -> Option<Box<TreeNode>>
    decreases n,
{
    if val == n.value {
        match n.left {
            None => n.right,
            Some(l) => match n.right {
                None => n.left,
                Some(r) => Some(Box::new(TreeNode {
                    value: node_min(*r),
                    left: n.left,
                    right: node_drop_min_spec(*r),
                })),
            },
        }
    } else if val < n.value {
        Some(Box::new(TreeNode { value: n.value, left: opt_remove_spec(n.left, val), right: n.right }))
    } else {
        Some(Box::new(TreeNode { value: n.value, left: n.left, right: opt_remove_spec(n.right, val) }))
    }
}

/// The rightmost value of the subtree rooted at `n`.
pub open spec fn node_max(n: TreeNode) -> i64
    decreases n,
{
    match n.right {
        None => n.value,
        Some(r) => node_max(*r),
    }
}

/// `x` lies strictly above the lower bound, when one is given.
pub open spec fn above(lo: Option<i64>, x: i64) -> bool {
    match lo {
        None => true,
        Some(l) => l < x,
    }
}

/// `x` lies strictly below the upper bound, when one is given.
pub open spec fn below(hi: Option<i64>, x: i64) -> bool {
    match hi {
        None => true,
        Some(h) => x < h,
    }
}

/// Every value of `s` lies strictly inside the open interval `(lo, hi)`.
pub open spec fn set_in_bounds(s: Set<i64>, lo: Option<i64>, hi: Option<i64>) -> bool {
    forall |x: i64| s.contains(x) ==> above(lo, x) && below(hi, x)
}

/// Every value of `s` lies strictly outside the span of values of `n`:
/// attaching `n` whole into a tree with value set `s` cannot disturb the
/// ordering nor duplicate a value.
pub open spec fn fits_beside(s: Set<i64>, n: TreeNode) -> bool {
    forall |x: i64| s.contains(x) ==> x < node_min(n) || node_max(n) < x
}

/// Under the ordering discipline the span `[node_min, node_max]` really
/// brackets every stored value, and both ends are themselves stored.
pub proof fn lemma_ordered_bounds(n: TreeNode)
    requires
        node_ordered(n),
    ensures
        node_values(n).contains(node_min(n)),
        node_values(n).contains(node_max(n)),
        forall |x: i64| node_values(n).contains(x) ==>
            node_min(n) <= x && x <= node_max(n),
    decreases n,
{
    match n.left {
        None => {
            assert(node_min(n) == n.value);
        }
        Some(l) => {
            lemma_ordered_bounds(*l);
            assert(opt_values(n.left).contains(node_min(*l)));
            assert(node_min(*l) < n.value);
        }
    }
    match n.right {
        None => {
            assert(node_max(n) == n.value);
        }
        Some(r) => {
            lemma_ordered_bounds(*r);
            assert(opt_values(n.right).contains(node_max(*r)));
            assert(n.value < node_max(*r));
        }
    }
    assert forall |x: i64| node_values(n).contains(x) implies
        node_min(n) <= x && x <= node_max(n) by {
        if opt_values(n.left).contains(x) {
            assert(x < n.value);
        } else if opt_values(n.right).contains(x) {
            assert(n.value < x);
        } else {
            assert(x == n.value);
        }
    }
}

impl TreeNode {
    /// A fresh leaf holding `value`, with both child slots empty.
    pub fn new(value: i64) -> (n: TreeNode)
        ensures
            n == (TreeNode { value, left: None, right: None }),
    {
        TreeNode { value, left: None, right: None }
    }

    /// A structurally equal copy of the whole subtree rooted at `self`.
    pub fn duplicate(&self) -> (n: TreeNode)
        ensures
            n == *self,
        decreases *self,
    {
        let left: Option<Box<TreeNode>> = match &self.left {
            None => None,
            Some(l) => Some(Box::new(l.duplicate())),
        };
        let right: Option<Box<TreeNode>> = match &self.right {
            None => None,
            Some(r) => Some(Box::new(r.duplicate())),
        };
        TreeNode { value: self.value, left, right }
    }

    /// A node holding `value` whose children are obtained by upgrading the
    /// two observational links against `tree` and copying the subtrees they
    /// resolve to.  A link whose target is gone leaves that child slot
    /// empty; no error is raised for this best-effort attach.
    pub fn new_with_children(value: i64, tree: &Tree, left: WeakRef, right: WeakRef) -> (n: TreeNode)
        requires
            tree.well_formed(),
        ensures
            n.value == value,
            (match upgraded(*tree, left) {
                Some(m) => n.left matches Some(l) && *l == m,
                None => n.left is None,
            }),
            (match upgraded(*tree, right) {
                Some(m) => n.right matches Some(r) && *r == m,
                None => n.right is None,
            }),
    {
        let left_child: Option<Box<TreeNode>> = match left.upgrade(tree) {
            None => None,
            Some(p) => Some(Box::new(p.duplicate())),
        };
        let right_child: Option<Box<TreeNode>> = match right.upgrade(tree) {
            None => None,
            Some(p) => Some(Box::new(p.duplicate())),
        };
        TreeNode { value, left: left_child, right: right_child }
    }

    /// Replace the left child by upgrading `new_left` against `tree` (an
    /// empty slot when the link no longer resolves), handing back an owning
    /// handle to whatever was attached before.  The caller decides the fate
    /// of the detached subtree: keep it, reattach it, or let it drop.
    pub fn set_left_child(&mut self, tree: &Tree, new_left: WeakRef) -> (prev: Option<Box<TreeNode>>)
        requires
            tree.well_formed(),
        ensures
            prev == old(self).left,
            final(self).value == old(self).value,
            final(self).right == old(self).right,
            (match upgraded(*tree, new_left) {
                Some(m) => final(self).left matches Some(l) && *l == m,
                None => final(self).left is None,
            }),
    {
        let prev = self.left.take();
        self.left = match new_left.upgrade(tree) {
            None => None,
            Some(p) => Some(Box::new(p.duplicate())),
        };
        prev
    }

    /// Replace the right child, as `set_left_child` does for the left slot.
    pub fn set_right_child(&mut self, tree: &Tree, new_right: WeakRef) -> (prev: Option<Box<TreeNode>>)
        requires
            tree.well_formed(),
        ensures
            prev == old(self).right,
            final(self).value == old(self).value,
            final(self).left == old(self).left,
            (match upgraded(*tree, new_right) {
                Some(m) => final(self).right matches Some(r) && *r == m,
                None => final(self).right is None,
            }),
    {
        let prev = self.right.take();
        self.right = match new_right.upgrade(tree) {
            None => None,
            Some(p) => Some(Box::new(p.duplicate())),
        };
        prev
    }
}

} // verus!
