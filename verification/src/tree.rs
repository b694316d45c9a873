use vstd::prelude::*;
use crate::laws::lemma_lookup_finds;
use crate::laws::lemma_ordered_in_order_ascending;
use crate::laws::strictly_ascending;
use crate::node::node_in_order;
use crate::node::{
    TreeNode, above, below, fits_beside, node_attach_spec, node_count, node_drop_min_spec,
    node_insert_spec, node_lookup, node_max, node_min, node_ordered, node_remove_spec,
    node_values, lemma_ordered_bounds, opt_attach_spec, opt_count, opt_insert_spec,
    opt_ordered, opt_remove_spec, opt_values, set_in_bounds,
};

verus! {

/// Outcome of removing a value from the tree.
///
/// A tree is never empty, so removing the sole remaining element is refused:
/// that path is surfaced as the distinguished `LastElement` outcome rather
/// than a crash, and the tree is left untouched.
pub enum RemoveResult {
    /// The value was present: the detached node, now a leaf holding it.
    Removed(TreeNode),
    /// The value was not in the tree; nothing changed.
    NotFound,
    /// The value is the only element, which may not be removed.
    LastElement,
}

/// An observational link to a node: it never keeps its target in the tree,
/// and must be revalidated against the tree (`upgrade`) before use.  Since
/// stored values are unique, a link identifies its target by value; once the
/// target has been detached the upgrade reports it absent.
#[derive(Clone, Copy)]
pub struct WeakRef {
    target: Option<i64>,
}

impl View for WeakRef {
    type V = Option<i64>;

    closed spec fn view(&self) -> Option<i64> {
        self.target
    }
}

/// A binary search tree that always holds at least one value.  The root slot
/// is invariantly occupied and `size` counts the live elements.
pub struct Tree {
    root: Option<Box<TreeNode>>,
    size: usize,
}

/// The node an observational link resolves to in `t`: the link's target
/// value looked up by the ordinary descent, or nothing for an empty or
/// stale link.
pub open spec fn upgraded(t: Tree, w: WeakRef) -> Option<TreeNode> {
    match w@ {
        None => None,
        Some(v) => node_lookup(t.root_spec(), v),
    }
}

/// The operations of a search tree over an ordered element type.
pub trait TreeType {
    /// The tree's invariant: the root slot is occupied, the ordering
    /// discipline holds at every node, and the size counter is exact.
    spec fn well_formed(&self) -> bool;

    /// The root node, carrying the whole structure, for specification.
    spec fn root_spec(&self) -> TreeNode;

    /// Insert `val` as a fresh leaf at the wedge point its ordering
    /// determines.  Reports false, and changes nothing, exactly when the
    /// value is already present.
    fn insert_value(&mut self, val: i64) -> (r: bool)
        requires
            old(self).well_formed(),
            node_count(old(self).root_spec()) < usize::MAX,
        ensures
            final(self).well_formed(),
            r == !node_values(old(self).root_spec()).contains(val),
            node_values(final(self).root_spec()) =~= node_values(old(self).root_spec()).insert(val),
            node_count(final(self).root_spec()) ==
                node_count(old(self).root_spec()) + (if r { 1nat } else { 0nat }),
            final(self).root_spec() == node_insert_spec(old(self).root_spec(), val),
            !r ==> final(self).root_spec() == old(self).root_spec(),
    ;

    /// Attach an already constructed node, subtrees included, at the wedge
    /// point its root value determines.  The attachment succeeds exactly
    /// when the node is itself an ordered tree and every value already
    /// stored lies strictly outside the node's value span; otherwise the
    /// tree is left unchanged.
    fn insert_node(&mut self, node: TreeNode) -> (r: bool)
        requires
            old(self).well_formed(),
            node_count(old(self).root_spec()) + node_count(node) <= usize::MAX,
        ensures
            final(self).well_formed(),
            r == (node_ordered(node) && fits_beside(node_values(old(self).root_spec()), node)),
            r ==> node_values(final(self).root_spec()) =~=
                node_values(old(self).root_spec()).union(node_values(node)),
            r ==> final(self).root_spec() == node_attach_spec(old(self).root_spec(), node),
            node_count(final(self).root_spec()) ==
                node_count(old(self).root_spec()) + (if r { node_count(node) } else { 0nat }),
            !r ==> final(self).root_spec() == old(self).root_spec(),
    ;

    /// Remove `val`.  A miss reports `NotFound`; removing the sole element
    /// is refused with `LastElement`; otherwise the node holding `val` is
    /// detached, its subtrees respliced, and a handle to it returned.
    fn remove_value(&mut self, val: i64) -> (r: RemoveResult)
        requires
            old(self).well_formed(),
        ensures
            final(self).well_formed(),
            (match r {
                RemoveResult::Removed(n) => {
                    &&& node_values(old(self).root_spec()).contains(val)
                    &&& node_count(old(self).root_spec()) > 1
                    &&& n == (TreeNode { value: val, left: None, right: None })
                    &&& node_values(final(self).root_spec()) =~=
                        node_values(old(self).root_spec()).remove(val)
                    &&& node_count(final(self).root_spec()) ==
                        node_count(old(self).root_spec()) - 1
                    &&& (node_remove_spec(old(self).root_spec(), val) matches Some(b)
                        && final(self).root_spec() == *b)
                },
                RemoveResult::NotFound => {
                    &&& !node_values(old(self).root_spec()).contains(val)
                    &&& final(self).root_spec() == old(self).root_spec()
                },
                RemoveResult::LastElement => {
                    &&& node_values(old(self).root_spec()).contains(val)
                    &&& node_count(old(self).root_spec()) == 1
                    &&& final(self).root_spec() == old(self).root_spec()
                },
            }),
    ;

    /// Walk down by comparison and hand back an observational link to the
    /// node holding `val`, or an empty link when the walk runs off the tree.
    fn find_value(&self, val: i64) -> (r: WeakRef)
        requires
            self.well_formed(),
        ensures
            r@ == (if node_values(self.root_spec()).contains(val) {
                Some(val)
            } else {
                None::<i64>
            }),
    ;
}

impl WeakRef {
    /// An empty link: it upgrades to nothing.
    pub fn empty() -> (w: WeakRef)
        ensures
            w@ is None,
    {
        WeakRef { target: None }
    }

    /// Revalidate the link against `tree`: a temporary handle to the target
    /// node while it is still reachable, and nothing once it has been
    /// detached (or for an empty link).
    pub fn upgrade<'a>(&self, tree: &'a Tree) -> (r: Option<&'a TreeNode>)
        requires
            tree.well_formed(),
        ensures
            (match upgraded(*tree, *self) {
                Some(m) => r matches Some(p) && *p == m,
                None => r is None,
            }),
            r is Some <==> (self@ matches Some(v) && node_values(tree.root_spec()).contains(v)),
            (r matches Some(p) ==> self@ matches Some(v) && p.value == v),
    {
        match self.target {
            None => None,
            Some(v) => {
                proof {
                    lemma_lookup_finds(tree.root_spec(), v);
                }
                match &tree.root {
                    Some(b) => node_get(&**b, v),
                    None => None,
                }
            }
        }
    }
}

/// The node the descent for `val` reaches, as a borrowed handle.
fn node_get<'a>(n: &'a TreeNode, val: i64) -> (r: Option<&'a TreeNode>)
    requires
        node_ordered(*n),
    ensures
        (match node_lookup(*n, val) {
            Some(m) => r matches Some(p) && *p == m,
            None => r is None,
        }),
    decreases *n,
{
    if val == n.value {
        Some(n)
    } else if val < n.value {
        match &n.left {
            Some(l) => node_get(&**l, val),
            None => None,
        }
    } else {
        match &n.right {
            Some(r2) => node_get(&**r2, val),
            None => None,
        }
    }
}

/// Insert `val` as a fresh leaf below `node`, keeping the ordering.
fn insert_from(node: &mut Option<Box<TreeNode>>, val: i64) -> (r: bool)
    requires
        opt_ordered(*old(node)),
    ensures
        opt_ordered(*final(node)),
        r == !opt_values(*old(node)).contains(val),
        opt_values(*final(node)) =~= opt_values(*old(node)).insert(val),
        *final(node) == opt_insert_spec(*old(node), val),
        !r ==> *final(node) == *old(node),
        opt_count(*final(node)) == opt_count(*old(node)) + (if r { 1nat } else { 0nat }),
    decreases *old(node),
{
    match node.take() {
        None => {
            *node = Some(Box::new(TreeNode { value: val, left: None, right: None }));
            true
        }
        Some(mut b) => {
            if val == b.value {
                *node = Some(b);
                false
            } else if val < b.value {
                let r = insert_from(&mut b.left, val);
                proof {
                    assert(!opt_values(b.right).contains(val));
                }
                *node = Some(b);
                r
            } else {
                let r = insert_from(&mut b.right, val);
                proof {
                    assert(!opt_values(b.left).contains(val));
                }
                *node = Some(b);
                r
            }
        }
    }
}

/// Detach the leftmost node below `node` and hand back its value, the
/// least one stored there; the node's right subtree is respliced in its
/// place.
fn take_leftmost(node: &mut Option<Box<TreeNode>>) -> (min: i64)
    requires
        *old(node) is Some,
        opt_ordered(*old(node)),
    ensures
        opt_ordered(*final(node)),
        opt_values(*old(node)).contains(min),
        forall |x: i64| opt_values(*old(node)).contains(x) ==> min <= x,
        opt_values(*final(node)) =~= opt_values(*old(node)).remove(min),
        opt_count(*final(node)) == opt_count(*old(node)) - 1,
        (*old(node) matches Some(b) ==>
            min == node_min(*b) && *final(node) == node_drop_min_spec(*b)),
    decreases *old(node),
{
    let mut b = node.take().unwrap();
    let ghost b0 = *b;
    proof {
        assert(opt_count(*old(node)) == 1 + opt_count(b0.left) + opt_count(b0.right));
    }
    if b.left.is_none() {
        let min = b.value;
        proof {
            assert(!opt_values(b.right).contains(min));
            assert(opt_values(b.left) =~= Set::<i64>::empty());
            assert(opt_count(b0.left) == 0);
        }
        *node = b.right;
        min
    } else {
        let min = take_leftmost(&mut b.left);
        proof {
            assert(!opt_values(b.right).contains(min));
            assert(opt_count(b.left) == opt_count(b0.left) - 1);
        }
        *node = Some(b);
        proof {
            assert(opt_count(*node) == 1 + opt_count(b.left) + opt_count(b0.right));
        }
        min
    }
}

/// Remove `val` from the subtree below `node`, resplicing children; reports
/// whether the value was present.
fn remove_from(node: &mut Option<Box<TreeNode>>, val: i64) -> (found: bool)
    requires
        opt_ordered(*old(node)),
    ensures
        opt_ordered(*final(node)),
        found == opt_values(*old(node)).contains(val),
        opt_values(*final(node)) =~= opt_values(*old(node)).remove(val),
        found ==> *final(node) == opt_remove_spec(*old(node), val),
        !found ==> *final(node) == *old(node),
        opt_count(*final(node)) == opt_count(*old(node)) - (if found { 1nat } else { 0nat }),
    decreases *old(node),
{
    match node.take() {
        None => false,
        Some(mut b) => {
            let ghost b0 = *b;
            if val == b.value {
                proof {
                    assert(!opt_values(b.left).contains(val));
                    assert(!opt_values(b.right).contains(val));
                    assert(opt_count(*old(node)) == 1 + opt_count(b0.left) + opt_count(b0.right));
                }
                if b.left.is_none() {
                    *node = b.right;
                    proof {
                        assert(opt_count(b0.left) == 0);
                    }
                } else if b.right.is_none() {
                    *node = b.left;
                    proof {
                        assert(opt_count(b0.right) == 0);
                    }
                } else {
                    let succ = take_leftmost(&mut b.right);
                    proof {
                        assert(!opt_values(b.left).contains(succ));
                        assert(opt_count(b.right) == opt_count(b0.right) - 1);
                    }
                    b.value = succ;
                    *node = Some(b);
                    proof {
                        assert(opt_count(*node) == 1 + opt_count(b0.left) + (opt_count(b0.right) - 1));
                    }
                }
                true
            } else if val < b.value {
                let found = remove_from(&mut b.left, val);
                proof {
                    assert(!opt_values(b.right).contains(val));
                    assert(opt_count(b.left) == opt_count(b0.left) - (if found { 1nat } else { 0nat }));
                }
                *node = Some(b);
                proof {
                    assert(opt_count(*old(node)) == 1 + opt_count(b0.left) + opt_count(b0.right));
                    assert(opt_count(*node) == 1 + opt_count(b.left) + opt_count(b0.right));
                }
                found
            } else {
                let found = remove_from(&mut b.right, val);
                proof {
                    assert(!opt_values(b.left).contains(val));
                    assert(opt_count(b.right) == opt_count(b0.right) - (if found { 1nat } else { 0nat }));
                }
                *node = Some(b);
                proof {
                    assert(opt_count(*old(node)) == 1 + opt_count(b0.left) + opt_count(b0.right));
                    assert(opt_count(*node) == 1 + opt_count(b0.left) + opt_count(b.right));
                }
                found
            }
        }
    }
}

impl Tree {
    /// A tree holding exactly the one value it is constructed from; trees
    /// are never empty.
    pub fn new(root_val: i64) -> (t: Tree)
        ensures
            t.well_formed(),
            t.root_spec() == (TreeNode { value: root_val, left: None, right: None }),
            node_values(t.root_spec()) =~= Set::empty().insert(root_val),
    {
        Tree {
            root: Some(Box::new(TreeNode { value: root_val, left: None, right: None })),
            size: 1,
        }
    }

    /// The number of values currently stored.
    pub fn size(&self) -> (s: usize)
        requires
            self.well_formed(),
        ensures
            s == node_count(self.root_spec()),
    {
        self.size
    }

    /// A borrowed handle to the root node.
    pub fn root_node(&self) -> (r: &TreeNode)
        requires
            self.well_formed(),
        ensures
            *r == self.root_spec(),
            node_ordered(*r),
    {
        match &self.root {
            Some(b) => &**b,
            None => vstd::pervasive::unreached(),
        }
    }
}

/// Ordering invariant: every well-formed tree — and every tree the
/// operations hand back is well formed — obeys the search-tree discipline
/// at each node, so its in-order listing is strictly ascending.
pub proof fn lemma_tree_ordered(t: Tree)
    requires
        t.well_formed(),
    ensures
        node_ordered(t.root_spec()),
        strictly_ascending(node_in_order(t.root_spec())),
{
    lemma_ordered_in_order_ascending(t.root_spec());
}

impl TreeType for Tree {
    closed spec fn well_formed(&self) -> bool {
        &&& self.root is Some
        &&& node_ordered(self.root_spec())
        &&& self.size == node_count(self.root_spec())
    }

    closed spec fn root_spec(&self) -> TreeNode {
        match self.root {
            Some(b) => *b,
            None => TreeNode { value: 0, left: None, right: None },
        }
    }

    fn insert_value(&mut self, val: i64) -> (r: bool) {
        let r = insert_from(&mut self.root, val);
        if r {
            self.size = self.size + 1;
        }
        r
    }

    fn insert_node(&mut self, node: TreeNode) -> (r: bool) {
        let added = count_nodes(&node);
        let r = attach_from(&mut self.root, node, None, None);
        if r {
            self.size = self.size + added;
        }
        r
    }

    fn remove_value(&mut self, val: i64) -> (r: RemoveResult) {
        let ghost old_self = *self;
        match &self.root {
            Some(b) => {
                if b.left.is_none() && b.right.is_none() {
                    if b.value == val {
                        return RemoveResult::LastElement;
                    } else {
                        return RemoveResult::NotFound;
                    }
                }
            }
            None => {}
        }
        proof {
            let b0 = old_self.root.unwrap();
            assert(node_count(old_self.root_spec()) == 1 + opt_count(b0.left) + opt_count(b0.right));
            if b0.left is Some {
                assert(opt_count(b0.left) == node_count(*b0.left.unwrap()));
                assert(node_count(*b0.left.unwrap()) >= 1);
            } else {
                assert(opt_count(b0.right) == node_count(*b0.right.unwrap()));
                assert(node_count(*b0.right.unwrap()) >= 1);
            }
            assert(node_count(old_self.root_spec()) >= 2);
        }
        let found = remove_from(&mut self.root, val);
        proof {
            if self.root is None {
                assert(opt_count(self.root) == 0);
                assert(false);
            }
            assert(node_values(self.root_spec()) == opt_values(self.root));
            assert(node_count(self.root_spec()) == opt_count(self.root));
        }
        if found {
            self.size = self.size - 1;
            RemoveResult::Removed(TreeNode { value: val, left: None, right: None })
        } else {
            RemoveResult::NotFound
        }
    }

    fn find_value(&self, val: i64) -> (r: WeakRef) {
        proof {
            lemma_lookup_finds(self.root_spec(), val);
        }
        match &self.root {
            Some(b) => {
                match node_get(&**b, val) {
                    Some(_) => WeakRef { target: Some(val) },
                    None => WeakRef { target: None },
                }
            }
            None => WeakRef { target: None },
        }
    }
}

/// The number of nodes of the subtree rooted at `n`.
fn count_nodes(n: &TreeNode) -> (c: usize)
    requires
        node_count(*n) <= usize::MAX,
    ensures
        c == node_count(*n),
    decreases *n,
{
    let lc: usize = match &n.left {
        None => 0,
        Some(l) => count_nodes(&**l),
    };
    let rc: usize = match &n.right {
        None => 0,
        Some(r2) => count_nodes(&**r2),
    };
    1 + lc + rc
}

/// Whether `n` is an ordered tree all of whose values lie strictly inside
/// the open interval `(lo, hi)`.
fn check_range(n: &TreeNode, lo: Option<i64>, hi: Option<i64>) -> (r: bool)
    ensures
        r == (node_ordered(*n) && set_in_bounds(node_values(*n), lo, hi)),
    decreases *n,
{
    proof {
        assert(node_values(*n).contains(n.value));
    }
    let lo_ok = match lo {
        None => true,
        Some(l) => l < n.value,
    };
    let hi_ok = match hi {
        None => true,
        Some(h) => n.value < h,
    };
    if !lo_ok || !hi_ok {
        return false;
    }
    let left_ok = match &n.left {
        None => true,
        Some(l) => check_range(&**l, lo, Some(n.value)),
    };
    if !left_ok {
        proof {
            if node_ordered(*n) && set_in_bounds(node_values(*n), lo, hi) {
                assert forall |x: i64| opt_values(n.left).contains(x) implies
                    above(lo, x) && below(Some(n.value), x) by {
                    assert(node_values(*n).contains(x));
                }
            }
        }
        return false;
    }
    let right_ok = match &n.right {
        None => true,
        Some(r2) => check_range(&**r2, Some(n.value), hi),
    };
    proof {
        if node_ordered(*n) && set_in_bounds(node_values(*n), lo, hi) {
            assert forall |x: i64| opt_values(n.right).contains(x) implies
                above(Some(n.value), x) && below(hi, x) by {
                assert(node_values(*n).contains(x));
            }
        }
        if left_ok && right_ok {
            assert forall |x: i64| node_values(*n).contains(x) implies
                above(lo, x) && below(hi, x) by {
                if opt_values(n.left).contains(x) {
                } else if opt_values(n.right).contains(x) {
                } else {
                    assert(x == n.value);
                }
            }
        }
    }
    right_ok
}

/// Attach the whole node `new_node` at the wedge point its root value
/// determines below `node`, when doing so keeps the ordering; `(lo, hi)`
/// brackets the values below `node` and the wedge value.
fn attach_from(node: &mut Option<Box<TreeNode>>, new_node: TreeNode, lo: Option<i64>, hi: Option<i64>) -> (r: bool)
    requires
        opt_ordered(*old(node)),
        set_in_bounds(opt_values(*old(node)), lo, hi),
        above(lo, new_node.value),
        below(hi, new_node.value),
    ensures
        opt_ordered(*final(node)),
        set_in_bounds(opt_values(*final(node)), lo, hi),
        r == (node_ordered(new_node) && set_in_bounds(node_values(new_node), lo, hi)
            && fits_beside(opt_values(*old(node)), new_node)),
        r ==> opt_values(*final(node)) =~= opt_values(*old(node)).union(node_values(new_node)),
        r ==> *final(node) == opt_attach_spec(*old(node), new_node),
        !r ==> *final(node) == *old(node),
        opt_count(*final(node)) == opt_count(*old(node)) + (if r { node_count(new_node) } else { 0nat }),
    decreases *old(node),
{
    match node.take() {
        None => {
            let ok = check_range(&new_node, lo, hi);
            if ok {
                *node = Some(Box::new(new_node));
                true
            } else {
                *node = None;
                false
            }
        }
        Some(mut b) => {
            let ghost b0 = *b;
            proof {
                assert(node_values(b0).contains(b0.value));
                if node_ordered(new_node) {
                    lemma_ordered_bounds(new_node);
                }
            }
            if new_node.value == b.value {
                proof {
                    if node_ordered(new_node) && fits_beside(opt_values(*old(node)), new_node) {
                        assert(node_values(new_node).contains(new_node.value));
                        assert(b0.value < node_min(new_node) || node_max(new_node) < b0.value);
                        assert(false);
                    }
                }
                *node = Some(b);
                false
            } else if new_node.value < b.value {
                proof {
                    assert forall |x: i64| opt_values(b0.left).contains(x) implies
                        above(lo, x) && below(Some(b0.value), x) by {
                        assert(node_values(b0).contains(x));
                    }
                }
                let r = attach_from(&mut b.left, new_node, lo, Some(b.value));
                proof {
                    assert(node_values(new_node).contains(new_node.value));
                    if r {
                        // the whole span of the attached node sits below this
                        // node's value, so it fits beside every stored value
                        assert(node_values(new_node).contains(node_max(new_node)));
                        assert(node_max(new_node) < b0.value);
                        assert forall |x: i64| node_values(new_node).contains(x) implies
                            above(lo, x) && below(hi, x) by {
                            assert(x < b0.value);
                            assert(below(hi, b0.value));
                        }
                        assert forall |x: i64| opt_values(*old(node)).contains(x) implies
                            x < node_min(new_node) || node_max(new_node) < x by {
                            if opt_values(b0.left).contains(x) {
                            } else if opt_values(b0.right).contains(x) {
                                assert(x > b0.value);
                            } else {
                                assert(x == b0.value);
                            }
                        }
                    } else {
                        if node_ordered(new_node) && set_in_bounds(node_values(new_node), lo, hi)
                            && fits_beside(opt_values(*old(node)), new_node) {
                            assert(opt_values(*old(node)).contains(b0.value));
                            assert(b0.value < node_min(new_node) || node_max(new_node) < b0.value);
                            assert(node_min(new_node) <= new_node.value);
                            assert(node_max(new_node) < b0.value);
                            assert forall |x: i64| node_values(new_node).contains(x) implies
                                above(lo, x) && below(Some(b0.value), x) by {
                                assert(x <= node_max(new_node));
                            }
                            assert forall |x: i64| opt_values(b0.left).contains(x) implies
                                x < node_min(new_node) || node_max(new_node) < x by {
                                assert(opt_values(*old(node)).contains(x));
                            }
                            assert(false);
                        }
                    }
                }
                *node = Some(b);
                r
            } else {
                proof {
                    assert forall |x: i64| opt_values(b0.right).contains(x) implies
                        above(Some(b0.value), x) && below(hi, x) by {
                        assert(node_values(b0).contains(x));
                    }
                }
                let r = attach_from(&mut b.right, new_node, Some(b.value), hi);
                proof {
                    assert(node_values(new_node).contains(new_node.value));
                    if r {
                        assert(node_values(new_node).contains(node_min(new_node)));
                        assert(b0.value < node_min(new_node));
                        assert forall |x: i64| node_values(new_node).contains(x) implies
                            above(lo, x) && below(hi, x) by {
                            assert(b0.value < x);
                            assert(above(lo, b0.value));
                        }
                        assert forall |x: i64| opt_values(*old(node)).contains(x) implies
                            x < node_min(new_node) || node_max(new_node) < x by {
                            if opt_values(b0.right).contains(x) {
                            } else if opt_values(b0.left).contains(x) {
                                assert(x < b0.value);
                            } else {
                                assert(x == b0.value);
                            }
                        }
                    } else {
                        if node_ordered(new_node) && set_in_bounds(node_values(new_node), lo, hi)
                            && fits_beside(opt_values(*old(node)), new_node) {
                            assert(opt_values(*old(node)).contains(b0.value));
                            assert(b0.value < node_min(new_node) || node_max(new_node) < b0.value);
                            assert(new_node.value <= node_max(new_node));
                            assert(b0.value < node_min(new_node));
                            assert forall |x: i64| node_values(new_node).contains(x) implies
                                above(Some(b0.value), x) && below(hi, x) by {
                                assert(node_min(new_node) <= x);
                            }
                            assert forall |x: i64| opt_values(b0.right).contains(x) implies
                                x < node_min(new_node) || node_max(new_node) < x by {
                                assert(opt_values(*old(node)).contains(x));
                            }
                            assert(false);
                        }
                    }
                }
                *node = Some(b);
                r
            }
        }
    }
}

} // verus!
