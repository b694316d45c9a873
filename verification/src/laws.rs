use vstd::prelude::*;
use crate::node::{
    TreeNode, node_count, node_in_order, node_insert_spec, node_lookup, node_ordered,
    node_values, opt_count, opt_in_order, opt_lookup, opt_ordered, opt_values,
};

verus! {

/// Each entry of the listing is strictly below every later one.
pub open spec fn strictly_ascending(s: Seq<i64>) -> bool {
    forall |i: int, j: int| 0 <= i < j < s.len() ==> s[i] < s[j]
}

/// Find after insert, and find miss: in an ordered tree the walk that
/// descends by comparison reaches a node exactly when the value is stored,
/// and the node it reaches holds that very value.  So a search for a value
/// just inserted succeeds, and a search for a value never inserted reports
/// an absent reference.
pub proof fn lemma_lookup_finds(n: TreeNode, v: i64)
    requires
        node_ordered(n),
    ensures
        node_lookup(n, v) is Some <==> node_values(n).contains(v),
        node_lookup(n, v) matches Some(m) ==>
            m.value == v && node_ordered(m) && node_values(m).subset_of(node_values(n)),
    decreases n,
{
    if v == n.value {
        assert(node_values(n).contains(v));
    } else if v < n.value {
        assert(!opt_values(n.right).contains(v));
        match n.left {
            None => {
                assert(!node_values(n).contains(v));
            }
            Some(l) => {
                lemma_lookup_finds(*l, v);
                assert(opt_lookup(n.left, v) == node_lookup(*l, v));
                assert(node_lookup(*l, v) is Some <==> opt_values(n.left).contains(v));
            }
        }
    } else {
        assert(!opt_values(n.left).contains(v));
        match n.right {
            None => {
                assert(!node_values(n).contains(v));
            }
            Some(r) => {
                lemma_lookup_finds(*r, v);
            }
        }
    }
}

/// The in-order listing of an optional subtree has one entry per node, and
/// every entry is a stored value.
pub proof fn lemma_opt_in_order_values(o: Option<Box<TreeNode>>)
    ensures
        opt_in_order(o).len() == opt_count(o),
        forall |i: int| 0 <= i < opt_in_order(o).len() ==>
            opt_values(o).contains(opt_in_order(o)[i]),
    decreases o,
{
    match o {
        None => {}
        Some(n) => {
            lemma_in_order_values(*n);
        }
    }
}

/// The in-order listing of a subtree has one entry per node, and every
/// entry is a stored value.
pub proof fn lemma_in_order_values(n: TreeNode)
    ensures
        node_in_order(n).len() == node_count(n),
        forall |i: int| 0 <= i < node_in_order(n).len() ==>
            node_values(n).contains(node_in_order(n)[i]),
    decreases n,
{
    lemma_opt_in_order_values(n.left);
    lemma_opt_in_order_values(n.right);
    let s = node_in_order(n);
    let ll = opt_in_order(n.left).len() as int;
    assert forall |i: int| 0 <= i < s.len() implies node_values(n).contains(s[i]) by {
        if i < ll {
            assert(s[i] == opt_in_order(n.left)[i]);
            assert(opt_values(n.left).contains(s[i]));
        } else if i == ll {
            assert(s[i] == n.value);
        } else {
            assert(s[i] == opt_in_order(n.right)[i - ll - 1]);
            assert(opt_values(n.right).contains(s[i]));
        }
    }
}

/// Ordering invariant, seen through traversal: under the search-tree
/// discipline that every tree operation preserves, the in-order listing of
/// the tree is strictly increasing — every value in a node's left subtree
/// is below its value, and every value in its right subtree above it, at
/// every node at once.
pub proof fn lemma_ordered_in_order_ascending(n: TreeNode)
    requires
        node_ordered(n),
    ensures
        strictly_ascending(node_in_order(n)),
    decreases n,
{
    lemma_opt_in_order_values(n.left);
    lemma_opt_in_order_values(n.right);
    match n.left {
        None => {}
        Some(l) => {
            lemma_ordered_in_order_ascending(*l);
        }
    }
    match n.right {
        None => {}
        Some(r) => {
            lemma_ordered_in_order_ascending(*r);
        }
    }
    let s = node_in_order(n);
    let ll = opt_in_order(n.left).len() as int;
    assert forall |i: int, j: int| 0 <= i < j < s.len() implies s[i] < s[j] by {
        if i < ll {
            assert(s[i] == opt_in_order(n.left)[i]);
            assert(opt_values(n.left).contains(s[i]));
            assert(s[i] < n.value);
        }
        if j < ll {
            assert(s[j] == opt_in_order(n.left)[j]);
        }
        if i == ll {
            assert(s[i] == n.value);
        }
        if j == ll {
            assert(s[j] == n.value);
        }
        if i > ll {
            assert(s[i] == opt_in_order(n.right)[i - ll - 1]);
            assert(opt_values(n.right).contains(s[i]));
            assert(n.value < s[i]);
        }
        if j > ll {
            assert(s[j] == opt_in_order(n.right)[j - ll - 1]);
            assert(opt_values(n.right).contains(s[j]));
            assert(n.value < s[j]);
        }
    }
}

/// No duplicates: the value set an insertion produces always contains the
/// inserted value, so by the insertion contract a second insertion of the
/// same value reports false and leaves the structure untouched.
pub proof fn lemma_second_insert_rejected(s: Set<i64>, v: i64)
    ensures
        s.insert(v).contains(v),
{
}

/// No duplicates, structurally: inserting a value an ordered tree already
/// stores is the identity — not one node moves.
pub proof fn lemma_insert_present_unchanged(n: TreeNode, v: i64)
    requires
        node_ordered(n),
        node_values(n).contains(v),
    ensures
        node_insert_spec(n, v) == n,
    decreases n,
{
    if v == n.value {
    } else if v < n.value {
        assert(!opt_values(n.right).contains(v));
        match n.left {
            None => {
                assert(!node_values(n).contains(v));
            }
            Some(l) => {
                lemma_insert_present_unchanged(*l, v);
            }
        }
    } else {
        assert(!opt_values(n.left).contains(v));
        match n.right {
            None => {
                assert(!node_values(n).contains(v));
            }
            Some(r) => {
                lemma_insert_present_unchanged(*r, v);
            }
        }
    }
}

/// Remove round-trip: removing `v` after inserting it leaves a value set
/// without `v`, so by the find contract a subsequent search for `v`
/// reports an absent reference.
pub proof fn lemma_insert_remove_round_trip(s: Set<i64>, v: i64)
    ensures
        !s.insert(v).remove(v).contains(v),
{
}

/// Stale reference safety: a removal leaves the removed value out of the
/// value set, so by the upgrade contract an observational link to the
/// removed node afterwards upgrades to nothing, never to a stale node.
pub proof fn lemma_stale_link_absent(s: Set<i64>, v: i64)
    ensures
        !s.remove(v).contains(v),
{
}

} // verus!
