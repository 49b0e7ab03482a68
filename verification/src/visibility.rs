//! The visibility resolver: which nodes of the flat tree are currently
//! shown.  A node is visible exactly when every strict ancestor of it is
//! expanded; a collapsed branch hides all of its descendants.
//!
//! The executable resolver is a single left-to-right scan with a
//! suppression threshold, and it is proved here to compute exactly the
//! ancestor-based notion of visibility on every well-shaped tree.

use vstd::prelude::*;

use crate::tree::NodeV;
use crate::tree::TreeNode;
use crate::tree::is_ancestor;
use crate::tree::nodes_of;
use crate::tree::tree_shaped;

verus! {

/// A node is visible when every strict ancestor of it is expanded.
pub open spec fn visible_at(t: Seq<NodeV>, i: int) -> bool {
    &&& 0 <= i < t.len()
    &&& forall|a: int| #[trigger] is_ancestor(t, a, i) ==> t[a].expanded
}

/// The visible indices among the first `n` nodes, ascending.
pub open spec fn visible_prefix(t: Seq<NodeV>, n: int) -> Seq<int>
    decreases n,
{
    if n <= 0 {
        Seq::empty()
    } else if visible_at(t, n - 1) {
        visible_prefix(t, n - 1) + seq![n - 1]
    } else {
        visible_prefix(t, n - 1)
    }
}

/// The indices of all visible nodes, ascending.
pub open spec fn visible_list(t: Seq<NodeV>) -> Seq<int> {
    visible_prefix(t, t.len() as int)
}

pub proof fn lemma_visible_prefix(t: Seq<NodeV>, n: int)
    requires
        0 <= n <= t.len(),
    ensures
        forall|k: int|
            0 <= k < visible_prefix(t, n).len() ==> 0 <= #[trigger] visible_prefix(t, n)[k] < n
                && visible_at(t, visible_prefix(t, n)[k]),
        forall|k1: int, k2: int|
            0 <= k1 < k2 < visible_prefix(t, n).len() ==> visible_prefix(t, n)[k1]
                < visible_prefix(t, n)[k2],
        forall|i: int| 0 <= i < n && visible_at(t, i) ==> visible_prefix(t, n).contains(i),
    decreases n,
{
    if n > 0 {
        lemma_visible_prefix(t, n - 1);
        let s1 = visible_prefix(t, n - 1);
        let s2 = visible_prefix(t, n);
        if visible_at(t, n - 1) {
            assert(s2 == s1 + seq![n - 1]);
            assert(forall|k: int| 0 <= k < s1.len() ==> s2[k] == s1[k]);
            assert(s2[s1.len() as int] == n - 1);
            assert forall|i: int| 0 <= i < n && visible_at(t, i) implies s2.contains(i) by {
                if i < n - 1 {
                    let k = choose|k: int| 0 <= k < s1.len() && s1[k] == i;
                    assert(s2[k] == i);
                } else {
                    assert(s2[s1.len() as int] == i);
                }
            }
        } else {
            assert(s2 == s1);
            assert forall|i: int| 0 <= i < n && visible_at(t, i) implies s2.contains(i) by {
                assert(i != n - 1);
            }
        }
    }
}

/// The visibility law, over any tree and any expand-state assignment: an
/// index stands in the visible list exactly when every strict ancestor of
/// its node is expanded.
pub proof fn lemma_visible_iff_ancestors_expanded(t: Seq<NodeV>, i: int)
    requires
        0 <= i < t.len(),
    ensures
        visible_list(t).contains(i) <==> (forall|a: int|
            #[trigger] is_ancestor(t, a, i) ==> t[a].expanded),
{
    lemma_visible_prefix(t, t.len() as int);
    if visible_list(t).contains(i) {
        let k = choose|k: int| 0 <= k < visible_list(t).len() && visible_list(t)[k] == i;
        assert(visible_at(t, visible_list(t)[k]));
    }
    if forall|a: int| #[trigger] is_ancestor(t, a, i) ==> t[a].expanded {
        assert(visible_at(t, i));
        assert(visible_list(t).contains(i));
    }
}

/// The position of visible node `sel` in the visible order.
pub open spec fn visible_pos(t: Seq<NodeV>, sel: int) -> int {
    choose|k: int| 0 <= k < visible_list(t).len() && visible_list(t)[k] == sel
}

pub proof fn lemma_visible_pos(t: Seq<NodeV>, sel: int)
    requires
        visible_at(t, sel),
    ensures
        0 <= visible_pos(t, sel) < visible_list(t).len(),
        visible_list(t)[visible_pos(t, sel)] == sel,
        forall|k: int|
            0 <= k < visible_list(t).len() && visible_list(t)[k] == sel ==> k == visible_pos(
                t,
                sel,
            ),
{
    lemma_visible_prefix(t, t.len() as int);
    assert(visible_list(t).contains(sel));
    assert(exists|k: int| 0 <= k < visible_list(t).len() && visible_list(t)[k] == sel);
    let p = visible_pos(t, sel);
    assert(0 <= p < visible_list(t).len() && visible_list(t)[p] == sel);
    assert forall|k: int|
        0 <= k < visible_list(t).len() && visible_list(t)[k] == sel implies k == p by {
        if k < p {
            assert(visible_list(t)[k] < visible_list(t)[p]);
        }
        if p < k {
            assert(visible_list(t)[p] < visible_list(t)[k]);
        }
    }
}

/// The suppression threshold the scan carries after the first `n` nodes:
/// set to a depth while the scan stands inside a collapsed branch.
pub open spec fn scan_state(t: Seq<NodeV>, n: int) -> Option<nat>
    decreases n,
{
    if n <= 0 {
        Option::None
    } else {
        scan_step(scan_state(t, n - 1), t[n - 1])
    }
}

pub open spec fn scan_step(st: Option<nat>, node: NodeV) -> Option<nat> {
    match st {
        Option::Some(d) => if node.depth > d {
            Option::Some(d)
        } else {
            scan_emit(node)
        },
        Option::None => scan_emit(node),
    }
}

/// The threshold an emitted node leaves behind: its own depth when it is a
/// collapsed container, nothing otherwise.
pub open spec fn scan_emit(node: NodeV) -> Option<nat> {
    if node.value.is_container() && !node.expanded {
        Option::Some(node.depth)
    } else {
        Option::None
    }
}

/// Whether the scan emits node `i`.
pub open spec fn scan_emits(t: Seq<NodeV>, i: int) -> bool {
    match scan_state(t, i) {
        Option::Some(d) => t[i].depth <= d,
        Option::None => true,
    }
}

/// `a` blocks the positions after it up to `n`: it is a visible collapsed
/// container and everything strictly between `a` and `n` lies deeper.
spec fn blocking(t: Seq<NodeV>, a: int, n: int) -> bool {
    &&& 0 <= a < n <= t.len()
    &&& t[a].value.is_container()
    &&& !t[a].expanded
    &&& visible_at(t, a)
    &&& forall|k: int| a < k < n ==> (#[trigger] t[k].depth) > t[a].depth
}

proof fn lemma_ancestor_transitive(t: Seq<NodeV>, b: int, a: int, i: int)
    requires
        is_ancestor(t, b, a),
        is_ancestor(t, a, i),
    ensures
        is_ancestor(t, b, i),
{
    assert forall|k: int| b < k <= i implies (#[trigger] t[k].depth) > t[b].depth by {
        if k <= a {
        } else {
            assert(t[k].depth > t[a].depth);
            assert(t[a].depth > t[b].depth);
        }
    }
}

proof fn lemma_blocking_unique(t: Seq<NodeV>, a1: int, a2: int, n: int)
    requires
        blocking(t, a1, n),
        blocking(t, a2, n),
    ensures
        a1 == a2,
{
    if a1 < a2 {
        assert forall|k: int| a1 < k <= a2 implies (#[trigger] t[k].depth) > t[a1].depth by {}
        assert(is_ancestor(t, a1, a2));
        assert(!visible_at(t, a2));
    }
    if a2 < a1 {
        assert forall|k: int| a2 < k <= a1 implies (#[trigger] t[k].depth) > t[a2].depth by {}
        assert(is_ancestor(t, a2, a1));
        assert(!visible_at(t, a1));
    }
}

proof fn lemma_least_collapsed_ancestor(t: Seq<NodeV>, i: int, a: int)
    requires
        is_ancestor(t, a, i),
        !t[a].expanded,
    ensures
        exists|a0: int|
            (#[trigger] is_ancestor(t, a0, i)) && !t[a0].expanded && (forall|b: int|
                0 <= b < a0 ==> !((#[trigger] is_ancestor(t, b, i)) && !t[b].expanded)),
    decreases a,
{
    if exists|b: int| 0 <= b < a && (#[trigger] is_ancestor(t, b, i)) && !t[b].expanded {
        let b = choose|b: int| 0 <= b < a && (#[trigger] is_ancestor(t, b, i)) && !t[b].expanded;
        lemma_least_collapsed_ancestor(t, i, b);
    } else {
        assert(is_ancestor(t, a, i) && !t[a].expanded && (forall|b: int|
            0 <= b < a ==> !((#[trigger] is_ancestor(t, b, i)) && !t[b].expanded)));
    }
}

/// An invisible node is blocked: its shallowest collapsed ancestor is
/// itself visible, is a collapsed container, and everything between it and
/// the node lies deeper.
proof fn lemma_blocked_when_invisible(t: Seq<NodeV>, i: int)
    requires
        tree_shaped(t),
        0 <= i < t.len(),
        !visible_at(t, i),
    ensures
        exists|a: int| (#[trigger] blocking(t, a, i)) && is_ancestor(t, a, i),
{
    let a_any = choose|a: int| (#[trigger] is_ancestor(t, a, i)) && !t[a].expanded;
    assert(is_ancestor(t, a_any, i) && !t[a_any].expanded);
    lemma_least_collapsed_ancestor(t, i, a_any);
    let a0 = choose|a0: int|
        (#[trigger] is_ancestor(t, a0, i)) && !t[a0].expanded && (forall|b: int|
            0 <= b < a0 ==> !((#[trigger] is_ancestor(t, b, i)) && !t[b].expanded));
    // a0 is a container: it is directly followed by something deeper.
    assert(t[a0 + 1].depth > t[a0].depth);
    assert(t[a0].value.is_container());
    // a0 is itself visible: each of its ancestors is a shallower ancestor
    // of i, hence expanded by the choice of a0.
    assert forall|b: int| #[trigger] is_ancestor(t, b, a0) implies t[b].expanded by {
        lemma_ancestor_transitive(t, b, a0, i);
    }
    assert(blocking(t, a0, i) && is_ancestor(t, a0, i));
}

/// The meaning of the scan threshold: after `n` nodes it carries depth `d`
/// exactly when some node blocks position `n` at depth `d`.
proof fn lemma_scan_char(t: Seq<NodeV>, n: int)
    requires
        tree_shaped(t),
        0 <= n <= t.len(),
    ensures
        match scan_state(t, n) {
            Option::Some(d) => exists|a: int| (#[trigger] blocking(t, a, n)) && t[a].depth == d,
            Option::None => forall|a: int| !(#[trigger] blocking(t, a, n)),
        },
    decreases n, 0int,
{
    if n > 0 {
        let i = n - 1;
        lemma_scan_char(t, i);
        lemma_scan_emits_iff_visible(t, i);
        let st = scan_state(t, i);
        match st {
            Option::Some(d0) => {
                let a0 = choose|a: int| (#[trigger] blocking(t, a, i)) && t[a].depth == d0;
                if t[i].depth > d0 {
                    // Still inside the collapsed branch: the same node blocks.
                    assert(scan_state(t, n) == Option::Some(d0));
                    assert forall|k: int| a0 < k < n implies (#[trigger] t[k].depth)
                        > t[a0].depth by {}
                    assert(blocking(t, a0, n) && t[a0].depth == d0);
                } else {
                    // The branch ended; node i was emitted and is visible.
                    assert(scan_emits(t, i));
                    assert(visible_at(t, i));
                    lemma_scan_char_emit(t, n, a0);
                }
            },
            Option::None => {
                assert(scan_emits(t, i));
                assert(visible_at(t, i));
                if t[i].value.is_container() && !t[i].expanded {
                    assert(scan_state(t, n) == Option::Some(t[i].depth));
                    assert(blocking(t, i, n) && t[i].depth == t[i].depth);
                } else {
                    assert(scan_state(t, n) is None);
                    assert forall|a: int| !(#[trigger] blocking(t, a, n)) by {
                        if blocking(t, a, n) {
                            assert(a != i);
                            assert(forall|k: int| a < k < i ==> (#[trigger] t[k].depth)
                                > t[a].depth);
                            assert(blocking(t, a, i));
                        }
                    }
                }
            },
        }
    }
}

/// The step case of `lemma_scan_char` where node `n - 1` ends a collapsed
/// branch blocked by `a0` and is emitted.
proof fn lemma_scan_char_emit(t: Seq<NodeV>, n: int, a0: int)
    requires
        tree_shaped(t),
        1 <= n <= t.len(),
        blocking(t, a0, n - 1),
        t[n - 1].depth <= t[a0].depth,
        visible_at(t, n - 1),
        scan_state(t, n) == scan_emit(t[n - 1]),
    ensures
        match scan_state(t, n) {
            Option::Some(d) => exists|a: int| (#[trigger] blocking(t, a, n)) && t[a].depth == d,
            Option::None => forall|a: int| !(#[trigger] blocking(t, a, n)),
        },
{
    let i = n - 1;
    if t[i].value.is_container() && !t[i].expanded {
        assert(scan_state(t, n) == Option::Some(t[i].depth));
        assert(blocking(t, i, n) && t[i].depth == t[i].depth);
    } else {
        assert(scan_state(t, n) is None);
        assert forall|a: int| !(#[trigger] blocking(t, a, n)) by {
            if blocking(t, a, n) {
                assert(a != i);
                assert(forall|k: int| a < k < i ==> (#[trigger] t[k].depth) > t[a].depth);
                assert(blocking(t, a, i));
                lemma_blocking_unique(t, a, a0, i);
                assert(t[i].depth > t[a].depth);
            }
        }
    }
}

/// The single-pass scan agrees with the ancestor-based notion: a node is
/// emitted exactly when every strict ancestor of it is expanded.
pub proof fn lemma_scan_emits_iff_visible(t: Seq<NodeV>, i: int)
    requires
        tree_shaped(t),
        0 <= i < t.len(),
    ensures
        scan_emits(t, i) <==> visible_at(t, i),
    decreases i, 1int,
{
    lemma_scan_char(t, i);
    match scan_state(t, i) {
        Option::Some(d) => {
            let a = choose|a: int| (#[trigger] blocking(t, a, i)) && t[a].depth == d;
            if t[i].depth > d {
                // Suppressed, and indeed invisible: `a` is a collapsed
                // strict ancestor.
                assert forall|k: int| a < k <= i implies (#[trigger] t[k].depth) > t[a].depth by {}
                assert(is_ancestor(t, a, i));
                assert(!visible_at(t, i));
            } else {
                // Emitted, and indeed visible: every ancestor of `i` sits
                // at or before `a` and is an expanded ancestor of `a`.
                assert forall|b: int| #[trigger] is_ancestor(t, b, i) implies t[b].expanded by {
                    assert(t[i].depth > t[b].depth);
                    if b == a {
                        assert(t[i].depth > t[a].depth);
                        assert(false);
                    } else if a < b {
                        assert(t[b].depth > t[a].depth);
                        assert(t[i].depth > t[b].depth);
                        assert(false);
                    } else {
                        assert forall|k: int| b < k <= a implies (#[trigger] t[k].depth)
                            > t[b].depth by {}
                        assert(is_ancestor(t, b, a));
                        assert(visible_at(t, a));
                    }
                }
                assert(visible_at(t, i));
            }
        },
        Option::None => {
            assert(scan_emits(t, i));
            if !visible_at(t, i) {
                lemma_blocked_when_invisible(t, i);
                let a = choose|a: int| (#[trigger] blocking(t, a, i)) && is_ancestor(t, a, i);
                assert(blocking(t, a, i));
                assert(false);
            }
        },
    }
}

/// Computes the indices of the visible nodes, in ascending order: exactly
/// those whose strict ancestors are all expanded.  A single left-to-right
/// scan; a collapsed container suppresses every following node lying
/// strictly deeper than it.
pub fn visible_indices(tree: &Vec<TreeNode>) -> (r: Vec<usize>)
    requires
        tree_shaped(nodes_of(tree@)),
    ensures
        ({
            let t = nodes_of(tree@);
            &&& r@.len() == visible_list(t).len()
            &&& forall|k: int| 0 <= k < r@.len() ==> #[trigger] r@[k] as int == visible_list(t)[k]
            &&& forall|k: int|
                0 <= k < r@.len() ==> visible_at(t, #[trigger] r@[k] as int) && r@[k] < tree@.len()
            &&& forall|k1: int, k2: int| 0 <= k1 < k2 < r@.len() ==> r@[k1] < r@[k2]
            &&& forall|i: int|
                0 <= i < t.len() && #[trigger] visible_at(t, i) ==> exists|k: int|
                    0 <= k < r@.len() && #[trigger] r@[k] as int == i
        }),
{
    let ghost t = nodes_of(tree@);
    let total = tree.len();
    let mut r: Vec<usize> = Vec::new();
    let mut skip: Option<usize> = Option::None;
    for n in 0..total
        invariant
            total == tree@.len(),
            t == nodes_of(tree@),
            tree_shaped(t),
            (match (skip, scan_state(t, n as int)) {
                (Option::Some(d), Option::Some(dd)) => d as nat == dd,
                (Option::None, Option::None) => true,
                _ => false,
            }),
            r@.map_values(|u: usize| u as int) == visible_prefix(t, n as int),
    {
        proof {
            lemma_scan_emits_iff_visible(t, n as int);
            assert(t[n as int] == tree@[n as int]@);
        }
        let node_depth = tree[n].depth;
        let mut emit = true;
        match skip {
            Option::Some(d) => {
                if node_depth > d {
                    emit = false;
                } else {
                    skip = Option::None;
                }
            },
            Option::None => {},
        }
        if emit {
            r.push(n);
            if tree[n].value.is_container() && !tree[n].expanded {
                skip = Option::Some(node_depth);
            }
            proof {
                assert(scan_emits(t, n as int));
                assert(visible_at(t, n as int));
                assert(r@.map_values(|u: usize| u as int) =~= visible_prefix(t, n as int)
                    + seq![n as int]);
                assert(visible_prefix(t, n as int + 1) == visible_prefix(t, n as int) + seq![
                    n as int,
                ]);
                assert(scan_state(t, n as int + 1) == scan_emit(t[n as int]));
            }
        } else {
            proof {
                assert(!scan_emits(t, n as int));
                assert(!visible_at(t, n as int));
                assert(visible_prefix(t, n as int + 1) == visible_prefix(t, n as int));
                assert(scan_state(t, n as int + 1) == scan_state(t, n as int));
            }
        }
    }
    proof {
        lemma_visible_prefix(t, total as int);
        let vm = r@.map_values(|u: usize| u as int);
        assert(vm == visible_list(t));
        assert(forall|k: int| 0 <= k < r@.len() ==> #[trigger] r@[k] as int == vm[k]);
        assert forall|i: int|
            0 <= i < t.len() && #[trigger] visible_at(t, i) implies exists|k: int|
            0 <= k < r@.len() && #[trigger] r@[k] as int == i by {
            assert(visible_list(t).contains(i));
            let k = choose|k: int| 0 <= k < visible_list(t).len() && visible_list(t)[k] == i;
            assert(r@[k] as int == i);
        }
    }
    r
}

} // verus!
