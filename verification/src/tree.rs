//! The tree builder: flattening a document into an ordered sequence of
//! nodes.  The flat sequence is exactly the pre-order traversal of the
//! value: a parent comes before all of its descendants, and a node's
//! descendants occupy a contiguous run immediately after it.

use vstd::prelude::*;
use vstd::string::StringExecFns;

use crate::value::Json;
use crate::value::JsonV;
use crate::value::arr_view;
use crate::value::obj_view;
use crate::value::json_view;
use crate::value::json_clone;
use crate::value::lemma_arr_view;
use crate::value::lemma_obj_view;

verus! {

/// One entry in the pre-order flattening of a document.
pub struct TreeNode {
    /// Field name, `[i]` for an array element at index `i`, empty for the
    /// root.
    pub key: String,
    /// A copy of the value this node stands for.
    pub value: Json,
    /// Whether the node's children are shown; meaningful for containers
    /// only.
    pub expanded: bool,
    /// Distance from the root; the root itself is at 0.
    pub depth: usize,
    /// Dotted/bracketed locator of the node, informational only.
    pub path: String,
}

/// The mathematical model of a tree node.
#[verifier::ext_equal]
pub struct NodeV {
    pub key: Seq<char>,
    pub value: JsonV,
    pub expanded: bool,
    pub depth: nat,
    pub path: Seq<char>,
}

impl View for TreeNode {
    type V = NodeV;

    open spec fn view(&self) -> NodeV {
        NodeV {
            key: self.key@,
            value: self.value@,
            expanded: self.expanded,
            depth: self.depth as nat,
            path: self.path@,
        }
    }
}

/// The models of a vector of nodes, in order.
pub open spec fn nodes_of(t: Seq<TreeNode>) -> Seq<NodeV> {
    t.map_values(|n: TreeNode| n@)
}

/// The fixed expand heuristic: the first two levels of a fresh tree start
/// open, everything deeper starts collapsed.
pub open spec fn auto_expanded(depth: nat) -> bool {
    depth < 2
}

pub open spec fn digit_char(d: nat) -> char {
    if d == 0 {
        '0'
    } else if d == 1 {
        '1'
    } else if d == 2 {
        '2'
    } else if d == 3 {
        '3'
    } else if d == 4 {
        '4'
    } else if d == 5 {
        '5'
    } else if d == 6 {
        '6'
    } else if d == 7 {
        '7'
    } else if d == 8 {
        '8'
    } else {
        '9'
    }
}

/// The decimal digits of `n`, most significant first.
pub open spec fn dec_digits(n: nat) -> Seq<char>
    decreases n,
{
    if n < 10 {
        seq![digit_char(n)]
    } else {
        dec_digits(n / 10) + seq![digit_char(n % 10)]
    }
}

/// The key under which an array element at index `i` is shown: `[i]`.
pub open spec fn index_key(i: nat) -> Seq<char> {
    seq!['['] + dec_digits(i) + seq![']']
}

/// The path of an object member named `name` under a parent at
/// `parent_depth`: just the name directly under the root, dotted otherwise.
pub open spec fn member_path(parent_path: Seq<char>, parent_depth: nat, name: Seq<char>) -> Seq<
    char,
> {
    if parent_depth == 0 {
        name
    } else {
        parent_path + "."@ + name
    }
}

/// The path of an array element at index `i` under a parent at
/// `parent_depth`.
pub open spec fn element_path(parent_path: Seq<char>, parent_depth: nat, i: nat) -> Seq<char> {
    if parent_depth == 0 {
        index_key(i)
    } else {
        parent_path + index_key(i)
    }
}

/// The pre-order flattening of value `j`, standing under `key` at `depth`
/// with locator `path`: the node itself, then the flattenings of its
/// children in order.
pub open spec fn flat_nodes(j: JsonV, key: Seq<char>, depth: nat, path: Seq<char>) -> Seq<NodeV>
    decreases j, 1int, 0int,
{
    let node = NodeV { key, value: j, expanded: auto_expanded(depth), depth, path };
    match j {
        JsonV::Arr(elems) => seq![node] + arr_nodes(elems, 0, depth, path),
        JsonV::Obj(entries) => seq![node] + obj_nodes(entries, 0, depth, path),
        _ => seq![node],
    }
}

/// The flattenings of the array elements `elems[i..]` under a parent at
/// `parent_depth` with locator `path`, concatenated in order.
pub open spec fn arr_nodes(elems: Seq<JsonV>, i: int, parent_depth: nat, path: Seq<char>) -> Seq<
    NodeV,
>
    decreases elems, 0int, elems.len() - i,
{
    if i < 0 || i >= elems.len() {
        Seq::empty()
    } else {
        flat_nodes(
            elems[i],
            index_key(i as nat),
            parent_depth + 1,
            element_path(path, parent_depth, i as nat),
        ) + arr_nodes(elems, i + 1, parent_depth, path)
    }
}

/// The flattenings of the object entries `entries[i..]` under a parent at
/// `parent_depth` with locator `path`, concatenated in order.
pub open spec fn obj_nodes(
    entries: Seq<(Seq<char>, JsonV)>,
    i: int,
    parent_depth: nat,
    path: Seq<char>,
) -> Seq<NodeV>
    decreases entries, 0int, entries.len() - i,
{
    if i < 0 || i >= entries.len() {
        Seq::empty()
    } else {
        flat_nodes(
            entries[i].1,
            entries[i].0,
            parent_depth + 1,
            member_path(path, parent_depth, entries[i].0),
        ) + obj_nodes(entries, i + 1, parent_depth, path)
    }
}

fn digit_str(d: usize) -> (r: &'static str)
    requires
        d < 10,
    ensures
        r@ == seq![digit_char(d as nat)],
{
    proof {
        reveal_strlit("0");
        reveal_strlit("1");
        reveal_strlit("2");
        reveal_strlit("3");
        reveal_strlit("4");
        reveal_strlit("5");
        reveal_strlit("6");
        reveal_strlit("7");
        reveal_strlit("8");
        reveal_strlit("9");
    }
    let r: &'static str = if d == 0 {
        "0"
    } else if d == 1 {
        "1"
    } else if d == 2 {
        "2"
    } else if d == 3 {
        "3"
    } else if d == 4 {
        "4"
    } else if d == 5 {
        "5"
    } else if d == 6 {
        "6"
    } else if d == 7 {
        "7"
    } else if d == 8 {
        "8"
    } else {
        "9"
    };
    proof {
        assert(r@ =~= seq![digit_char(d as nat)]);
    }
    r
}

/// The decimal rendering of `n`.
fn digits_string(n: usize) -> (r: String)
    ensures
        r@ == dec_digits(n as nat),
    decreases n,
{
    if n < 10 {
        digit_str(n).to_owned()
    } else {
        proof {
            assert(n as int / 10 < n as int) by (nonlinear_arith)
                requires
                    n >= 10,
            ;
        }
        let mut s = digits_string(n / 10);
        s.append(digit_str(n % 10));
        s
    }
}

/// The rendered key of an array element: `[i]`.
fn array_key(i: usize) -> (r: String)
    ensures
        r@ == index_key(i as nat),
{
    proof {
        reveal_strlit("[");
        reveal_strlit("]");
    }
    let mut s = "[".to_owned();
    let ds = digits_string(i);
    s.append(ds.as_str());
    s.append("]");
    proof {
        assert(s@ =~= index_key(i as nat));
    }
    s
}

fn member_path_exec(parent_path: &str, parent_depth: usize, name: &str) -> (r: String)
    ensures
        r@ == member_path(parent_path@, parent_depth as nat, name@),
{
    if parent_depth == 0 {
        name.to_owned()
    } else {
        let mut s = parent_path.to_owned();
        s.append(".");
        s.append(name);
        proof {
            assert(s@ =~= parent_path@ + "."@ + name@);
        }
        s
    }
}

fn element_path_exec(parent_path: &str, parent_depth: usize, i: usize) -> (r: String)
    ensures
        r@ == element_path(parent_path@, parent_depth as nat, i as nat),
{
    let k = array_key(i);
    if parent_depth == 0 {
        k
    } else {
        let mut s = parent_path.to_owned();
        s.append(k.as_str());
        s
    }
}

/// Flattens `value` into `out` as the subtree standing under `key` at
/// `depth` with locator `path`, appending to what `out` already holds.
/// `out` must already hold at least one node per strict ancestor, which
/// every pre-order walk guarantees.
fn build_tree_recursive(value: &Json, key: &str, depth: usize, path: &str, out: &mut Vec<TreeNode>)
    requires
        depth <= old(out)@.len(),
    ensures
        nodes_of(final(out)@) == nodes_of(old(out)@) + flat_nodes(
            value@,
            key@,
            depth as nat,
            path@,
        ),
    decreases *value,
{
    let node = TreeNode {
        key: key.to_owned(),
        value: json_clone(value),
        expanded: depth < 2,
        depth,
        path: path.to_owned(),
    };
    let ghost node_v = NodeV {
        key: key@,
        value: value@,
        expanded: auto_expanded(depth as nat),
        depth: depth as nat,
        path: path@,
    };
    out.push(node);
    let ghost done0 = nodes_of(out@);
    proof {
        assert(done0 =~= nodes_of(old(out)@) + seq![node_v]);
    }
    let here = out.len();
    assert(depth < here);
    match value {
        Json::Arr(elems) => {
            let ghost elems_v = arr_view(elems@, 0);
            proof {
                lemma_arr_view(elems@);
            }
            let n = elems.len();
            for i in 0..n
                invariant
                    n == elems.len(),
                    *value == Json::Arr(*elems),
                    elems_v == arr_view(elems@, 0),
                    elems_v.len() == n,
                    depth < usize::MAX,
                    depth + 1 <= out@.len(),
                    nodes_of(out@) + arr_nodes(elems_v, i as int, depth as nat, path@) == done0
                        + arr_nodes(elems_v, 0, depth as nat, path@),
            {
                proof {
                    lemma_arr_view(elems@);
                    assert(decreases_to!(*value => value->Arr_0));
                    assert(decreases_to!(*elems => elems@));
                    assert(decreases_to!(elems@ => elems@[i as int]));
                }
                let child_key = array_key(i);
                let child_path = element_path_exec(path, depth, i);
                let ghost before = nodes_of(out@);
                build_tree_recursive(
                    &elems[i],
                    child_key.as_str(),
                    depth + 1,
                    child_path.as_str(),
                    out,
                );
                proof {
                    let child = flat_nodes(
                        elems_v[i as int],
                        index_key(i as nat),
                        depth as nat + 1,
                        element_path(path@, depth as nat, i as nat),
                    );
                    assert(elems_v[i as int] == json_view(elems@[i as int]));
                    assert(nodes_of(out@) == before + child);
                    assert(arr_nodes(elems_v, i as int, depth as nat, path@) == child + arr_nodes(
                        elems_v,
                        i + 1,
                        depth as nat,
                        path@,
                    ));
                    assert(nodes_of(out@) + arr_nodes(elems_v, i + 1, depth as nat, path@) =~= (
                    before + arr_nodes(elems_v, i as int, depth as nat, path@)));
                }
            }
            proof {
                assert(arr_nodes(elems_v, n as int, depth as nat, path@) =~= Seq::<
                    NodeV,
                >::empty());
                assert(nodes_of(out@) =~= nodes_of(out@) + arr_nodes(
                    elems_v,
                    n as int,
                    depth as nat,
                    path@,
                ));
                assert(flat_nodes(value@, key@, depth as nat, path@) == seq![node_v] + arr_nodes(
                    elems_v,
                    0,
                    depth as nat,
                    path@,
                ));
                assert(nodes_of(out@) =~= nodes_of(old(out)@) + flat_nodes(
                    value@,
                    key@,
                    depth as nat,
                    path@,
                ));
            }
        },
        Json::Obj(entries) => {
            let ghost entries_v = obj_view(entries@, 0);
            proof {
                lemma_obj_view(entries@);
            }
            let n = entries.len();
            for i in 0..n
                invariant
                    n == entries.len(),
                    *value == Json::Obj(*entries),
                    entries_v == obj_view(entries@, 0),
                    entries_v.len() == n,
                    depth < usize::MAX,
                    depth + 1 <= out@.len(),
                    nodes_of(out@) + obj_nodes(entries_v, i as int, depth as nat, path@) == done0
                        + obj_nodes(entries_v, 0, depth as nat, path@),
            {
                proof {
                    lemma_obj_view(entries@);
                    assert(decreases_to!(*value => value->Obj_0));
                    assert(decreases_to!(*entries => entries@));
                    assert(decreases_to!(entries@ => entries@[i as int]));
                    assert(decreases_to!(entries@[i as int] => entries@[i as int].1));
                }
                let child_path = member_path_exec(path, depth, entries[i].0.as_str());
                let ghost before = nodes_of(out@);
                build_tree_recursive(
                    &entries[i].1,
                    entries[i].0.as_str(),
                    depth + 1,
                    child_path.as_str(),
                    out,
                );
                proof {
                    let child = flat_nodes(
                        entries_v[i as int].1,
                        entries_v[i as int].0,
                        depth as nat + 1,
                        member_path(path@, depth as nat, entries_v[i as int].0),
                    );
                    assert(entries_v[i as int] == (
                        entries@[i as int].0@,
                        json_view(entries@[i as int].1),
                    ));
                    assert(nodes_of(out@) == before + child);
                    assert(obj_nodes(entries_v, i as int, depth as nat, path@) == child + obj_nodes(
                        entries_v,
                        i + 1,
                        depth as nat,
                        path@,
                    ));
                    assert(nodes_of(out@) + obj_nodes(entries_v, i + 1, depth as nat, path@) =~= (
                    before + obj_nodes(entries_v, i as int, depth as nat, path@)));
                }
            }
            proof {
                assert(obj_nodes(entries_v, n as int, depth as nat, path@) =~= Seq::<
                    NodeV,
                >::empty());
                assert(nodes_of(out@) =~= nodes_of(out@) + obj_nodes(
                    entries_v,
                    n as int,
                    depth as nat,
                    path@,
                ));
                assert(flat_nodes(value@, key@, depth as nat, path@) == seq![node_v] + obj_nodes(
                    entries_v,
                    0,
                    depth as nat,
                    path@,
                ));
                assert(nodes_of(out@) =~= nodes_of(old(out)@) + flat_nodes(
                    value@,
                    key@,
                    depth as nat,
                    path@,
                ));
            }
        },
        _ => {
            proof {
                assert(flat_nodes(value@, key@, depth as nat, path@) =~= seq![node_v]);
                assert(nodes_of(out@) =~= nodes_of(old(out)@) + flat_nodes(
                    value@,
                    key@,
                    depth as nat,
                    path@,
                ));
            }
        },
    }
}

/// Builds the flat tree of a document: the full pre-order walk from the
/// root, which is keyed by the empty name and labelled `root`.
pub fn build_tree(value: &Json) -> (r: Vec<TreeNode>)
    ensures
        nodes_of(r@) == flat_nodes(value@, ""@, 0, "root"@),
        r@.len() > 0,
{
    let mut out: Vec<TreeNode> = Vec::new();
    build_tree_recursive(value, "", 0, "root", &mut out);
    proof {
        assert(nodes_of(out@) =~= flat_nodes(value@, ""@, 0, "root"@));
        assert(nodes_of(out@).len() == out@.len());
    }
    out
}

/// Shape of a run of flattened sibling subtrees whose roots sit at depth
/// `d`: nothing shallower than `d` occurs, the run opens at `d` if at all,
/// depth never steps up by more than one, only containers are followed by
/// something deeper, and every expand flag is the auto-expand default.
pub open spec fn run_shaped(s: Seq<NodeV>, d: nat) -> bool {
    &&& (forall|i: int| 0 <= i < s.len() ==> d <= #[trigger] s[i].depth)
    &&& (s.len() > 0 ==> s[0].depth == d)
    &&& (forall|i: int| 1 <= i < s.len() ==> #[trigger] s[i].depth <= s[i - 1].depth + 1)
    &&& (forall|i: int|
        0 <= i < s.len() - 1 && (#[trigger] s[i + 1].depth) > s[i].depth
            ==> s[i].value.is_container())
    &&& (forall|i: int|
        0 <= i < s.len() ==> (#[trigger] s[i].expanded) == auto_expanded(s[i].depth))
}

/// Well-shapedness of a whole flat tree: one root at depth 0, every later
/// node strictly deeper, depth stepping up by at most one at a time, and a
/// node followed by a deeper one always a container.  The expand flags are
/// left free: toggling them keeps a tree well-shaped.
pub open spec fn tree_shaped(t: Seq<NodeV>) -> bool {
    &&& (t.len() > 0 ==> t[0].depth == 0)
    &&& (forall|i: int| 1 <= i < t.len() ==> 1 <= #[trigger] t[i].depth <= t[i - 1].depth + 1)
    &&& (forall|i: int|
        0 <= i < t.len() - 1 && (#[trigger] t[i + 1].depth) > t[i].depth
            ==> t[i].value.is_container())
}

proof fn lemma_node_prepend(node: NodeV, rest: Seq<NodeV>, d: nat)
    requires
        node.depth == d,
        node.expanded == auto_expanded(d),
        run_shaped(rest, d + 1),
        rest.len() > 0 ==> node.value.is_container(),
    ensures
        ({
            let s = seq![node] + rest;
            &&& run_shaped(s, d)
            &&& forall|i: int| 1 <= i < s.len() ==> d + 1 <= #[trigger] s[i].depth
        }),
{
    let s = seq![node] + rest;
    assert forall|i: int| 1 <= i < s.len() implies d + 1 <= #[trigger] s[i].depth by {
        assert(s[i] == rest[i - 1]);
    }
    assert forall|i: int| 1 <= i < s.len() implies #[trigger] s[i].depth <= s[i - 1].depth + 1 by {
        assert(s[i] == rest[i - 1]);
        if i > 1 {
            assert(s[i - 1] == rest[i - 2]);
        }
    }
    assert forall|i: int|
        0 <= i < s.len() - 1 && (#[trigger] s[i + 1].depth) > s[i].depth implies s[
        i
    ].value.is_container() by {
        if i == 0 {
            assert(s[0] == node);
            assert(s[1] == rest[0]);
            assert(rest.len() > 0);
        } else {
            let m = i - 1;
            assert(s[i] == rest[m]);
            assert(s[i + 1] == rest[m + 1]);
            assert(rest[m + 1].depth == s[i + 1].depth);
            assert(rest[m].depth == s[i].depth);
        }
    }
    assert forall|i: int|
        0 <= i < s.len() implies (#[trigger] s[i].expanded) == auto_expanded(s[i].depth) by {
        if i > 0 {
            assert(s[i] == rest[i - 1]);
        }
    }
    assert forall|i: int| 0 <= i < s.len() implies d <= #[trigger] s[i].depth by {
        if i > 0 {
            assert(s[i] == rest[i - 1]);
        }
    }
}

proof fn lemma_run_prepend(first: Seq<NodeV>, rest: Seq<NodeV>, d: nat)
    requires
        first.len() > 0,
        run_shaped(first, d),
        forall|i: int| 1 <= i < first.len() ==> d + 1 <= #[trigger] first[i].depth,
        run_shaped(rest, d),
    ensures
        run_shaped(first + rest, d),
{
    let s = first + rest;
    let b = first.len() as int;
    assert forall|i: int| 0 <= i < s.len() implies d <= #[trigger] s[i].depth by {
        if i < b {
            assert(s[i] == first[i]);
        } else {
            assert(s[i] == rest[i - b]);
        }
    }
    assert(s[0] == first[0]);
    assert forall|i: int| 1 <= i < s.len() implies #[trigger] s[i].depth <= s[i - 1].depth + 1 by {
        if i < b {
            assert(s[i] == first[i]);
            assert(s[i - 1] == first[i - 1]);
        } else if i == b {
            assert(s[i] == rest[0]);
            assert(s[i - 1] == first[i - 1]);
        } else {
            assert(s[i] == rest[i - b]);
            assert(s[i - 1] == rest[i - 1 - b]);
        }
    }
    assert forall|i: int|
        0 <= i < s.len() - 1 && (#[trigger] s[i + 1].depth) > s[i].depth implies s[
        i
    ].value.is_container() by {
        if i + 1 < b {
            assert(s[i] == first[i]);
            assert(s[i + 1] == first[i + 1]);
            assert(first[i + 1].depth == s[i + 1].depth);
            assert(first[i].depth == s[i].depth);
        } else if i + 1 == b {
            assert(s[i] == first[i]);
            assert(s[i + 1] == rest[0]);
            assert(s[i + 1].depth == d);
            assert(d <= s[i].depth);
        } else {
            let m = i - b;
            assert(s[i] == rest[m]);
            assert(s[i + 1] == rest[m + 1]);
            assert(rest[m + 1].depth == s[i + 1].depth);
            assert(rest[m].depth == s[i].depth);
        }
    }
    assert forall|i: int|
        0 <= i < s.len() implies (#[trigger] s[i].expanded) == auto_expanded(s[i].depth) by {
        if i < b {
            assert(s[i] == first[i]);
        } else {
            assert(s[i] == rest[i - b]);
        }
    }
}

proof fn lemma_flat_nodes_shaped(j: JsonV, key: Seq<char>, depth: nat, path: Seq<char>)
    ensures
        ({
            let s = flat_nodes(j, key, depth, path);
            &&& s.len() > 0
            &&& s[0] == (NodeV { key, value: j, expanded: auto_expanded(depth), depth, path })
            &&& run_shaped(s, depth)
            &&& forall|i: int| 1 <= i < s.len() ==> depth + 1 <= #[trigger] s[i].depth
        }),
    decreases j, 1int, 0int,
{
    let s = flat_nodes(j, key, depth, path);
    let node = NodeV { key, value: j, expanded: auto_expanded(depth), depth, path };
    match j {
        JsonV::Arr(elems) => {
            lemma_arr_nodes_shaped(elems, 0, depth, path);
            lemma_node_prepend(node, arr_nodes(elems, 0, depth, path), depth);
        },
        JsonV::Obj(entries) => {
            lemma_obj_nodes_shaped(entries, 0, depth, path);
            lemma_node_prepend(node, obj_nodes(entries, 0, depth, path), depth);
        },
        _ => {
            lemma_node_prepend(node, Seq::empty(), depth);
            assert(s =~= seq![node] + Seq::<NodeV>::empty());
        },
    }
}

proof fn lemma_arr_nodes_shaped(elems: Seq<JsonV>, i: int, parent_depth: nat, path: Seq<char>)
    ensures
        run_shaped(arr_nodes(elems, i, parent_depth, path), parent_depth + 1),
    decreases elems, 0int, elems.len() - i,
{
    if 0 <= i < elems.len() {
        lemma_flat_nodes_shaped(
            elems[i],
            index_key(i as nat),
            parent_depth + 1,
            element_path(path, parent_depth, i as nat),
        );
        lemma_arr_nodes_shaped(elems, i + 1, parent_depth, path);
        lemma_run_prepend(
            flat_nodes(
                elems[i],
                index_key(i as nat),
                parent_depth + 1,
                element_path(path, parent_depth, i as nat),
            ),
            arr_nodes(elems, i + 1, parent_depth, path),
            parent_depth + 1,
        );
    }
}

proof fn lemma_obj_nodes_shaped(
    entries: Seq<(Seq<char>, JsonV)>,
    i: int,
    parent_depth: nat,
    path: Seq<char>,
)
    ensures
        run_shaped(obj_nodes(entries, i, parent_depth, path), parent_depth + 1),
    decreases entries, 0int, entries.len() - i,
{
    if 0 <= i < entries.len() {
        lemma_flat_nodes_shaped(
            entries[i].1,
            entries[i].0,
            parent_depth + 1,
            member_path(path, parent_depth, entries[i].0),
        );
        lemma_obj_nodes_shaped(entries, i + 1, parent_depth, path);
        lemma_run_prepend(
            flat_nodes(
                entries[i].1,
                entries[i].0,
                parent_depth + 1,
                member_path(path, parent_depth, entries[i].0),
            ),
            obj_nodes(entries, i + 1, parent_depth, path),
            parent_depth + 1,
        );
    }
}

/// A freshly flattened tree is well-shaped, holds at least its root, and
/// every node of it starts expanded exactly when its depth is below two:
/// the auto-expand default, proved for every document at once.
pub proof fn lemma_built_tree(v: JsonV, key: Seq<char>, path: Seq<char>)
    ensures
        ({
            let s = flat_nodes(v, key, 0, path);
            &&& tree_shaped(s)
            &&& s.len() > 0
            &&& s[0].depth == 0
            &&& s[0].value == v
            &&& forall|i: int|
                0 <= i < s.len() ==> (#[trigger] s[i].expanded) == auto_expanded(s[i].depth)
        }),
{
    lemma_flat_nodes_shaped(v, key, 0, path);
}

/// `a` is a strict ancestor of `i` in a flat tree: it comes before `i` and
/// everything from just past `a` through `i` lies strictly deeper than `a`.
pub open spec fn is_ancestor(t: Seq<NodeV>, a: int, i: int) -> bool {
    &&& 0 <= a < i < t.len()
    &&& forall|k: int| a < k <= i ==> (#[trigger] t[k].depth) > t[a].depth
}

/// The index just past the last descendant of the node at `i`: the first
/// later index whose depth does not exceed the node's own, or the length.
pub open spec fn subtree_end(t: Seq<NodeV>, i: int) -> int {
    subtree_end_from(t, t[i].depth, i + 1)
}

pub open spec fn subtree_end_from(t: Seq<NodeV>, d: nat, j: int) -> int
    decreases t.len() - j,
{
    if j < 0 || j >= t.len() {
        t.len() as int
    } else if t[j].depth <= d {
        j
    } else {
        subtree_end_from(t, d, j + 1)
    }
}

proof fn lemma_subtree_end_from(t: Seq<NodeV>, d: nat, j: int)
    requires
        0 <= j <= t.len(),
    ensures
        j <= subtree_end_from(t, d, j) <= t.len(),
        forall|k: int| j <= k < subtree_end_from(t, d, j) ==> (#[trigger] t[k].depth) > d,
        subtree_end_from(t, d, j) < t.len() ==> t[subtree_end_from(t, d, j)].depth <= d,
    decreases t.len() - j,
{
    if j < t.len() && t[j].depth > d {
        lemma_subtree_end_from(t, d, j + 1);
    }
}

/// Contiguity of descendants: the descendants of the node at `i` (those
/// nodes it is an ancestor of) are exactly the indices strictly between `i`
/// and `subtree_end(t, i)`, each strictly deeper than the node; the node at
/// `subtree_end(t, i)`, when there is one, is no deeper than the node at
/// `i`.
pub proof fn lemma_descendants_contiguous(t: Seq<NodeV>, i: int)
    requires
        0 <= i < t.len(),
    ensures
        i < subtree_end(t, i) <= t.len(),
        forall|k: int|
            i < k < subtree_end(t, i) ==> #[trigger] is_ancestor(t, i, k) && t[k].depth
                > t[i].depth,
        forall|k: int|
            0 <= k < t.len() && !(i < k < subtree_end(t, i)) ==> !(#[trigger] is_ancestor(
                t,
                i,
                k,
            )),
        subtree_end(t, i) < t.len() ==> t[subtree_end(t, i)].depth <= t[i].depth,
{
    let d = t[i].depth;
    let e = subtree_end(t, i);
    lemma_subtree_end_from(t, d, i + 1);
    assert forall|k: int| i < k < e implies #[trigger] is_ancestor(t, i, k) && t[k].depth
        > t[i].depth by {
        assert(forall|m: int| i < m <= k ==> (#[trigger] t[m].depth) > d);
    }
    assert forall|k: int|
        0 <= k < t.len() && !(i < k < e) implies !(#[trigger] is_ancestor(t, i, k)) by {
        if k > i {
            assert(e <= k);
            assert(e < t.len() && t[e].depth <= d);
            assert(i < e <= k);
        }
    }
}

} // verus!
