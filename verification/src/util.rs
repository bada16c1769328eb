//! Utilities: the sorted walk of a file tree, and the stream hasher that names compiled assets.

use vstd::prelude::*;
use crate::text::{chars_of, push_char, push_str};
use std::collections::hash_map::DefaultHasher;
use std::hash::Hasher;
use vstd::std_specs::hash::DefaultHasherAdditionalSpecFns;

verus! {

/// A file tree as read from disk: files, and directories with their contents (in any order).
#[derive(Debug)]
pub enum DirNode {
    File { name: String },
    Dir { name: String, children: Vec<DirNode> },
}

/// The name of a node.
pub open spec fn node_name(n: DirNode) -> Seq<char> {
    match n {
        DirNode::File { name } => name@,
        DirNode::Dir { name, .. } => name@,
    }
}

/// Names compare as their characters do, lexicographically (which is the byte order of their
/// UTF-8 encodings).
pub open spec fn name_le(a: Seq<char>, b: Seq<char>) -> bool
    decreases a.len(),
{
    if a.len() == 0 {
        true
    } else if b.len() == 0 {
        false
    } else if a[0] != b[0] {
        (a[0] as u32) < (b[0] as u32)
    } else {
        name_le(a.drop_first(), b.drop_first())
    }
}

/// A path joined with a name, as `Path::join` does it: no separator after an empty path or one
/// that already ends in `/`.
pub open spec fn path_join(base: Seq<char>, name: Seq<char>) -> Seq<char> {
    if base.len() == 0 {
        name
    } else if base.last() == '/' {
        base + name
    } else {
        base + seq!['/'] + name
    }
}

/// Where a stable insertion places the index `i` into an order: after the last index whose name
/// is not greater than the name of `i`.
pub open spec fn insert_pos(nodes: Seq<DirNode>, order: Seq<int>, i: int) -> int
    decreases order.len(),
{
    if order.len() == 0 {
        0
    } else if name_le(node_name(nodes[order.last()]), node_name(nodes[i])) {
        order.len() as int
    } else {
        insert_pos(nodes, order.drop_last(), i)
    }
}

/// The positions of the first `k` nodes, stably sorted by name.
pub open spec fn name_order(nodes: Seq<DirNode>, k: nat) -> Seq<int>
    decreases k,
{
    if k == 0 {
        Seq::empty()
    } else {
        let o = name_order(nodes, (k - 1) as nat);
        o.insert(insert_pos(nodes, o, k - 1), k - 1)
    }
}

/// Of two names, one is not greater than the other.
proof fn lemma_name_le_total(a: Seq<char>, b: Seq<char>)
    ensures
        name_le(a, b) || name_le(b, a),
    decreases a.len(),
{
    if a.len() > 0 && b.len() > 0 {
        if a[0] == b[0] {
            lemma_name_le_total(a.drop_first(), b.drop_first());
        } else {
            vstd::utf8::char_u32_cast(a[0], a[0] as u32);
            vstd::utf8::char_u32_cast(b[0], b[0] as u32);
            assert((a[0] as u32) != (b[0] as u32));
        }
    }
}

/// The stable insertion point: every name before it is not greater, the one after it is
/// greater.
proof fn lemma_insert_pos(nodes: Seq<DirNode>, order: Seq<int>, i: int)
    ensures
        0 <= insert_pos(nodes, order, i) <= order.len(),
        insert_pos(nodes, order, i) > 0 ==> name_le(
            node_name(nodes[order[insert_pos(nodes, order, i) - 1]]),
            node_name(nodes[i]),
        ),
        insert_pos(nodes, order, i) < order.len() ==> !name_le(
            node_name(nodes[order[insert_pos(nodes, order, i)]]),
            node_name(nodes[i]),
        ),
    decreases order.len(),
{
    if order.len() > 0 && !name_le(node_name(nodes[order.last()]), node_name(nodes[i])) {
        let o = order.drop_last();
        lemma_insert_pos(nodes, o, i);
        let p = insert_pos(nodes, o, i);
        if p > 0 {
            assert(order[p - 1] == o[p - 1]);
        }
        if p < o.len() {
            assert(order[p] == o[p]);
        }
    }
}

/// Two nodes have the same name.
pub open spec fn same_name(nodes: Seq<DirNode>, a: int, b: int) -> bool {
    node_name(nodes[a]) == node_name(nodes[b])
}

/// A name is not greater than itself.
proof fn lemma_name_le_refl(a: Seq<char>)
    ensures
        name_le(a, a),
    decreases a.len(),
{
    if a.len() > 0 {
        lemma_name_le_refl(a.drop_first());
    }
}

/// Name order is transitive.
proof fn lemma_name_le_trans(a: Seq<char>, b: Seq<char>, c: Seq<char>)
    requires
        name_le(a, b),
        name_le(b, c),
    ensures
        name_le(a, c),
    decreases a.len(),
{
    if a.len() > 0 {
        if a[0] == b[0] && b[0] == c[0] {
            lemma_name_le_trans(a.drop_first(), b.drop_first(), c.drop_first());
        }
    }
}

/// Two names, each not greater than the other, are the same name.
proof fn lemma_name_le_antisym(a: Seq<char>, b: Seq<char>)
    requires
        name_le(a, b),
        name_le(b, a),
    ensures
        a == b,
    decreases a.len(),
{
    if a.len() > 0 {
        lemma_name_le_antisym(a.drop_first(), b.drop_first());
        assert(a =~= b) by {
            assert forall|i: int| 0 <= i < a.len() implies a[i] == b[i] by {
                if i > 0 {
                    assert(a[i] == a.drop_first()[i - 1] && b[i] == b.drop_first()[i - 1]);
                }
            }
        }
    } else {
        assert(b =~= a);
    }
}

/// The positions are in name order.
pub open spec fn in_name_order(nodes: Seq<DirNode>, order: Seq<int>) -> bool {
    forall|j: int|
        0 <= j < order.len() - 1 ==> name_le(
            node_name(nodes[#[trigger] order[j]]),
            node_name(nodes[order[j + 1]]),
        )
}

/// A stable name order of the first `k` nodes: each of their positions exactly once, names
/// not decreasing, and nodes of the same name in the order they were given.
pub open spec fn is_name_order(nodes: Seq<DirNode>, k: nat, o: Seq<int>) -> bool {
    &&& o.len() == k
    &&& forall|j: int| 0 <= j < k ==> 0 <= #[trigger] o[j] < k
    &&& forall|i: int| 0 <= i < k ==> o.contains(i)
    &&& forall|j: int, l: int| 0 <= j < l < k ==> #[trigger] o[j] != #[trigger] o[l]
    &&& in_name_order(nodes, o)
    &&& forall|j: int| 0 <= j < k - 1 && #[trigger] same_name(nodes, o[j], o[j + 1]) ==> o[j] < o[j + 1]
}

/// In name order, a node's name is not greater than that of any node after it.
proof fn lemma_name_order_pairs(nodes: Seq<DirNode>, o: Seq<int>, j: int, l: int)
    requires
        in_name_order(nodes, o),
        0 <= j <= l < o.len(),
    ensures
        name_le(node_name(nodes[o[j]]), node_name(nodes[o[l]])),
    decreases l - j,
{
    if j == l {
        lemma_name_le_refl(node_name(nodes[o[j]]));
    } else {
        lemma_name_order_pairs(nodes, o, j, l - 1);
        assert(name_le(node_name(nodes[o[l - 1]]), node_name(nodes[o[l]])));
        lemma_name_le_trans(
            node_name(nodes[o[j]]),
            node_name(nodes[o[l - 1]]),
            node_name(nodes[o[l]]),
        );
    }
}

/// In a stable name order, of two nodes with the same name the one given first comes first.
proof fn lemma_same_name_order(nodes: Seq<DirNode>, k: nat, o: Seq<int>, j: int, l: int)
    requires
        k <= nodes.len(),
        is_name_order(nodes, k, o),
        0 <= j < l < k,
        node_name(nodes[o[j]]) == node_name(nodes[o[l]]),
    ensures
        o[j] < o[l],
    decreases l - j,
{
    assert(0 <= o[j] < k && 0 <= o[j + 1] < k && 0 <= o[l] < k);
    lemma_name_order_pairs(nodes, o, j + 1, l);
    assert(name_le(node_name(nodes[o[j]]), node_name(nodes[o[j + 1]])));
    lemma_name_le_antisym(node_name(nodes[o[j]]), node_name(nodes[o[j + 1]]));
    assert(same_name(nodes, o[j], o[j + 1]));
    if j + 1 < l {
        lemma_same_name_order(nodes, k, o, j + 1, l);
    }
}

/// The stable insertion point is the one position with every name before it not greater and
/// every name from it on greater.
proof fn lemma_insert_pos_at(nodes: Seq<DirNode>, o: Seq<int>, i: int, p: int)
    requires
        0 <= p <= o.len(),
        forall|j: int| 0 <= j < p ==> name_le(node_name(nodes[#[trigger] o[j]]), node_name(nodes[i])),
        forall|j: int| p <= j < o.len() ==> !name_le(node_name(nodes[#[trigger] o[j]]), node_name(nodes[i])),
    ensures
        insert_pos(nodes, o, i) == p,
    decreases o.len(),
{
    if o.len() > 0 {
        assert(o.last() == o[o.len() - 1]);
        if p < o.len() {
            let o1 = o.drop_last();
            assert forall|j: int| 0 <= j < p implies name_le(node_name(nodes[#[trigger] o1[j]]), node_name(nodes[i])) by {
                assert(o1[j] == o[j]);
            }
            assert forall|j: int| p <= j < o1.len() implies !name_le(node_name(nodes[#[trigger] o1[j]]), node_name(nodes[i])) by {
                assert(o1[j] == o[j]);
            }
            lemma_insert_pos_at(nodes, o1, i, p);
        }
    }
}

/// A stable name order of the first `k` nodes is the one that stable insertion builds.
proof fn lemma_name_order_unique(nodes: Seq<DirNode>, k: nat, o: Seq<int>)
    requires
        k <= nodes.len(),
        is_name_order(nodes, k, o),
    ensures
        o == name_order(nodes, k),
    decreases k,
{
    if k == 0 {
        assert(o =~= Seq::<int>::empty());
    } else {
        let m = k - 1;
        assert(o.contains(m));
        let p = choose|p: int| 0 <= p < o.len() && o[p] == m;
        let o1 = o.remove(p);
        assert forall|j: int| 0 <= j < k - 1 implies 0 <= #[trigger] o1[j] < k - 1 by {
            if j < p {
                assert(o1[j] == o[j] && o[j] != o[p] && 0 <= o[j] < k);
            } else {
                assert(o1[j] == o[j + 1] && o[j + 1] != o[p] && 0 <= o[j + 1] < k);
            }
        }
        assert forall|i: int| 0 <= i < k - 1 implies o1.contains(i) by {
            assert(o.contains(i));
            let q = choose|q: int| 0 <= q < o.len() && o[q] == i;
            if q < p {
                assert(o1[q] == i);
            } else {
                assert(q != p);
                assert(o1[q - 1] == i);
            }
        }
        assert forall|j: int, l: int| 0 <= j < l < k - 1 implies #[trigger] o1[j] != #[trigger] o1[l] by {
            let jj = if j < p { j } else { j + 1 };
            let ll = if l < p { l } else { l + 1 };
            assert(o1[j] == o[jj] && o1[l] == o[ll] && jj < ll);
        }
        assert forall|j: int| 0 <= j < o1.len() - 1 implies name_le(
            node_name(nodes[#[trigger] o1[j]]),
            node_name(nodes[o1[j + 1]]),
        ) by {
            let jj = if j < p { j } else { j + 1 };
            let ll = if j + 1 < p { j + 1 } else { j + 2 };
            assert(o1[j] == o[jj] && o1[j + 1] == o[ll] && jj < ll);
            lemma_name_order_pairs(nodes, o, jj, ll);
        }
        assert forall|j: int| 0 <= j < k - 2 && #[trigger] same_name(nodes, o1[j], o1[j + 1]) implies o1[j]
            < o1[j + 1] by {
            let jj = if j < p { j } else { j + 1 };
            let ll = if j + 1 < p { j + 1 } else { j + 2 };
            assert(o1[j] == o[jj] && o1[j + 1] == o[ll] && jj < ll);
            lemma_same_name_order(nodes, k, o, jj, ll);
        }
        assert(is_name_order(nodes, (k - 1) as nat, o1));
        lemma_name_order_unique(nodes, (k - 1) as nat, o1);
        let o0 = name_order(nodes, (k - 1) as nat);
        assert forall|j: int| 0 <= j < p implies name_le(node_name(nodes[#[trigger] o0[j]]), node_name(nodes[m])) by {
            assert(o0[j] == o[j]);
            lemma_name_order_pairs(nodes, o, j, p);
        }
        assert forall|j: int| p <= j < o0.len() implies !name_le(node_name(nodes[#[trigger] o0[j]]), node_name(nodes[m])) by {
            assert(o0[j] == o[j + 1]);
            assert(0 <= o[j + 1] < k && o[j + 1] != o[p]);
            lemma_name_order_pairs(nodes, o, p, j + 1);
            if name_le(node_name(nodes[o[j + 1]]), node_name(nodes[m])) {
                lemma_name_le_antisym(node_name(nodes[o[j + 1]]), node_name(nodes[m]));
                lemma_same_name_order(nodes, k, o, p, j + 1);
            }
        }
        lemma_insert_pos_at(nodes, o0, m, p);
        assert(o =~= o1.insert(p, m));
    }
}

/// Stable insertion by name builds a stable name order of the first `k` nodes.
proof fn lemma_name_order_is_stable(nodes: Seq<DirNode>, k: nat)
    requires
        k <= nodes.len(),
    ensures
        is_name_order(nodes, k, name_order(nodes, k)),
    decreases k,
{
    if k > 0 {
        let o = name_order(nodes, (k - 1) as nat);
        lemma_name_order_is_stable(nodes, (k - 1) as nat);
        let x = k - 1;
        lemma_insert_pos(nodes, o, x);
        let p = insert_pos(nodes, o, x);
        let n = o.insert(p, x);
        o.insert_ensures(p, x);
        assert(n == name_order(nodes, k));
        assert forall|j: int| 0 <= j < k implies 0 <= #[trigger] n[j] < k by {
            if j < p {
                assert(n[j] == o[j]);
            } else if j > p {
                assert(n[j] == o[j - 1]);
            }
        }
        assert forall|i: int| 0 <= i < k implies n.contains(i) by {
            if i == x {
                assert(n[p] == x);
            } else {
                assert(i < k - 1);
                assert(o.contains(i));
                let j = choose|j: int| 0 <= j < o.len() && o[j] == i;
                if j < p {
                    assert(n[j] == i);
                } else {
                    assert(n[j + 1] == i);
                }
            }
        }
        assert forall|j: int| 0 <= j < n.len() - 1 implies name_le(
            node_name(nodes[#[trigger] n[j]]),
            node_name(nodes[n[j + 1]]),
        ) by {
            if j + 1 < p {
                assert(n[j] == o[j] && n[j + 1] == o[j + 1]);
            } else if j + 1 == p {
                assert(n[j] == o[j] && n[j + 1] == x);
            } else if j == p {
                assert(n[j] == x && n[j + 1] == o[j]);
                lemma_name_le_total(node_name(nodes[o[j]]), node_name(nodes[x]));
            } else {
                assert(n[j] == o[j - 1] && n[j + 1] == o[j]);
            }
        }
        assert forall|j: int, l: int| 0 <= j < l < k implies #[trigger] n[j] != #[trigger] n[l] by {
            if j != p && l != p {
                let jj = if j < p { j } else { j - 1 };
                let ll = if l < p { l } else { l - 1 };
                assert(n[j] == o[jj] && n[l] == o[ll] && jj < ll);
            } else if j == p {
                assert(n[l] == o[l - 1] && o[l - 1] < x);
            } else {
                assert(n[j] == o[j] && o[j] < x);
            }
        }
        assert forall|j: int| 0 <= j < k - 1 && #[trigger] same_name(nodes, n[j], n[j + 1]) implies n[j]
            < n[j + 1] by {
            if j + 1 < p {
                assert(n[j] == o[j] && n[j + 1] == o[j + 1]);
            } else if j + 1 == p {
                assert(n[j] == o[j] && n[j + 1] == x && o[j] < x);
            } else if j == p {
                assert(n[j] == x && n[j + 1] == o[j]);
                lemma_name_le_refl(node_name(nodes[x]));
            } else {
                assert(n[j] == o[j - 1] && n[j + 1] == o[j]);
            }
        }
    }
}

/// A walk visits the contents of each directory in their one stable order by name: an order
/// that lists each position once, names not decreasing and nodes of one name in the order
/// given, exists and is unique.
pub proof fn name_order_sorts(nodes: Seq<DirNode>, o: Seq<int>)
    ensures
        is_name_order(nodes, nodes.len(), sorted_order(nodes)),
        is_name_order(nodes, nodes.len(), o) ==> o == sorted_order(nodes),
{
    lemma_name_order_is_stable(nodes, nodes.len());
    let s = sorted_order(nodes);
    lemma_name_order_unique(nodes, nodes.len(), s);
    if is_name_order(nodes, nodes.len(), o) {
        lemma_name_order_unique(nodes, nodes.len(), o);
    }
}

/// The files under a node, as paths from `path`.
pub open spec fn node_walk(path: Seq<char>, n: DirNode) -> Seq<Seq<char>>
    decreases n, 0nat,
{
    match n {
        DirNode::File { name } => seq![path_join(path, name@)],
        DirNode::Dir { name, children } => dir_walk(path_join(path, name@), children@),
    }
}

/// The files under the nodes at the given positions, in that order.
pub open spec fn walk_in_order(path: Seq<char>, nodes: Seq<DirNode>, order: Seq<int>) -> Seq<
    Seq<char>,
>
    decreases nodes, order.len(),
{
    if order.len() == 0 {
        Seq::empty()
    } else if 0 <= order[0] < nodes.len() {
        node_walk(path, nodes[order[0]]) + walk_in_order(path, nodes, order.drop_first())
    } else {
        walk_in_order(path, nodes, order.drop_first())
    }
}

/// The stable name order of a directory's contents (see `is_name_order`).
pub open spec fn sorted_order(nodes: Seq<DirNode>) -> Seq<int> {
    choose|o: Seq<int>| is_name_order(nodes, nodes.len(), o)
}

/// The files of a directory's contents, as paths from `path`: the nodes are taken in their
/// stable name order, and each directory is walked in turn.
pub open spec fn dir_walk(path: Seq<char>, nodes: Seq<DirNode>) -> Seq<Seq<char>>
    decreases nodes, sorted_order(nodes).len() + 1,
{
    walk_in_order(path, nodes, sorted_order(nodes))
}

/// The texts of a vector of strings.
pub open spec fn texts(v: Seq<String>) -> Seq<Seq<char>> {
    v.map_values(|s: String| s@)
}

/// The name of a node.
fn name_of(n: &DirNode) -> (r: &String)
    ensures
        r@ == node_name(*n),
{
    match n {
        DirNode::File { name } => name,
        DirNode::Dir { name, .. } => name,
    }
}

/// Compares two names (see `name_le`).
fn names_le(a: &str, b: &str) -> (r: bool)
    ensures
        r == name_le(a@, b@),
{
    let x = chars_of(a);
    let y = chars_of(b);
    let mut i: usize = 0;
    proof {
        assert(a@.skip(0) =~= a@);
        assert(b@.skip(0) =~= b@);
    }
    while i < x.len() && i < y.len() && x[i] == y[i]
        invariant
            i <= x@.len(),
            i <= y@.len(),
            x@ == a@,
            y@ == b@,
            name_le(a@, b@) == name_le(a@.skip(i as int), b@.skip(i as int)),
        decreases x@.len() - i,
    {
        proof {
            assert(a@.skip(i + 1) =~= a@.skip(i as int).drop_first());
            assert(b@.skip(i + 1) =~= b@.skip(i as int).drop_first());
        }
        i = i + 1;
    }
    if i == x.len() {
        true
    } else if i == y.len() {
        false
    } else {
        (x[i] as u32) < (y[i] as u32)
    }
}

/// The stable name order of the nodes (see `name_order`).
fn sorted_positions(nodes: &Vec<DirNode>) -> (r: Vec<usize>)
    ensures
        r@.map_values(|p: usize| p as int) == name_order(nodes@, nodes@.len()),
        forall|j: int| 0 <= j < r@.len() ==> r@[j] < nodes@.len(),
{
    let mut order: Vec<usize> = Vec::new();
    let mut k: usize = 0;
    while k < nodes.len()
        invariant
            k <= nodes@.len(),
            order@.map_values(|p: usize| p as int) == name_order(nodes@, k as nat),
            forall|j: int| 0 <= j < order@.len() ==> order@[j] < k,
        decreases nodes@.len() - k,
    {
        let ghost o = order@.map_values(|p: usize| p as int);
        let mut p: usize = order.len();
        proof {
            assert(o.take(p as int) =~= o);
        }
        while p > 0 && !names_le(name_of(&nodes[order[p - 1]]), name_of(&nodes[k]))
            invariant
                p <= order@.len(),
                k < nodes@.len(),
                o == order@.map_values(|q: usize| q as int),
                forall|j: int| 0 <= j < order@.len() ==> order@[j] < k,
                insert_pos(nodes@, o, k as int) == insert_pos(nodes@, o.take(p as int), k as int),
            decreases p,
        {
            proof {
                assert(o.take(p as int).drop_last() =~= o.take(p - 1));
            }
            p = p - 1;
        }
        proof {
            if p > 0 {
                assert(o.take(p as int).last() == order@[p - 1] as int);
            }
            assert(insert_pos(nodes@, o.take(p as int), k as int) == p);
        }
        order.insert(p, k);
        proof {
            assert(order@.map_values(|q: usize| q as int) =~= o.insert(p as int, k as int));
        }
        k = k + 1;
    }
    order
}

/// Joins a path and a name (see `path_join`).
pub fn joined_path(base: &str, name: &str) -> (r: String)
    ensures
        r@ == path_join(base@, name@),
{
    let mut p = base.to_owned();
    let n: usize = base.unicode_len();
    if n > 0 && base.get_char(n - 1) != '/' {
        push_str(&mut p, "/");
    }
    push_str(&mut p, name);
    proof {
        reveal_strlit("/");
        assert(p@ =~= path_join(base@, name@));
    }
    p
}

/// Appends the files of a directory's contents to `out`, as paths from `path` (see
/// `dir_walk`).
fn walk_into(path: &str, nodes: &Vec<DirNode>, out: &mut Vec<String>)
    ensures
        texts(final(out)@) == texts(old(out)@) + dir_walk(path@, nodes@),
    decreases nodes@,
{
    let order = sorted_positions(nodes);
    let ghost ord = order@.map_values(|p: usize| p as int);
    let mut j: usize = 0;
    proof {
        assert(ord.skip(0) =~= ord);
        name_order_sorts(nodes@, ord);
        lemma_name_order_is_stable(nodes@, nodes@.len());
    }
    while j < order.len()
        invariant
            j <= order@.len(),
            ord == order@.map_values(|p: usize| p as int),
            ord == name_order(nodes@, nodes@.len()),
            forall|i: int| 0 <= i < order@.len() ==> order@[i] < nodes@.len(),
            texts(out@) + walk_in_order(path@, nodes@, ord.skip(j as int)) == texts(old(out)@)
                + dir_walk(path@, nodes@),
        decreases order@.len() - j,
    {
        let node = &nodes[order[j]];
        let ghost before = out@;
        proof {
            assert(ord.skip(j as int)[0] == order@[j as int] as int);
            assert(ord.skip(j as int).drop_first() =~= ord.skip(j + 1));
        }
        match node {
            DirNode::File { name } => {
                let p = joined_path(path, name.as_str());
                out.push(p);
                proof {
                    assert(texts(out@) =~= texts(before) + node_walk(path@, nodes@[ord[j as int]]));
                }
            },
            DirNode::Dir { name, children } => {
                let p = joined_path(path, name.as_str());
                walk_into(p.as_str(), children, out);
                proof {
                    assert(texts(out@) =~= texts(before) + node_walk(path@, nodes@[ord[j as int]]));
                }
            },
        }
        proof {
            let rest = ord.skip(j as int);
            assert(walk_in_order(path@, nodes@, rest) == node_walk(path@, nodes@[ord[j as int]])
                + walk_in_order(path@, nodes@, ord.skip(j + 1)));
            assert(texts(out@) + walk_in_order(path@, nodes@, ord.skip(j + 1)) =~= texts(before)
                + walk_in_order(path@, nodes@, ord.skip(j as int)));
        }
        j = j + 1;
    }
}

/// Walks a file tree rooted at `path` and returns the paths of its files: siblings are visited
/// in name order and directories are entered where they stand (see `dir_walk`).
pub fn walk_sorted(path: &str, contents: &Vec<DirNode>) -> (r: Vec<String>)
    ensures
        texts(r@) == dir_walk(path@, contents@),
{
    let mut out: Vec<String> = Vec::new();
    walk_into(path, contents, &mut out);
    proof {
        assert(texts(Seq::<String>::empty()) =~= Seq::<Seq<char>>::empty());
        assert(Seq::<Seq<char>>::empty() + dir_walk(path@, contents@) =~= dir_walk(path@, contents@));
    }
    out
}

/// A writer's companion that hashes everything written through it, so that a compiled asset can
/// be named after its contents.
pub struct StreamHasher<W> {
    hash: DefaultHasher,
    inner: W,
}

impl<W> StreamHasher<W> {
    /// The chunks of bytes hashed so far, in order.
    pub closed spec fn written(&self) -> Seq<Seq<u8>> {
        self.hash@
    }

    /// The writer that the bytes go to.
    pub closed spec fn writer(&self) -> W {
        self.inner
    }

    /// Wraps a writer, with a fresh hasher.
    pub fn new(inner: W) -> (r: StreamHasher<W>)
        ensures
            r.written() == Seq::<Seq<u8>>::empty(),
            r.writer() == inner,
    {
        StreamHasher { hash: DefaultHasher::new(), inner }
    }

    /// Wraps a writer, with the given hasher.
    pub fn with_hasher(inner: W, hash: DefaultHasher) -> (r: StreamHasher<W>)
        ensures
            r.written() == hash@,
            r.writer() == inner,
    {
        StreamHasher { hash, inner }
    }

    /// The hash of everything written so far.
    pub fn finish(&self) -> (r: u64)
        ensures
            r == DefaultHasher::spec_finish(self.written()),
    {
        self.hash.finish()
    }

    /// Records that `buf` was written to the writer: it is hashed after what came before.
    pub fn record(&mut self, buf: &[u8])
        ensures
            final(self).written() == old(self).written().push(buf@),
            final(self).writer() == old(self).writer(),
    {
        self.hash.write(buf);
    }

    /// Records what writing `buf` to the writer gave, and hands it back: where the writer
    /// accepted `n` bytes, the first `n` bytes of `buf` are hashed after what came before; a
    /// failed write hashes nothing.
    pub fn record_write<E>(&mut self, buf: &[u8], outcome: Result<usize, E>) -> (r: Result<usize, E>)
        requires
            outcome matches Ok(n) ==> n <= buf@.len(),
        ensures
            r == outcome,
            final(self).writer() == old(self).writer(),
            match outcome {
                Ok(n) => final(self).written() == old(self).written().push(buf@.take(n as int)),
                Err(_) => final(self).written() == old(self).written(),
            },
    {
        match &outcome {
            Ok(n) => {
                let accepted = vstd::slice::slice_subrange(buf, 0, *n);
                assert(accepted@ == buf@.take(*n as int));
                self.hash.write(accepted);
            },
            Err(_) => {},
        }
        outcome
    }

    /// The writer, to write to.
    pub fn writer_mut(&mut self) -> (r: &mut W)
        ensures
            *r == old(self).writer(),
            final(self).writer() == *final(r),
            final(self).written() == old(self).written(),
    {
        &mut self.inner
    }
}

/// The lower-case hexadecimal digit of a number below 16.
pub open spec fn hex_digit(d: nat) -> char {
    if d < 10 {
        (('0' as u32) + d) as char
    } else {
        (('a' as u32) + d - 10) as char
    }
}

/// A number in lower-case hexadecimal, without leading zeros (as `{:x}` formats it).
pub open spec fn hex_text(n: nat) -> Seq<char>
    decreases n,
{
    if n < 16 {
        seq![hex_digit(n)]
    } else {
        hex_text(n / 16).push(hex_digit(n % 16))
    }
}

/// Formats a number in lower-case hexadecimal (see `hex_text`).
pub fn to_hex(n: u64) -> (r: String)
    ensures
        r@ == hex_text(n as nat),
    decreases n,
{
    let digits: [char; 16] = [
        '0', '1', '2', '3', '4', '5', '6', '7', '8', '9', 'a', 'b', 'c', 'd', 'e', 'f',
    ];
    let d: usize = (n % 16) as usize;
    let c = digits[d];
    assert(c == hex_digit((n % 16) as nat));
    if n < 16 {
        let mut s = String::new();
        push_char(&mut s, c);
        proof {
            assert(s@ =~= hex_text(n as nat));
        }
        s
    } else {
        let mut s = to_hex(n / 16);
        push_char(&mut s, c);
        s
    }
}

/// The site-relative href of a compiled asset: `assets/{prefix}-{hash:x}.{ext}`.
pub open spec fn asset_href_text(prefix: Seq<char>, hash: u64, ext: Seq<char>) -> Seq<char> {
    "assets/"@ + prefix + seq!['-'] + hex_text(hash as nat) + seq!['.'] + ext
}

/// The href of a compiled asset, named by the hash of its contents (see `asset_href_text`).
pub fn asset_href(prefix: &str, hash: u64, ext: &str) -> (r: String)
    ensures
        r@ == asset_href_text(prefix@, hash, ext@),
{
    let mut s = "assets/".to_owned();
    push_str(&mut s, prefix);
    push_char(&mut s, '-');
    let h = to_hex(hash);
    push_str(&mut s, h.as_str());
    push_char(&mut s, '.');
    push_str(&mut s, ext);
    proof {
        assert(s@ =~= asset_href_text(prefix@, hash, ext@));
    }
    s
}

} // verus!
