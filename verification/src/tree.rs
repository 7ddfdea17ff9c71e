//! A forest given by the parent of each key.

use vstd::prelude::*;
use vstd::std_specs::cmp::PartialEqSpec;
use vstd::std_specs::hash::obeys_key_model;
use vstd::std_specs::iter::IteratorSpec;
use std::collections::HashMap;
use std::hash::Hash;

verus! {

broadcast use vstd::seq_lib::group_seq_properties;

/// Keys that behave in a hash map as their values do, and whose `==` is equality.
pub open spec fn key_model<K: PartialEq>() -> bool {
    &&& obeys_key_model::<K>()
    &&& K::obeys_eq_spec()
    &&& forall|x: K, y: K| x.eq_spec(&y) <==> x == y
}

fn same<K: PartialEq>(a: &K, b: &K) -> (r: bool)
    requires
        key_model::<K>(),
    ensures
        r == (*a == *b),
{
    *a == *b
}

/// The ancestors of `k`, nearest first, following at most `fuel` parent links.
pub open spec fn ancestors<K>(m: Map<K, K>, k: K, fuel: nat) -> Seq<K>
    decreases fuel,
{
    if fuel == 0 || !m.contains_key(k) {
        Seq::empty()
    } else {
        seq![m[k]] + ancestors(m, m[k], (fuel - 1) as nat)
    }
}

/// Following parent links from `k` reaches a key without parent within `fuel` links.
pub open spec fn reaches_root<K>(m: Map<K, K>, k: K, fuel: nat) -> bool
    decreases fuel,
{
    !m.contains_key(k) || (fuel > 0 && reaches_root(m, m[k], (fuel - 1) as nat))
}

/// The forest has no cycle: from every key the parent links reach a key without
/// parent.
pub open spec fn acyclic<K>(m: Map<K, K>) -> bool {
    forall|k: K| #[trigger] m.contains_key(k) ==> reaches_root(m, k, m.dom().len())
}

/// All ancestors of `k`, nearest first (for an acyclic forest).
pub open spec fn lineage<K>(m: Map<K, K>, k: K) -> Seq<K> {
    ancestors(m, k, m.dom().len())
}

/// The number of ancestors of `k`: 0 for a key without parent.
pub open spec fn depth<K>(m: Map<K, K>, k: K) -> nat {
    lineage(m, k).len()
}

/// `x` lies below `root`: `root` is one of its ancestors.
pub open spec fn descends<K>(m: Map<K, K>, x: K, root: K) -> bool {
    lineage(m, x).contains(root)
}

/// A key followed by its ancestors (within `fuel` links), when that many links
/// reach a key without parent: each key's parent is the next one, and the last
/// key has no parent.
proof fn lemma_ancestors_chain<K>(m: Map<K, K>, k: K, fuel: nat)
    requires
        reaches_root(m, k, fuel),
    ensures
        ({
            let r = seq![k] + ancestors(m, k, fuel);
            &&& forall|i: int| 0 <= i < r.len() - 1 ==> #[trigger] m.contains_key(r[i]) && m[r[i]] == r[i + 1]
            &&& !m.contains_key(r.last())
        }),
    decreases fuel,
{
    if m.contains_key(k) {
        let p = m[k];
        lemma_ancestors_chain(m, p, (fuel - 1) as nat);
        let r = seq![k] + ancestors(m, k, fuel);
        let t = seq![p] + ancestors(m, p, (fuel - 1) as nat);
        assert(r =~= seq![k] + t);
        assert forall|i: int| 0 <= i < r.len() - 1 implies #[trigger] m.contains_key(r[i]) && m[r[i]] == r[i + 1] by {
            if i > 0 {
                assert(r[i] == t[i - 1]);
                assert(r[i + 1] == t[i]);
                assert(m.contains_key(t[i - 1]));
            }
        }
        assert(r.last() == t.last());
    } else {
        assert(seq![k] + ancestors(m, k, fuel) =~= seq![k]);
    }
}

/// What `Tree::parents_inclusive` returns walks up the forest link by link:
/// `from` first, each key followed by its parent, and the last key without a
/// parent.
pub proof fn lemma_parents_inclusive_chain<K>(m: Map<K, K>, from: K)
    requires
        reaches_root(m, from, m.dom().len()),
    ensures
        ({
            let r = seq![from] + lineage(m, from);
            &&& r[0] == from
            &&& forall|i: int| 0 <= i < r.len() - 1 ==> #[trigger] m.contains_key(r[i]) && m[r[i]] == r[i + 1]
            &&& !m.contains_key(r.last())
        }),
{
    lemma_ancestors_chain(m, from, m.dom().len());
}

/// `v` is the parent of some key but has no parent itself.
pub open spec fn is_root<K>(m: Map<K, K>, v: K) -> bool {
    &&& !m.contains_key(v)
    &&& exists|k: K| #[trigger] m.contains_key(k) && m[k] == v
}

proof fn lemma_ancestors_len<K>(m: Map<K, K>, k: K, f: nat)
    ensures
        ancestors(m, k, f).len() <= f,
    decreases f,
{
    if f > 0 && m.contains_key(k) {
        lemma_ancestors_len(m, m[k], (f - 1) as nat);
    }
}

proof fn lemma_fuel_monotone<K>(m: Map<K, K>, k: K, f: nat, g: nat)
    requires
        reaches_root(m, k, f),
        f <= g,
    ensures
        reaches_root(m, k, g),
        ancestors(m, k, f) == ancestors(m, k, g),
    decreases f,
{
    if m.contains_key(k) {
        lemma_fuel_monotone(m, m[k], (f - 1) as nat, (g - 1) as nat);
    }
}

proof fn lemma_ends_at_root<K>(m: Map<K, K>, k: K, f: nat)
    requires
        reaches_root(m, k, f),
    ensures
        ancestors(m, k, f).len() > 0 ==> !m.contains_key(ancestors(m, k, f).last()),
    decreases f,
{
    if m.contains_key(k) {
        let p = m[k];
        assert(f > 0 && reaches_root(m, p, (f - 1) as nat));
        lemma_ends_at_root(m, p, (f - 1) as nat);
        assert(ancestors(m, k, f) == seq![p] + ancestors(m, p, (f - 1) as nat));
        if ancestors(m, p, (f - 1) as nat).len() > 0 {
            assert(ancestors(m, k, f).last() == ancestors(m, p, (f - 1) as nat).last());
        } else {
            if m.contains_key(p) {
                assert(f - 1 > 0);
                assert(ancestors(m, p, (f - 1) as nat).len() > 0);
            }
            assert(ancestors(m, k, f) =~= seq![p]);
        }
    }
}

/// Every key of an acyclic forest reaches a root through its whole lineage.
proof fn lemma_reaches<K>(m: Map<K, K>, k: K)
    requires
        acyclic(m),
    ensures
        reaches_root(m, k, m.dom().len()),
{
    if m.contains_key(k) {
    }
}

/// The lineage of a key is its parent followed by its parent's lineage.
proof fn lemma_lineage_step<K>(m: Map<K, K>, k: K)
    requires
        acyclic(m),
        m.contains_key(k),
    ensures
        lineage(m, k) == seq![m[k]] + lineage(m, m[k]),
        depth(m, k) == depth(m, m[k]) + 1,
{
    let n = m.dom().len();
    assert(reaches_root(m, k, n));
    lemma_fuel_monotone(m, m[k], (n - 1) as nat, n);
}

/// The `i`-th ancestor of `k` is `i + 1` levels above it.
proof fn lemma_lineage_depths<K>(m: Map<K, K>, k: K)
    requires
        acyclic(m),
    ensures
        forall|i: int|
            0 <= i < depth(m, k) ==> depth(m, #[trigger] lineage(m, k)[i]) == depth(m, k) - 1 - i,
    decreases depth(m, k),
{
    if m.contains_key(k) {
        let p = m[k];
        lemma_lineage_step(m, k);
        lemma_lineage_depths(m, p);
        assert forall|i: int| 0 <= i < depth(m, k) implies depth(m, #[trigger] lineage(m, k)[i])
            == depth(m, k) - 1 - i by {
            if i > 0 {
                assert(lineage(m, k)[i] == lineage(m, p)[i - 1]);
            }
        }
    } else {
        assert(lineage(m, k) =~= Seq::<K>::empty()) by {
            reveal_with_fuel(ancestors, 1);
        }
    }
}

/// Consecutive ancestors are linked by the parent map.
proof fn lemma_lineage_links<K>(m: Map<K, K>, k: K, j: int)
    requires
        acyclic(m),
        0 <= j,
        j + 1 < depth(m, k),
    ensures
        m.contains_key(lineage(m, k)[j]),
        m[lineage(m, k)[j]] == lineage(m, k)[j + 1],
    decreases depth(m, k),
{
    let p = m[k];
    assert(m.contains_key(k)) by {
        if !m.contains_key(k) {
            assert(lineage(m, k) =~= Seq::<K>::empty());
        }
    }
    lemma_lineage_step(m, k);
    if j == 0 {
        assert(lineage(m, p).len() > 0);
        assert(m.contains_key(p)) by {
            if !m.contains_key(p) {
                assert(lineage(m, p) =~= Seq::<K>::empty());
            }
        }
        lemma_lineage_step(m, p);
    } else {
        lemma_lineage_links(m, p, j - 1);
    }
}

/// The last ancestor of a key is a key without parent.
proof fn lemma_lineage_ends<K>(m: Map<K, K>, k: K)
    requires
        acyclic(m),
    ensures
        depth(m, k) > 0 ==> !m.contains_key(lineage(m, k).last()),
{
    lemma_reaches(m, k);
    lemma_ends_at_root(m, k, m.dom().len());
}

/// A key's ancestors are all distinct and all lie strictly above it.
pub proof fn lemma_lineage_distinct<K>(m: Map<K, K>, k: K)
    requires
        acyclic(m),
    ensures
        lineage(m, k).no_duplicates(),
        !lineage(m, k).contains(k),
{
    lemma_lineage_depths(m, k);
    assert forall|i: int, j: int|
        0 <= i < lineage(m, k).len() && 0 <= j < lineage(m, k).len() && i != j implies lineage(
        m,
        k,
    )[i] != lineage(m, k)[j] by {
        assert(depth(m, lineage(m, k)[i]) == depth(m, k) - 1 - i);
        assert(depth(m, lineage(m, k)[j]) == depth(m, k) - 1 - j);
    }
    if lineage(m, k).contains(k) {
        let i = choose|i: int| 0 <= i < lineage(m, k).len() && lineage(m, k)[i] == k;
        assert(depth(m, lineage(m, k)[i]) == depth(m, k) - 1 - i);
    }
}

/// An ancestor lies fewer levels down than its descendant.
proof fn lemma_descends_depth<K>(m: Map<K, K>, x: K, a: K)
    requires
        acyclic(m),
        descends(m, x, a),
    ensures
        depth(m, a) < depth(m, x),
{
    lemma_lineage_depths(m, x);
    let i = choose|i: int| 0 <= i < lineage(m, x).len() && lineage(m, x)[i] == a;
    assert(depth(m, lineage(m, x)[i]) == depth(m, x) - 1 - i);
}

/// A key lies below `root` exactly when it is a child of `root` or lies below one.
proof fn lemma_descends_split<K>(m: Map<K, K>, x: K, root: K)
    requires
        acyclic(m),
    ensures
        descends(m, x, root) <==> exists|c: K|
            #![trigger m[c]]
            m.contains_key(c) && m[c] == root && (x == c || descends(m, x, c)),
{
    if descends(m, x, root) {
        let i = choose|i: int| 0 <= i < lineage(m, x).len() && lineage(m, x)[i] == root;
        assert(m.contains_key(x)) by {
            if !m.contains_key(x) {
                assert(lineage(m, x) =~= Seq::<K>::empty());
            }
        }
        lemma_lineage_step(m, x);
        if i == 0 {
            assert(m[x] == root);
        } else {
            lemma_lineage_links(m, x, i - 1);
            let c = lineage(m, x)[i - 1];
            assert(m.contains_key(c) && m[c] == root && descends(m, x, c));
        }
    }
    if exists|c: K| #![trigger m[c]] m.contains_key(c) && m[c] == root && (x == c || descends(m, x, c)) {
        let c = choose|c: K| #![trigger m[c]] m.contains_key(c) && m[c] == root && (x == c || descends(m, x, c));
        lemma_lineage_step(m, c);
        if x == c {
            assert(lineage(m, x)[0] == root);
        } else {
            let i = choose|i: int| 0 <= i < lineage(m, x).len() && lineage(m, x)[i] == c;
            lemma_lineage_ends(m, x);
            assert(i + 1 < depth(m, x));
            lemma_lineage_links(m, x, i);
            assert(lineage(m, x)[i + 1] == root);
        }
    }
}

/// The keys collected for the children `kids[0..i]` of `root` and the keys below
/// them, to which the next child's block is added.
proof fn lemma_extend_block<K>(
    m: Map<K, K>,
    root: K,
    kids: Seq<K>,
    i: int,
    before: Seq<K>,
    sub: Seq<K>,
)
    requires
        acyclic(m),
        kids.no_duplicates(),
        forall|k: K| kids.contains(k) <==> (m.contains_key(k) && m[k] == root),
        0 <= i < kids.len(),
        before.no_duplicates(),
        forall|x: K|
            before.contains(x) <==> exists|j: int|
                0 <= j < i && (x == #[trigger] kids[j] || descends(m, x, kids[j])),
        sub.no_duplicates(),
        forall|x: K| sub.contains(x) <==> descends(m, x, kids[i]),
    ensures
        (before.push(kids[i]) + sub).no_duplicates(),
        forall|x: K|
            (before.push(kids[i]) + sub).contains(x) <==> exists|j: int|
                0 <= j < i + 1 && (x == #[trigger] kids[j] || descends(m, x, kids[j])),
{
    let c = kids[i];
    let all = before.push(c) + sub;
    assert(kids.contains(c));
    lemma_lineage_step(m, c);
    assert forall|x: K| x == c || descends(m, x, c) implies !before.contains(x) by {
        if before.contains(x) {
            let j = choose|j: int| 0 <= j < i && (x == #[trigger] kids[j] || descends(m, x, kids[j]));
            let d = kids[j];
            assert(kids.contains(d));
            lemma_lineage_step(m, d);
            assert(d != c);
            if x == c {
                if descends(m, c, d) {
                    lemma_descends_depth(m, c, d);
                }
            } else if x == d {
                lemma_descends_depth(m, d, c);
            } else {
                lemma_lineage_depths(m, x);
                let a = choose|a: int| 0 <= a < lineage(m, x).len() && lineage(m, x)[a] == c;
                let b = choose|b: int| 0 <= b < lineage(m, x).len() && lineage(m, x)[b] == d;
                assert(depth(m, lineage(m, x)[a]) == depth(m, x) - 1 - a);
                assert(depth(m, lineage(m, x)[b]) == depth(m, x) - 1 - b);
            }
        }
    }
    if sub.contains(c) {
        lemma_lineage_distinct(m, c);
    }
    assert forall|x: K| all.contains(x) <==> exists|j: int|
        0 <= j < i + 1 && (x == #[trigger] kids[j] || descends(m, x, kids[j])) by {
        if all.contains(x) && !before.contains(x) {
            let q = choose|q: int| 0 <= q < all.len() && all[q] == x;
            if q == before.len() {
                assert(x == c);
            } else if q > before.len() {
                assert(sub[q - before.len() - 1] == x);
                assert(sub.contains(x));
            } else {
                assert(before[q] == x);
            }
            assert(x == kids[i] || descends(m, x, kids[i]));
        }
        if exists|j: int| 0 <= j < i + 1 && (x == #[trigger] kids[j] || descends(m, x, kids[j])) {
            let j = choose|j: int| 0 <= j < i + 1 && (x == #[trigger] kids[j] || descends(m, x, kids[j]));
            if j == i {
                if x == c {
                    assert(all[before.len() as int] == c);
                } else {
                    assert(sub.contains(x));
                    let q = choose|q: int| 0 <= q < sub.len() && sub[q] == x;
                    assert(all[before.len() + 1 + q] == x);
                }
            } else {
                assert(before.contains(x));
                let q = choose|q: int| 0 <= q < before.len() && before[q] == x;
                assert(all[q] == x);
            }
        }
    }
    assert forall|a: int, b: int| 0 <= a < b < all.len() implies all[a] != all[b] by {
        if a < before.len() && b >= before.len() {
            let y = all[b];
            if b == before.len() {
                assert(y == c);
            } else {
                assert(y == sub[b - before.len() - 1]);
                assert(sub.contains(y));
            }
            assert(before.contains(all[a]));
        } else if a == before.len() {
            assert(sub[b - before.len() - 1] == all[b]);
            assert(sub.contains(all[b]));
        } else if a > before.len() {
            assert(all[a] == sub[a - before.len() - 1]);
            assert(all[b] == sub[b - before.len() - 1]);
        }
    }
}

/// Once the blocks of all children of `root` are collected, they hold exactly the
/// keys below `root`.
proof fn lemma_blocks_cover<K>(m: Map<K, K>, root: K, kids: Seq<K>, all: Seq<K>)
    requires
        acyclic(m),
        forall|k: K| kids.contains(k) <==> (m.contains_key(k) && m[k] == root),
        forall|x: K|
            all.contains(x) <==> exists|j: int|
                0 <= j < kids.len() && (x == #[trigger] kids[j] || descends(m, x, kids[j])),
    ensures
        forall|x: K| all.contains(x) <==> descends(m, x, root),
{
    assert forall|x: K| all.contains(x) <==> descends(m, x, root) by {
        lemma_descends_split(m, x, root);
        if descends(m, x, root) {
            let c = choose|c: K|
                #![trigger m[c]]
                m.contains_key(c) && m[c] == root && (x == c || descends(m, x, c));
            assert(kids.contains(c));
            let j = choose|j: int| 0 <= j < kids.len() && kids[j] == c;
            assert(x == kids[j] || descends(m, x, kids[j]));
        }
        if all.contains(x) {
            let j = choose|j: int| 0 <= j < kids.len() && (x == #[trigger] kids[j] || descends(m, x, kids[j]));
            assert(kids.contains(kids[j]));
        }
    }
}

/// The keys listed by a walk.
pub open spec fn indices<K: Hash + Eq + Copy + Clone>(s: Seq<TreeHier<K>>) -> Seq<K> {
    s.map_values(|e: TreeHier<K>| e.index)
}

/// A walk entry gives the key's parent (`None` for a root) and its depth.
pub open spec fn entry_ok<K: Hash + Eq + Copy + Clone>(m: Map<K, K>, e: TreeHier<K>) -> bool {
    &&& e.parent == (if m.contains_key(e.index) { Some(m[e.index]) } else { None::<K> })
    &&& e.deep == depth(m, e.index)
}

/// The parent of entry `q` of a walk, if it has one, is listed before it.
pub open spec fn parent_before<K: Hash + Eq + Copy + Clone>(s: Seq<TreeHier<K>>, q: int) -> bool {
    match s[q].parent {
        Some(p) => exists|j: int| 0 <= j < q && #[trigger] s[j].index == p,
        None => true,
    }
}

/// Entry `i` of a walk goes down from entry `i - 1`: it is a root, or its
/// parent is the key of entry `i - 1` or one of that key's ancestors (the way a
/// depth-first walk moves on).
pub open spec fn walk_step<K: Hash + Eq + Copy + Clone>(m: Map<K, K>, s: Seq<TreeHier<K>>, i: int) -> bool {
    match s[i].parent {
        None => true,
        Some(p) => p == s[i - 1].index || descends(m, s[i - 1].index, p),
    }
}

/// The keys below the key of entry `q` are listed right after it, all
/// together: up to some position they all lie below it, and from there on none
/// does.
pub open spec fn subtree_block<K: Hash + Eq + Copy + Clone>(m: Map<K, K>, s: Seq<TreeHier<K>>, q: int) -> bool {
    exists|e: int| #[trigger] block_ends_at(m, s, q, e)
}

/// The entries after `q` and before `e` lie below `q`'s key, and none from `e`
/// on does.
pub open spec fn block_ends_at<K: Hash + Eq + Copy + Clone>(m: Map<K, K>, s: Seq<TreeHier<K>>, q: int, e: int) -> bool {
    &&& q < e <= s.len()
    &&& forall|t: int| q < t < e ==> #[trigger] descends(m, s[t].index, s[q].index)
    &&& forall|t: int| e <= t < s.len() ==> !#[trigger] descends(m, s[t].index, s[q].index)
}

/// Below is transitive.
proof fn lemma_descends_trans<K>(m: Map<K, K>, y: K, p: K, x: K)
    requires
        acyclic(m),
        descends(m, y, p),
        descends(m, p, x),
    ensures
        descends(m, y, x),
    decreases depth(m, y),
{
    assert(m.contains_key(y)) by {
        if !m.contains_key(y) {
            assert(lineage(m, y) =~= Seq::<K>::empty());
        }
    }
    lemma_lineage_step(m, y);
    let q = m[y];
    if q == p {
        let i = choose|i: int| 0 <= i < lineage(m, p).len() && lineage(m, p)[i] == x;
        assert(lineage(m, y)[i + 1] == x);
    } else {
        let i = choose|i: int| 0 <= i < lineage(m, y).len() && lineage(m, y)[i] == p;
        assert(i > 0);
        assert(lineage(m, q)[i - 1] == p);
        lemma_descends_trans(m, q, p, x);
        let j = choose|j: int| 0 <= j < lineage(m, q).len() && lineage(m, q)[j] == x;
        assert(lineage(m, y)[j + 1] == x);
    }
}

/// A child of `p` lies below `p`.
proof fn lemma_child_descends<K>(m: Map<K, K>, c: K)
    requires
        acyclic(m),
        m.contains_key(c),
    ensures
        descends(m, c, m[c]),
{
    lemma_lineage_step(m, c);
    assert(lineage(m, c)[0] == m[c]);
}

/// In a walk whose steps go down (see `walk_step`), once an entry after `q`
/// does not lie below `q`'s key, the next one does not either.
proof fn lemma_walk_leaves<K: Hash + Eq + Copy + Clone>(m: Map<K, K>, s: Seq<TreeHier<K>>, q: int, t: int)
    requires
        acyclic(m),
        indices(s).no_duplicates(),
        forall|i: int| 0 < i < s.len() ==> #[trigger] walk_step(m, s, i),
        forall|i: int| 0 <= i < s.len() ==> entry_ok(m, #[trigger] s[i]),
        0 <= q < t,
        t + 1 < s.len(),
        !descends(m, s[t].index, s[q].index),
    ensures
        !descends(m, s[t + 1].index, s[q].index),
{
    let x = s[q].index;
    let w = s[t].index;
    let y = s[t + 1].index;
    if descends(m, y, x) {
        assert(m.contains_key(y)) by {
            if !m.contains_key(y) {
                assert(lineage(m, y) =~= Seq::<K>::empty());
            }
        }
        assert(entry_ok(m, s[t + 1]));
        let p = m[y];
        lemma_lineage_step(m, y);
        assert(walk_step(m, s, t + 1));
        assert(indices(s)[q] == x && indices(s)[t] == w);
        if x != p {
            let i = choose|i: int| 0 <= i < lineage(m, y).len() && lineage(m, y)[i] == x;
            assert(i > 0);
            assert(lineage(m, p)[i - 1] == x);
        }
        if p == w {
            assert(x != w);
        } else if x == p {
        } else {
            lemma_descends_trans(m, w, p, x);
        }
    }
}

/// Where the keys below `q`'s key stop, counting from `t`.
pub open spec fn block_end<K: Hash + Eq + Copy + Clone>(m: Map<K, K>, s: Seq<TreeHier<K>>, q: int, t: int) -> int
    decreases s.len() - t,
{
    if t >= s.len() || t < 0 {
        s.len() as int
    } else if !descends(m, s[t].index, s[q].index) {
        t
    } else {
        block_end(m, s, q, t + 1)
    }
}

proof fn lemma_block_end<K: Hash + Eq + Copy + Clone>(m: Map<K, K>, s: Seq<TreeHier<K>>, q: int, t: int)
    requires
        0 <= t <= s.len(),
    ensures
        t <= block_end(m, s, q, t) <= s.len(),
        forall|u: int| t <= u < block_end(m, s, q, t) ==> #[trigger] descends(m, s[u].index, s[q].index),
        block_end(m, s, q, t) < s.len() ==> !descends(m, s[block_end(m, s, q, t)].index, s[q].index),
    decreases s.len() - t,
{
    if t < s.len() && descends(m, s[t].index, s[q].index) {
        lemma_block_end(m, s, q, t + 1);
    }
}

proof fn lemma_walk_stays_out<K: Hash + Eq + Copy + Clone>(m: Map<K, K>, s: Seq<TreeHier<K>>, q: int, t: int)
    requires
        acyclic(m),
        indices(s).no_duplicates(),
        forall|i: int| 0 < i < s.len() ==> #[trigger] walk_step(m, s, i),
        forall|i: int| 0 <= i < s.len() ==> entry_ok(m, #[trigger] s[i]),
        0 <= q < t < s.len(),
        !descends(m, s[t].index, s[q].index),
    ensures
        forall|u: int| t <= u < s.len() ==> !#[trigger] descends(m, s[u].index, s[q].index),
    decreases s.len() - t,
{
    if t + 1 < s.len() {
        lemma_walk_leaves(m, s, q, t);
        lemma_walk_stays_out(m, s, q, t + 1);
    }
}

/// In a walk of a forest whose steps go down (see `walk_step`), listing each
/// key once with its parent and depth, the keys below each entry come right
/// after it, all together: the walk is depth first.
pub proof fn lemma_walk_is_depth_first<K: Hash + Eq + Copy + Clone>(m: Map<K, K>, s: Seq<TreeHier<K>>, q: int)
    requires
        acyclic(m),
        indices(s).no_duplicates(),
        forall|i: int| 0 < i < s.len() ==> #[trigger] walk_step(m, s, i),
        forall|i: int| 0 <= i < s.len() ==> entry_ok(m, #[trigger] s[i]),
        0 <= q < s.len(),
    ensures
        subtree_block(m, s, q),
{
    lemma_block_end(m, s, q, q + 1);
    let e = block_end(m, s, q, q + 1);
    if e < s.len() {
        lemma_walk_stays_out(m, s, q, e);
    }
    assert(block_ends_at(m, s, q, e));
}

/// Every key lies below a root, and the roots lie below nothing.
proof fn lemma_keys_below_roots<K>(m: Map<K, K>, x: K)
    requires
        acyclic(m),
    ensures
        m.contains_key(x) <==> exists|r: K| is_root(m, r) && #[trigger] descends(m, x, r),
        is_root(m, x) ==> forall|r: K| !#[trigger] descends(m, x, r),
        forall|r1: K, r2: K|
            is_root(m, r1) && is_root(m, r2) && #[trigger] descends(m, x, r1) && #[trigger] descends(m, x, r2)
                ==> r1 == r2,
{
    if !m.contains_key(x) {
        assert(lineage(m, x) =~= Seq::<K>::empty());
    } else {
        lemma_lineage_step(m, x);
        lemma_lineage_ends(m, x);
        let n = lineage(m, x).len();
        let r = lineage(m, x).last();
        if n >= 2 {
            lemma_lineage_links(m, x, n - 2);
            assert(m.contains_key(lineage(m, x)[n - 2]) && m[lineage(m, x)[n - 2]] == r);
        } else {
            assert(m[x] == r);
        }
        assert(is_root(m, r));
        assert(descends(m, x, r));
    }
    assert forall|r1: K, r2: K|
        is_root(m, r1) && is_root(m, r2) && #[trigger] descends(m, x, r1) && #[trigger] descends(m, x, r2)
            implies r1 == r2 by {
        let a = choose|a: int| 0 <= a < lineage(m, x).len() && lineage(m, x)[a] == r1;
        let b = choose|b: int| 0 <= b < lineage(m, x).len() && lineage(m, x)[b] == r2;
        let n = lineage(m, x).len();
        if a + 1 < n {
            lemma_lineage_links(m, x, a);
        }
        if b + 1 < n {
            lemma_lineage_links(m, x, b);
        }
        assert(a == n - 1 && b == n - 1);
    }
}

/// What `get` gives back of a key is the parent last set by `insert`, and
/// nothing after `remove`; other keys keep their parent.
pub proof fn lemma_tree_read_after_write<K>(m: Map<K, K>, key: K, parent: K, other: K)
    ensures
        m.insert(key, parent).contains_key(key),
        m.insert(key, parent)[key] == parent,
        !m.remove(key).contains_key(key),
        other != key ==> (m.insert(key, parent).contains_key(other) == m.contains_key(other)),
        other != key && m.contains_key(other) ==> m.insert(key, parent)[other] == m[other],
        other != key ==> (m.remove(key).contains_key(other) == m.contains_key(other)),
{
}

/// A forest: each key that has a parent maps to it.
#[derive(Debug, Clone)]
pub struct Tree<K: Hash + Eq + Copy + Clone> {
    parents: HashMap<K, K>,
}

/// One entry of a walk down a forest: a key, its parent and its depth.
#[derive(Debug, Clone, Copy)]
pub struct TreeHier<K: Hash + Eq + Copy + Clone> {
    pub index: K,
    pub parent: Option<K>,
    pub deep: usize,
}

impl<K: Hash + Eq + Copy + Clone> Tree<K> {
    /// The parent of each key.
    pub closed spec fn view(&self) -> Map<K, K> {
        self.parents@
    }

    /// An empty forest.
    pub fn new() -> (r: Self)
        ensures
            r@ == Map::<K, K>::empty(),
    {
        Tree { parents: HashMap::new() }
    }

    /// Sets the parent of `key`, returning its previous parent.
    pub fn insert(&mut self, key: K, parent: K) -> (r: Option<K>)
        requires
            key_model::<K>(),
        ensures
            final(self)@ == old(self)@.insert(key, parent),
            r == (if old(self)@.contains_key(key) { Some(old(self)@[key]) } else { None::<K> }),
    {
        broadcast use vstd::std_specs::hash::group_hash_axioms;
        self.parents.insert(key, parent)
    }

    /// Forgets the parent of `key`, returning it.
    pub fn remove(&mut self, key: K) -> (r: Option<K>)
        requires
            key_model::<K>(),
        ensures
            final(self)@ == old(self)@.remove(key),
            r == (if old(self)@.contains_key(key) { Some(old(self)@[key]) } else { None::<K> }),
    {
        broadcast use vstd::std_specs::hash::group_hash_axioms;
        self.parents.remove(&key)
    }

    /// The parent of `key`.
    pub fn get(&self, key: K) -> (r: Option<K>)
        requires
            key_model::<K>(),
        ensures
            r == (if self@.contains_key(key) { Some(self@[key]) } else { None::<K> }),
    {
        broadcast use vstd::std_specs::hash::group_hash_axioms;
        match self.parents.get(&key) {
            Some(p) => Some(*p),
            None => None,
        }
    }

    /// The map from each key to its parent.
    pub fn list_all(&self) -> (r: &HashMap<K, K>)
        ensures
            r@ == self@,
    {
        &self.parents
    }

    fn keys(&self) -> (r: Vec<K>)
        requires
            key_model::<K>(),
        ensures
            r@.no_duplicates(),
            forall|k: K| r@.contains(k) <==> self@.contains_key(k),
    {
        broadcast use vstd::std_specs::hash::group_hash_axioms;
        let mut r: Vec<K> = Vec::new();
        let ghost all = self.parents.keys().remaining().unref();
        for k in it: self.parents.keys()
            invariant
                it.seq().unref() == all,
                all.to_set() == self@.dom(),
                all.no_duplicates(),
                r@ == all.take(it.index() as int),
        {
            assert(all.take(it.index() + 1) =~= all.take(it.index() as int).push(*k));
            r.push(*k);
        }
        assert(all.take(all.len() as int) =~= all);
        proof {
            assert forall|k: K| r@.contains(k) <==> self@.contains_key(k) by {
                if self@.contains_key(k) {
                    assert(all.to_set().contains(k));
                }
            }
        }
        r
    }

    /// The keys whose parent is `root`, each once, in no particular order.
    pub fn children(&self, root: K) -> (r: Vec<K>)
        requires
            key_model::<K>(),
        ensures
            r@.no_duplicates(),
            forall|k: K| r@.contains(k) <==> (self@.contains_key(k) && self@[k] == root),
    {
        let keys = self.keys();
        let mut r: Vec<K> = Vec::new();
        let mut i: usize = 0;
        while i < keys.len()
            invariant
                key_model::<K>(),
                keys@.no_duplicates(),
                forall|k: K| keys@.contains(k) <==> self@.contains_key(k),
                i <= keys@.len(),
                r@.no_duplicates(),
                forall|k: K|
                    r@.contains(k) <==> (keys@.take(i as int).contains(k) && self@.contains_key(k)
                        && self@[k] == root),
            decreases keys@.len() - i,
        {
            let k = keys[i];
            assert(keys@.contains(k));
            assert(keys@.take(i + 1) =~= keys@.take(i as int).push(k));
            let ghost old_r = r@;
            let p = self.get(k);
            if p.is_some() && same(&p.unwrap(), &root) {
                proof {
                    if old_r.contains(k) {
                        let j = choose|j: int| 0 <= j < i && keys@.take(i as int)[j] == k;
                        assert(keys@[j] == keys@[i as int]);
                    }
                }
                r.push(k);
                assert forall|x: K| r@.contains(x) <==> (keys@.take(i + 1).contains(x)
                    && self@.contains_key(x) && self@[x] == root) by {
                    if x != k {
                        assert(r@.contains(x) == old_r.contains(x));
                    }
                    assert(r@[r@.len() - 1] == k);
                }
            } else {
                assert forall|x: K| r@.contains(x) <==> (keys@.take(i + 1).contains(x)
                    && self@.contains_key(x) && self@[x] == root) by {
                    if x == k {
                        assert(!(self@.contains_key(x) && self@[x] == root));
                    }
                }
            }
            i = i + 1;
        }
        assert(keys@.take(keys@.len() as int) =~= keys@);
        r
    }

    /// The descendants of `root`, each once, in no particular order.
    pub fn children_deep(&self, root: K) -> (r: Vec<K>)
        requires
            key_model::<K>(),
            acyclic(self@),
        ensures
            r@.no_duplicates(),
            forall|x: K| r@.contains(x) <==> descends(self@, x, root),
        decreases self@.dom().len() - depth(self@, root),
    {
        let kids = self.children(root);
        let mut buffer: Vec<K> = Vec::new();
        let mut i: usize = 0;
        proof {
            lemma_ancestors_len(self@, root, self@.dom().len());
        }
        while i < kids.len()
            invariant
                key_model::<K>(),
                acyclic(self@),
                depth(self@, root) <= self@.dom().len(),
                kids@.no_duplicates(),
                forall|k: K| kids@.contains(k) <==> (self@.contains_key(k) && self@[k] == root),
                i <= kids@.len(),
                buffer@.no_duplicates(),
                forall|x: K|
                    buffer@.contains(x) <==> exists|j: int|
                        0 <= j < i && (x == #[trigger] kids@[j] || descends(self@, x, kids@[j])),
            decreases kids@.len() - i,
        {
            let c = kids[i];
            assert(kids@.contains(c));
            proof {
                lemma_lineage_step(self@, c);
                lemma_ancestors_len(self@, c, self@.dom().len());
            }
            let sub = self.children_deep(c);
            let ghost before = buffer@;
            proof {
                lemma_extend_block(self@, root, kids@, i as int, before, sub@);
            }
            buffer.push(c);
            let mut t: usize = 0;
            while t < sub.len()
                invariant
                    t <= sub@.len(),
                    buffer@ == before.push(c) + sub@.take(t as int),
                decreases sub@.len() - t,
            {
                assert(sub@.take(t + 1) =~= sub@.take(t as int).push(sub@[t as int]));
                buffer.push(sub[t]);
                t = t + 1;
            }
            assert(sub@.take(sub@.len() as int) =~= sub@);
            i = i + 1;
        }
        proof {
            lemma_blocks_cover(self@, root, kids@, buffer@);
        }
        buffer
    }

    fn find_parents(&self, buffer: &mut Vec<K>, from: K)
        requires
            key_model::<K>(),
            reaches_root(self@, from, self@.dom().len()),
        ensures
            final(buffer)@ == old(buffer)@ + lineage(self@, from),
    {
        let ghost m = self@;
        let ghost start = buffer@;
        let ghost mut fuel: nat = m.dom().len();
        let mut current = from;
        loop
            invariant_except_break
                key_model::<K>(),
                m == self@,
                reaches_root(m, current, fuel),
                start + lineage(m, from) == buffer@ + ancestors(m, current, fuel),
            ensures
                buffer@ == start + lineage(m, from),
            decreases fuel,
        {
            let parent = self.get(current);
            match parent {
                Some(location_id) => {
                    assert(ancestors(m, current, fuel) == seq![location_id] + ancestors(m, location_id, (fuel - 1) as nat));
                    buffer.push(location_id);
                    current = location_id;
                    proof {
                        fuel = (fuel - 1) as nat;
                    }
                    assert(buffer@ + ancestors(m, current, fuel) =~= start + lineage(m, from));
                },
                None => {
                    assert(ancestors(m, current, fuel) =~= Seq::<K>::empty());
                    assert(buffer@ =~= start + lineage(m, from));
                    break;
                },
            }
        }
    }

    /// `from` followed by its ancestors, nearest first.
    pub fn parents_inclusive(&self, from: K) -> (r: Vec<K>)
        requires
            key_model::<K>(),
            reaches_root(self@, from, self@.dom().len()),
        ensures
            r@ == seq![from] + lineage(self@, from),
    {
        let mut buffer = vec![from];
        self.find_parents(&mut buffer, from);
        buffer
    }

    /// The ancestors of `from`, nearest first (not `from` itself).
    pub fn parents(&self, from: K) -> (r: Vec<K>)
        requires
            key_model::<K>(),
            reaches_root(self@, from, self@.dom().len()),
        ensures
            r@ == lineage(self@, from),
    {
        let mut buffer: Vec<K> = Vec::new();
        self.find_parents(&mut buffer, from);
        assert(buffer@ =~= lineage(self@, from));
        buffer
    }

    /// The roots of the forest: the parents that have no parent themselves, each
    /// once, in no particular order.
    pub fn find_roots(&self) -> (r: Vec<K>)
        requires
            key_model::<K>(),
            acyclic(self@),
        ensures
            r@.no_duplicates(),
            forall|v: K| r@.contains(v) <==> is_root(self@, v),
    {
        let keys = self.keys();
        let mut roots: Vec<K> = Vec::new();
        let mut i: usize = 0;
        while i < keys.len()
            invariant
                key_model::<K>(),
                acyclic(self@),
                keys@.no_duplicates(),
                forall|k: K| keys@.contains(k) <==> self@.contains_key(k),
                i <= keys@.len(),
                roots@.no_duplicates(),
                forall|v: K|
                    roots@.contains(v) <==> (!self@.contains_key(v) && exists|j: int|
                        0 <= j < i && self@[#[trigger] keys@[j]] == v),
            decreases keys@.len() - i,
        {
            let k = keys[i];
            assert(keys@.contains(k));
            let v = self.get(k).unwrap();
            proof {
                lemma_reaches(self@, v);
            }
            let above = self.parents(v);
            let ghost before = roots@;
            if above.len() == 0 {
                assert(!self@.contains_key(v)) by {
                    if self@.contains_key(v) {
                        lemma_lineage_step(self@, v);
                    }
                }
                let mut seen = false;
                let mut t: usize = 0;
                while t < roots.len()
                    invariant
                        key_model::<K>(),
                        t <= roots@.len(),
                        seen == roots@.take(t as int).contains(v),
                    decreases roots@.len() - t,
                {
                    assert(roots@.take(t + 1) =~= roots@.take(t as int).push(roots@[t as int]));
                    if same(&roots[t], &v) {
                        seen = true;
                    }
                    t = t + 1;
                }
                assert(roots@.take(roots@.len() as int) =~= roots@);
                if !seen {
                    roots.push(v);
                }
            } else {
                assert(self@.contains_key(v)) by {
                    if !self@.contains_key(v) {
                        assert(lineage(self@, v) =~= Seq::<K>::empty());
                    }
                }
            }
            proof {
                assert forall|w: K| roots@.contains(w) <==> (!self@.contains_key(w) && exists|j: int|
                    0 <= j < i + 1 && self@[#[trigger] keys@[j]] == w) by {
                    if roots@.contains(w) && !before.contains(w) {
                        assert(w == v);
                        assert(self@[keys@[i as int]] == w);
                    }
                    if !self@.contains_key(w) && exists|j: int| 0 <= j < i + 1 && self@[#[trigger] keys@[j]] == w {
                        let j = choose|j: int| 0 <= j < i + 1 && self@[#[trigger] keys@[j]] == w;
                        if j < i {
                            assert(before.contains(w));
                            let q = choose|q: int| 0 <= q < before.len() && before[q] == w;
                            assert(roots@[q] == w);
                        } else {
                            assert(w == v);
                        }
                    }
                }
            }
            i = i + 1;
        }
        proof {
            assert forall|v: K| roots@.contains(v) <==> is_root(self@, v) by {
                if is_root(self@, v) {
                    let k = choose|k: K| #[trigger] self@.contains_key(k) && self@[k] == v;
                    assert(keys@.contains(k));
                    let j = choose|j: int| 0 <= j < keys@.len() && keys@[j] == k;
                    assert(self@[keys@[j]] == v);
                }
                if roots@.contains(v) {
                    let j = choose|j: int| 0 <= j < keys@.len() && self@[#[trigger] keys@[j]] == v;
                    assert(keys@.contains(keys@[j]));
                }
            }
        }
        roots
    }

    fn add_subtree(&self, list: &mut Vec<TreeHier<K>>, deep: usize, parent: K)
        requires
            key_model::<K>(),
            acyclic(self@),
            self@.dom().len() < usize::MAX,
            deep == depth(self@, parent) + 1,
            exists|j: int| 0 <= j < old(list)@.len() && #[trigger] old(list)@[j].index == parent,
            old(list)@.len() > 0,
            old(list)@.last().index == parent,
        ensures
            final(list)@.len() >= old(list)@.len(),
            final(list)@.len() > 0,
            final(list)@.last().index == parent || descends(self@, final(list)@.last().index, parent),
            forall|i: int| old(list)@.len() <= i < final(list)@.len() ==> #[trigger] walk_step(self@, final(list)@, i),
            final(list)@.subrange(0, old(list)@.len() as int) == old(list)@,
            indices(final(list)@.skip(old(list)@.len() as int)).no_duplicates(),
            forall|x: K|
                indices(final(list)@.skip(old(list)@.len() as int)).contains(x) <==> descends(self@, x, parent),
            forall|i: int|
                old(list)@.len() <= i < final(list)@.len() ==> entry_ok(self@, #[trigger] final(list)@[i]),
            forall|i: int|
                old(list)@.len() <= i < final(list)@.len() ==> #[trigger] parent_before(final(list)@, i),
        decreases self@.dom().len() - depth(self@, parent),
    {
        let ghost start = list@;
        let kids = self.children(parent);
        let mut i: usize = 0;
        proof {
            lemma_ancestors_len(self@, parent, self@.dom().len());
        }
        while i < kids.len()
            invariant
                key_model::<K>(),
                acyclic(self@),
                self@.dom().len() < usize::MAX,
                deep == depth(self@, parent) + 1,
                depth(self@, parent) <= self@.dom().len(),
                kids@.no_duplicates(),
                forall|k: K| kids@.contains(k) <==> (self@.contains_key(k) && self@[k] == parent),
                i <= kids@.len(),
                list@.len() >= start.len(),
                list@.subrange(0, start.len() as int) == start,
                indices(list@.skip(start.len() as int)).no_duplicates(),
                forall|x: K|
                    indices(list@.skip(start.len() as int)).contains(x) <==> exists|j: int|
                        0 <= j < i && (x == #[trigger] kids@[j] || descends(self@, x, kids@[j])),
                forall|q: int| start.len() <= q < list@.len() ==> entry_ok(self@, #[trigger] list@[q]),
                forall|q: int| start.len() <= q < list@.len() ==> #[trigger] parent_before(list@, q),
                exists|j: int| 0 <= j < start.len() && #[trigger] start[j].index == parent,
                start.len() > 0,
                start.last().index == parent,
                list@.len() > 0,
                list@.last().index == parent || descends(self@, list@.last().index, parent),
                forall|q: int| start.len() <= q < list@.len() ==> #[trigger] walk_step(self@, list@, q),
            decreases kids@.len() - i,
        {
            let c = kids[i];
            assert(kids@.contains(c));
            proof {
                lemma_lineage_step(self@, c);
                lemma_ancestors_len(self@, c, self@.dom().len());
            }
            let ghost before = list@;
            proof {
                let j = choose|j: int| 0 <= j < start.len() && #[trigger] start[j].index == parent;
                assert(list@.subrange(0, start.len() as int)[j] == list@[j]);
            }
            list.push(TreeHier { index: c, parent: Some(parent), deep });
            let ghost mid = list@;
            proof {
                let j = choose|j: int| 0 <= j < start.len() && #[trigger] start[j].index == parent;
                assert(before.subrange(0, start.len() as int)[j] == before[j]);
                assert(mid[j].index == parent);
                assert(parent_before(mid, before.len() as int));
                assert forall|q: int| start.len() <= q < mid.len() implies #[trigger] parent_before(mid, q) by {
                    if q < before.len() {
                        assert(parent_before(before, q));
                        if let Some(p) = before[q].parent {
                            let t = choose|t: int| 0 <= t < q && #[trigger] before[t].index == p;
                            assert(mid[t] == before[t]);
                        }
                    }
                }
                assert(mid[before.len() as int].index == c);
                assert(mid[before.len() - 1] == before.last());
                assert(walk_step(self@, mid, before.len() as int));
                assert forall|q: int| start.len() <= q < mid.len() implies #[trigger] walk_step(self@, mid, q) by {
                    if q < before.len() {
                        assert(walk_step(self@, before, q));
                        assert(mid[q] == before[q]);
                        assert(mid[q - 1] == before[q - 1]);
                    }
                }
            }
            self.add_subtree(list, deep + 1, c);
            proof {
                let sub = indices(list@.skip(mid.len() as int));
                lemma_extend_block(self@, parent, kids@, i as int, indices(before.skip(start.len() as int)), sub);
                assert(list@.subrange(0, mid.len() as int) == mid);
                assert forall|q: int| 0 <= q < mid.len() implies list@[q] == mid[q] by {
                    assert(list@.subrange(0, mid.len() as int)[q] == list@[q]);
                }
                let lhs = list@.skip(start.len() as int);
                let rhs = before.skip(start.len() as int).push(mid[before.len() as int]) + list@.skip(mid.len() as int);
                assert(mid == before.push(mid[before.len() as int]));
                assert(lhs.len() == rhs.len());
                assert forall|q: int| 0 <= q < lhs.len() implies lhs[q] == rhs[q] by {
                    let bl = before.len() - start.len();
                    if q < bl {
                        assert(lhs[q] == list@[start.len() + q]);
                        assert(list@[start.len() + q] == mid[start.len() + q]);
                    } else if q == bl {
                        assert(lhs[q] == list@[before.len() as int]);
                    }
                }
                assert(lhs =~= rhs);
                assert(indices(list@.skip(start.len() as int)) =~= indices(before.skip(start.len() as int)).push(c) + sub);
                assert(list@.subrange(0, start.len() as int) =~= mid.subrange(0, start.len() as int));
                assert forall|q: int| start.len() <= q < list@.len() implies entry_ok(self@, #[trigger] list@[q]) by {
                    if q < before.len() {
                        assert(list@[q] == mid[q]);
                        assert(mid[q] == before[q]);
                    } else if q == before.len() {
                        assert(list@[q] == mid[q]);
                    }
                }
                assert forall|q: int| start.len() <= q < list@.len() implies #[trigger] parent_before(list@, q) by {
                    if q < mid.len() {
                        assert(parent_before(mid, q));
                        assert(list@[q] == mid[q]);
                        if let Some(p) = mid[q].parent {
                            let t = choose|t: int| 0 <= t < q && #[trigger] mid[t].index == p;
                            assert(list@[t] == mid[t]);
                        }
                    }
                }
                let j = choose|j: int| 0 <= j < start.len() && #[trigger] start[j].index == parent;
                assert(list@.subrange(0, start.len() as int)[j] == list@[j]);
                assert forall|q: int| start.len() <= q < list@.len() implies #[trigger] walk_step(self@, list@, q) by {
                    if q < mid.len() {
                        assert(walk_step(self@, mid, q));
                        assert(list@[q] == mid[q]);
                        assert(list@[q - 1] == mid[q - 1]);
                    }
                }
                lemma_child_descends(self@, c);
                if list@.last().index != c {
                    lemma_descends_trans(self@, list@.last().index, c, parent);
                }
            }
            i = i + 1;
        }
        proof {
            lemma_blocks_cover(self@, parent, kids@, indices(list@.skip(start.len() as int)));
        }
    }

    /// A walk down the forest, depth first: each root (with no parent, at depth
    /// 0) followed by the keys below it, each key with its parent and depth and
    /// followed right away by all the keys below it.
    pub fn iter_hier(&self) -> (r: Vec<TreeHier<K>>)
        requires
            key_model::<K>(),
            acyclic(self@),
            self@.dom().len() < usize::MAX,
        ensures
            indices(r@).no_duplicates(),
            forall|x: K| #[trigger] indices(r@).contains(x) <==> (self@.contains_key(x) || is_root(self@, x)),
            forall|i: int| 0 <= i < r@.len() ==> entry_ok(self@, #[trigger] r@[i]),
            forall|i: int| 0 <= i < r@.len() ==> #[trigger] parent_before(r@, i),
            forall|i: int| 0 < i < r@.len() ==> #[trigger] walk_step(self@, r@, i),
            forall|q: int| 0 <= q < r@.len() ==> #[trigger] subtree_block(self@, r@, q),
    {
        let roots = self.find_roots();
        let mut list: Vec<TreeHier<K>> = Vec::new();
        let mut i: usize = 0;
        while i < roots.len()
            invariant
                key_model::<K>(),
                acyclic(self@),
                self@.dom().len() < usize::MAX,
                roots@.no_duplicates(),
                forall|v: K| roots@.contains(v) <==> is_root(self@, v),
                i <= roots@.len(),
                indices(list@).no_duplicates(),
                forall|x: K|
                    indices(list@).contains(x) <==> exists|j: int|
                        0 <= j < i && (x == #[trigger] roots@[j] || descends(self@, x, roots@[j])),
                forall|q: int| 0 <= q < list@.len() ==> entry_ok(self@, #[trigger] list@[q]),
                forall|q: int| 0 <= q < list@.len() ==> #[trigger] parent_before(list@, q),
                forall|q: int| 0 < q < list@.len() ==> #[trigger] walk_step(self@, list@, q),
            decreases roots@.len() - i,
        {
            let r = roots[i];
            assert(roots@.contains(r));
            let ghost before = list@;
            assert(lineage(self@, r) =~= Seq::<K>::empty());
            list.push(TreeHier { index: r, parent: None, deep: 0 });
            let ghost mid = list@;
            proof {
                assert(mid[before.len() as int].index == r);
                assert forall|q: int| 0 < q < mid.len() implies #[trigger] walk_step(self@, mid, q) by {
                    if q < before.len() {
                        assert(walk_step(self@, before, q));
                        assert(mid[q] == before[q]);
                        assert(mid[q - 1] == before[q - 1]);
                    }
                }
                assert forall|q: int| 0 <= q < mid.len() implies #[trigger] parent_before(mid, q) by {
                    if q < before.len() {
                        assert(parent_before(before, q));
                        if let Some(p) = before[q].parent {
                            let t = choose|t: int| 0 <= t < q && #[trigger] before[t].index == p;
                            assert(mid[t] == before[t]);
                        }
                    }
                }
            }
            self.add_subtree(&mut list, 1, r);
            proof {
                let sub = indices(list@.skip(mid.len() as int));
                let old_idx = indices(before);
                assert(list@.subrange(0, mid.len() as int) == mid);
                assert forall|q: int| 0 <= q < mid.len() implies list@[q] == mid[q] by {
                    assert(list@.subrange(0, mid.len() as int)[q] == list@[q]);
                }
                assert(list@ =~= before.push(mid[before.len() as int]) + list@.skip(mid.len() as int));
                assert(indices(list@) =~= old_idx.push(r) + sub);
                // the new block is disjoint from the blocks of earlier roots
                assert forall|x: K| x == r || descends(self@, x, r) implies !old_idx.contains(x) by {
                    if old_idx.contains(x) {
                        let j = choose|j: int| 0 <= j < i && (x == #[trigger] roots@[j] || descends(self@, x, roots@[j]));
                        let d = roots@[j];
                        assert(roots@.contains(d));
                        assert(d != r);
                        lemma_keys_below_roots(self@, x);
                    }
                }
                assert(!sub.contains(r)) by {
                    if sub.contains(r) {
                        assert(descends(self@, r, r));
                    }
                }
                let all = old_idx.push(r) + sub;
                assert forall|a: int, b: int| 0 <= a < b < all.len() implies all[a] != all[b] by {
                    if a < old_idx.len() && b >= old_idx.len() {
                        let y = all[b];
                        if b == old_idx.len() {
                            assert(y == r);
                        } else {
                            assert(y == sub[b - old_idx.len() - 1]);
                            assert(sub.contains(y));
                        }
                        assert(old_idx.contains(all[a]));
                    } else if a == old_idx.len() {
                        assert(sub[b - old_idx.len() - 1] == all[b]);
                        assert(sub.contains(all[b]));
                    } else if a > old_idx.len() {
                        assert(all[a] == sub[a - old_idx.len() - 1]);
                        assert(all[b] == sub[b - old_idx.len() - 1]);
                    }
                }
                assert forall|x: K| all.contains(x) <==> exists|j: int|
                    0 <= j < i + 1 && (x == #[trigger] roots@[j] || descends(self@, x, roots@[j])) by {
                    if all.contains(x) && !old_idx.contains(x) {
                        let q = choose|q: int| 0 <= q < all.len() && all[q] == x;
                        if q == old_idx.len() {
                            assert(x == r);
                        } else if q > old_idx.len() {
                            assert(sub[q - old_idx.len() - 1] == x);
                            assert(sub.contains(x));
                        } else {
                            assert(old_idx[q] == x);
                        }
                        assert(x == roots@[i as int] || descends(self@, x, roots@[i as int]));
                    }
                    if exists|j: int| 0 <= j < i + 1 && (x == #[trigger] roots@[j] || descends(self@, x, roots@[j])) {
                        let j = choose|j: int| 0 <= j < i + 1 && (x == #[trigger] roots@[j] || descends(self@, x, roots@[j]));
                        if j == i {
                            if x == r {
                                assert(all[old_idx.len() as int] == r);
                            } else {
                                assert(sub.contains(x));
                                let q = choose|q: int| 0 <= q < sub.len() && sub[q] == x;
                                assert(all[old_idx.len() + 1 + q] == x);
                            }
                        } else {
                            assert(old_idx.contains(x));
                            let q = choose|q: int| 0 <= q < old_idx.len() && old_idx[q] == x;
                            assert(all[q] == x);
                        }
                    }
                }
                assert forall|q: int| 0 <= q < list@.len() implies entry_ok(self@, #[trigger] list@[q]) by {
                    if q < mid.len() {
                        assert(list@[q] == mid[q]);
                        if q < before.len() {
                            assert(mid[q] == before[q]);
                        }
                    }
                }
                assert forall|q: int| 0 <= q < list@.len() implies #[trigger] parent_before(list@, q) by {
                    if q < mid.len() {
                        assert(parent_before(mid, q));
                        assert(list@[q] == mid[q]);
                        if let Some(p) = mid[q].parent {
                            let t = choose|t: int| 0 <= t < q && #[trigger] mid[t].index == p;
                            assert(list@[t] == mid[t]);
                        }
                    }
                }
                assert forall|q: int| 0 < q < list@.len() implies #[trigger] walk_step(self@, list@, q) by {
                    if q < mid.len() {
                        assert(walk_step(self@, mid, q));
                        assert(list@[q] == mid[q]);
                        assert(list@[q - 1] == mid[q - 1]);
                    }
                }
            }
            i = i + 1;
        }
        proof {
            assert forall|x: K| indices(list@).contains(x) <==> (self@.contains_key(x) || is_root(self@, x)) by {
                lemma_keys_below_roots(self@, x);
                if self@.contains_key(x) {
                    let r = choose|r: K| is_root(self@, r) && #[trigger] descends(self@, x, r);
                    assert(roots@.contains(r));
                    let j = choose|j: int| 0 <= j < roots@.len() && roots@[j] == r;
                    assert(descends(self@, x, roots@[j]));
                }
                if is_root(self@, x) {
                    assert(roots@.contains(x));
                    let j = choose|j: int| 0 <= j < roots@.len() && roots@[j] == x;
                    assert(x == roots@[j]);
                }
                if indices(list@).contains(x) {
                    let j = choose|j: int| 0 <= j < roots@.len() && (x == #[trigger] roots@[j] || descends(self@, x, roots@[j]));
                    assert(roots@.contains(roots@[j]));
                    if descends(self@, x, roots@[j]) {
                        assert(lineage(self@, x).len() > 0);
                        assert(self@.contains_key(x)) by {
                            if !self@.contains_key(x) {
                                assert(lineage(self@, x) =~= Seq::<K>::empty());
                            }
                        }
                    }
                }
            }
            assert forall|q: int| 0 <= q < list@.len() implies #[trigger] subtree_block(self@, list@, q) by {
                lemma_walk_is_depth_first(self@, list@, q);
            }
        }
        list
    }
}

/// A walk down a forest (see `Tree::iter_hier`), handed out one entry at a time.
pub struct TreeIterator<'a, K: Hash + Eq + Copy + Clone> {
    tree: &'a Tree<K>,
    list: Vec<TreeHier<K>>,
    next_index: usize,
}

impl<'a, K: Hash + Eq + Copy + Clone> TreeIterator<'a, K> {
    /// The forest walked.
    pub closed spec fn forest(&self) -> Map<K, K> {
        self.tree@
    }

    /// The entries not handed out yet.
    pub closed spec fn rest(&self) -> Seq<TreeHier<K>> {
        if self.next_index < self.list@.len() {
            self.list@.skip(self.next_index as int)
        } else {
            Seq::empty()
        }
    }

    /// A walk down `tree`, not started: each root (with no parent, at depth 0)
    /// then the keys below it, each key once, after its parent, with its depth.
    pub fn new(tree: &'a Tree<K>) -> (r: Self)
        requires
            key_model::<K>(),
            acyclic(tree@),
            tree@.dom().len() < usize::MAX,
        ensures
            r.forest() == tree@,
            indices(r.rest()).no_duplicates(),
            forall|x: K| #[trigger] indices(r.rest()).contains(x) <==> (tree@.contains_key(x) || is_root(tree@, x)),
            forall|i: int| 0 <= i < r.rest().len() ==> entry_ok(tree@, #[trigger] r.rest()[i]),
            forall|i: int| 0 <= i < r.rest().len() ==> #[trigger] parent_before(r.rest(), i),
            forall|i: int| 0 < i < r.rest().len() ==> #[trigger] walk_step(tree@, r.rest(), i),
            forall|q: int| 0 <= q < r.rest().len() ==> #[trigger] subtree_block(tree@, r.rest(), q),
    {
        let list = tree.iter_hier();
        let ghost l = list@;
        let r = TreeIterator { tree, list, next_index: 0 };
        assert(r.rest() =~= l);
        r
    }

    /// The next entry of the walk, if any.
    pub fn next(&mut self) -> (r: Option<TreeHier<K>>)
        ensures
            final(self).forest() == old(self).forest(),
            old(self).rest().len() == 0 ==> r is None && final(self).rest() == old(self).rest(),
            old(self).rest().len() > 0 ==> r == Some(old(self).rest()[0]) && final(self).rest()
                == old(self).rest().drop_first(),
    {
        if self.next_index < self.list.len() {
            let e = self.list[self.next_index];
            self.next_index = self.next_index + 1;
            assert(self.rest() =~= old(self).rest().drop_first());
            Some(e)
        } else {
            assert(old(self).rest().len() == 0);
            None
        }
    }
}

} // verus!
