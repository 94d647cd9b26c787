use crate::direction::Direction;
use crate::merkle_hash::{combine_spec, MerkleHash};
use vstd::prelude::*;

verus! {

/// A level that is neither empty nor the root and has an odd length gets its
/// last hash a second time, so that every hash has a partner.
pub open spec fn pad(s: Seq<MerkleHash>) -> Seq<MerkleHash> {
    if s.len() > 1 && s.len() % 2 == 1 {
        s.push(s.last())
    } else {
        s
    }
}

/// The level above a level of even length: the combination of each pair.
pub open spec fn parent_level(s: Seq<MerkleHash>) -> Seq<MerkleHash> {
    Seq::new(s.len() / 2, |j: int| combine_spec(s[2 * j], s[2 * j + 1]))
}

/// All the levels of the tree over `s`, from the (padded) leaves up to the root.
pub open spec fn build_levels(s: Seq<MerkleHash>) -> Seq<Seq<MerkleHash>>
    decreases s.len(),
{
    if s.len() <= 1 {
        seq![s]
    } else {
        seq![pad(s)] + build_levels(parent_level(pad(s)))
    }
}

/// The root of the tree over a non-empty `s`.
pub open spec fn root_of(s: Seq<MerkleHash>) -> MerkleHash {
    build_levels(s).last()[0]
}

/// The entry that the position `i` of the padded level `p` contributes to a proof.
pub open spec fn sibling(p: Seq<MerkleHash>, i: int) -> (MerkleHash, Direction) {
    if i % 2 == 0 {
        if i + 1 < p.len() {
            (p[i + 1], Direction::Right)
        } else {
            (p[i], Direction::Right)
        }
    } else {
        (p[i - 1], Direction::Left)
    }
}

/// The proof of inclusion of the leaf at position `i` of the tree over `s`.
pub open spec fn path_of(s: Seq<MerkleHash>, i: int) -> Seq<(MerkleHash, Direction)>
    decreases s.len(),
{
    if s.len() <= 1 {
        seq![]
    } else {
        seq![sibling(pad(s), i)] + path_of(parent_level(pad(s)), i / 2)
    }
}

/// One step of folding a proof: put the sibling on its side of the running hash.
pub open spec fn fold_step(acc: MerkleHash, entry: (MerkleHash, Direction)) -> MerkleHash {
    match entry.1 {
        Direction::Left => combine_spec(entry.0, acc),
        Direction::Right => combine_spec(acc, entry.0),
    }
}

/// The hash reached by folding `path` from `acc` upwards.
pub open spec fn fold_path(acc: MerkleHash, path: Seq<(MerkleHash, Direction)>) -> MerkleHash
    decreases path.len(),
{
    if path.len() == 0 {
        acc
    } else {
        fold_path(fold_step(acc, path[0]), path.drop_first())
    }
}

/// The first position of `x` in `s` (`s.len()` if there is none).
pub open spec fn first_index(s: Seq<MerkleHash>, x: MerkleHash) -> int
    decreases s.len(),
{
    if s.len() == 0 {
        0
    } else if s[0] == x {
        0
    } else {
        1 + first_index(s.drop_first(), x)
    }
}

/// The leaf level after `h` is appended to `l`: a trailing pair of equal
/// hashes is taken for padding, and its second hash gives way to `h`.
pub open spec fn add_leaf(l: Seq<MerkleHash>, h: MerkleHash) -> Seq<MerkleHash> {
    if l.len() >= 2 && l[l.len() - 1] == l[l.len() - 2] {
        l.update(l.len() - 1, h)
    } else {
        l.push(h)
    }
}

pub proof fn lemma_first_index(s: Seq<MerkleHash>, x: MerkleHash, i: int)
    requires
        0 <= i <= s.len(),
        forall|j: int| 0 <= j < i ==> s[j] != x,
        i < s.len() ==> s[i] == x,
    ensures
        first_index(s, x) == i,
    decreases i,
{
    if i > 0 {
        lemma_first_index(s.drop_first(), x, i - 1);
    }
}

pub proof fn lemma_pad(s: Seq<MerkleHash>)
    ensures
        pad(s).len() == s.len() || pad(s).len() == s.len() + 1,
        s.len() > 1 ==> pad(s).len() % 2 == 0,
        s.len() > 1 ==> pad(s).len() > 1,
        s.len() <= 1 ==> pad(s) == s,
        forall|j: int| 0 <= j < s.len() ==> pad(s)[j] == s[j],
        pad(s).len() == s.len() + 1 ==> pad(s)[s.len() as int] == s.last(),
        pad(pad(s)) == pad(s),
{
}

pub proof fn lemma_parent_level_len(s: Seq<MerkleHash>)
    requires
        s.len() > 1,
    ensures
        parent_level(pad(s)).len() >= 1,
        parent_level(pad(s)).len() < s.len(),
        parent_level(pad(s)).len() * 2 == pad(s).len(),
{
    lemma_pad(s);
}

pub proof fn lemma_build_levels_basics(s: Seq<MerkleHash>)
    ensures
        build_levels(s).len() >= 1,
        build_levels(s)[0] == pad(s),
        build_levels(pad(s)) == build_levels(s),
{
    lemma_pad(s);
    reveal_with_fuel(build_levels, 2);
}

pub proof fn lemma_top_level(s: Seq<MerkleHash>)
    requires
        s.len() >= 1,
    ensures
        build_levels(s).last().len() == 1,
    decreases s.len(),
{
    if s.len() > 1 {
        lemma_parent_level_len(s);
        lemma_top_level(parent_level(pad(s)));
    }
}

/// Folding the proof of the leaf at position `i` gives the root of the tree.
pub proof fn lemma_path_reaches_root(s: Seq<MerkleHash>, i: int)
    requires
        s.len() >= 1,
        0 <= i < pad(s).len(),
    ensures
        path_of(s, i).len() + 1 == build_levels(s).len(),
        fold_path(pad(s)[i], path_of(s, i)) == root_of(s),
    decreases s.len(),
{
    lemma_pad(s);
    if s.len() > 1 {
        let p = pad(s);
        let n = parent_level(p);
        lemma_parent_level_len(s);
        lemma_pad(n);
        lemma_build_levels_basics(n);
        let path = path_of(s, i);
        assert(path.drop_first() =~= path_of(n, i / 2));
        assert(fold_step(p[i], path[0]) == n[i / 2]);
        lemma_path_reaches_root(n, i / 2);
    }
}

/// The leaf level after each hash of `adds` was appended in turn, the tree
/// being rebuilt (and its leaves padded) after each.
pub open spec fn leaves_after_adds(l: Seq<MerkleHash>, adds: Seq<MerkleHash>) -> Seq<MerkleHash>
    decreases adds.len(),
{
    if adds.len() == 0 {
        l
    } else {
        pad(add_leaf(leaves_after_adds(l, adds.drop_last()), adds.last()))
    }
}

proof fn lemma_pad_contains(s: Seq<MerkleHash>, x: MerkleHash)
    ensures
        pad(s).contains(x) <==> s.contains(x),
{
    lemma_pad(s);
    if pad(s).contains(x) {
        let j = choose|j: int| 0 <= j < pad(s).len() && pad(s)[j] == x;
        if j == s.len() {
            assert(s[s.len() - 1] == x);
        } else {
            assert(s[j] == x);
        }
    }
    if s.contains(x) {
        let j = choose|j: int| 0 <= j < s.len() && s[j] == x;
        assert(pad(s)[j] == x);
    }
}

proof fn lemma_add_leaf_contains(l: Seq<MerkleHash>, h: MerkleHash, x: MerkleHash)
    ensures
        add_leaf(l, h).contains(x) <==> (l.contains(x) || x == h),
        add_leaf(l, h).len() >= 1,
{
    let n = l.len();
    let r = add_leaf(l, h);
    if n >= 2 && l[n - 1] == l[n - 2] {
        assert(r[n - 1] == h);
        if l.contains(x) {
            let j = choose|j: int| 0 <= j < n && l[j] == x;
            if j == n - 1 {
                assert(r[n - 2] == x);
            } else {
                assert(r[j] == x);
            }
        }
        if r.contains(x) && x != h {
            let j = choose|j: int| 0 <= j < n && r[j] == x;
            assert(l[j] == x);
        }
    } else {
        assert(r[n as int] == h);
        if l.contains(x) {
            let j = choose|j: int| 0 <= j < n && l[j] == x;
            assert(r[j] == x);
        }
        if r.contains(x) && x != h {
            let j = choose|j: int| 0 <= j <= n && r[j] == x;
            assert(l[j] == x);
        }
    }
}

proof fn lemma_adds_contents(l: Seq<MerkleHash>, adds: Seq<MerkleHash>, x: MerkleHash)
    requires
        l.len() >= 1,
    ensures
        leaves_after_adds(l, adds).contains(x) <==> (l.contains(x) || adds.contains(x)),
        leaves_after_adds(l, adds).len() >= 1,
    decreases adds.len(),
{
    if adds.len() > 0 {
        let prefix = adds.drop_last();
        let before = leaves_after_adds(l, prefix);
        lemma_adds_contents(l, prefix, x);
        lemma_add_leaf_contains(before, adds.last(), x);
        lemma_pad_contains(add_leaf(before, adds.last()), x);
        lemma_pad(add_leaf(before, adds.last()));
        if adds.contains(x) && !prefix.contains(x) {
            let j = choose|j: int| 0 <= j < adds.len() && adds[j] == x;
            if j < adds.len() - 1 {
                assert(prefix[j] == x);
            }
        }
        if prefix.contains(x) {
            let j = choose|j: int| 0 <= j < prefix.len() && prefix[j] == x;
            assert(adds[j] == x);
        }
    }
}

/// Every hash that a tree is built from is one of its leaves, so `verify`
/// finds each of them.
pub proof fn lemma_every_leaf_verifies(hashes: Seq<MerkleHash>, leaf: MerkleHash)
    requires
        hashes.len() >= 1,
        hashes.contains(leaf),
    ensures
        build_levels(hashes)[0].contains(leaf),
{
    lemma_build_levels_basics(hashes);
    lemma_pad_contains(hashes, leaf);
}

/// Folding the proof of inclusion of any leaf of a tree, the proof that
/// `proof_of_inclusion` gives for it, rebuilds the root of the tree.
pub proof fn lemma_proof_folds_to_root(hashes: Seq<MerkleHash>, leaf: MerkleHash)
    requires
        hashes.len() >= 1,
        build_levels(hashes)[0].contains(leaf),
    ensures
        fold_path(
            leaf,
            path_of(build_levels(hashes)[0], first_index(build_levels(hashes)[0], leaf)),
        ) == build_levels(hashes).last()[0],
{
    let leaves = build_levels(hashes)[0];
    lemma_build_levels_basics(hashes);
    lemma_pad(hashes);
    lemma_pad(leaves);
    let j = choose|j: int| 0 <= j < leaves.len() && leaves[j] == leaf;
    lemma_first_index_bound(leaves, leaf, j);
    let i = first_index(leaves, leaf);
    lemma_path_reaches_root(leaves, i);
}

proof fn lemma_first_index_bound(s: Seq<MerkleHash>, x: MerkleHash, j: int)
    requires
        0 <= j < s.len(),
        s[j] == x,
    ensures
        0 <= first_index(s, x) <= j,
        s[first_index(s, x)] == x,
    decreases j,
{
    if s[0] != x {
        lemma_first_index_bound(s.drop_first(), x, j - 1);
    }
}

/// With an odd number of leaves, more than one, appending a copy of the last
/// leaf (the copy that padding adds anyway) gives the same tree, so the same
/// root.
pub proof fn lemma_padding_is_idempotent(hashes: Seq<MerkleHash>)
    requires
        hashes.len() >= 3,
        hashes.len() % 2 == 1,
    ensures
        build_levels(hashes.push(hashes.last())) == build_levels(hashes),
        root_of(hashes.push(hashes.last())) == root_of(hashes),
{
    let padded = hashes.push(hashes.last());
    assert(pad(hashes) == padded);
    lemma_build_levels_basics(hashes);
}

/// Appending hashes that are new and distinct one after the other always
/// succeeds, and the leaves then hold exactly the hashes that the tree was
/// built from and those appended.
pub proof fn lemma_adds_keep_every_leaf(hashes: Seq<MerkleHash>, adds: Seq<MerkleHash>)
    requires
        hashes.len() >= 1,
        adds.no_duplicates(),
        forall|j: int| 0 <= j < adds.len() ==> !hashes.contains(#[trigger] adds[j]),
    ensures
        forall|j: int|
            0 <= j < adds.len() ==> !(#[trigger] leaves_after_adds(
                build_levels(hashes)[0],
                adds.take(j),
            )).contains(adds[j]),
        forall|x: MerkleHash|
            #[trigger] leaves_after_adds(build_levels(hashes)[0], adds).contains(x) <==> (
            hashes.contains(x) || adds.contains(x)),
{
    let l = build_levels(hashes)[0];
    lemma_build_levels_basics(hashes);
    lemma_pad(hashes);
    assert forall|j: int| 0 <= j < adds.len() implies !(#[trigger] leaves_after_adds(
        l,
        adds.take(j),
    )).contains(adds[j]) by {
        lemma_adds_contents(l, adds.take(j), adds[j]);
        lemma_pad_contains(hashes, adds[j]);
        if adds.take(j).contains(adds[j]) {
            let k = choose|k: int| 0 <= k < j && adds.take(j)[k] == adds[j];
            assert(adds[k] == adds[j]);
        }
    }
    assert forall|x: MerkleHash|
        #[trigger] leaves_after_adds(l, adds).contains(x) <==> (hashes.contains(x) || adds.contains(
            x,
        )) by {
        lemma_adds_contents(l, adds, x);
        lemma_pad_contains(hashes, x);
    }
}

} // verus!
