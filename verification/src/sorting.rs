//! Stable ordering of items by lexicographically compared integer keys, and
//! permutations of a list.
use vstd::prelude::*;
use rand::seq::SliceRandom;

verus! {

/// Lexicographic order on key sequences; a proper prefix comes first.
pub open spec fn seq_lt(a: Seq<i64>, b: Seq<i64>) -> bool
    decreases a.len(),
{
    if a.len() == 0 {
        b.len() > 0
    } else if b.len() == 0 {
        false
    } else if a[0] < b[0] {
        true
    } else if a[0] > b[0] {
        false
    } else {
        seq_lt(a.drop_first(), b.drop_first())
    }
}

pub proof fn lemma_seq_lt_irreflexive(a: Seq<i64>)
    ensures
        !seq_lt(a, a),
    decreases a.len(),
{
    if a.len() > 0 {
        lemma_seq_lt_irreflexive(a.drop_first());
    }
}

pub proof fn lemma_seq_lt_transitive(a: Seq<i64>, b: Seq<i64>, c: Seq<i64>)
    requires
        seq_lt(a, b),
        seq_lt(b, c),
    ensures
        seq_lt(a, c),
    decreases a.len(),
{
    if a.len() > 0 && b.len() > 0 && c.len() > 0 {
        if a[0] == b[0] && b[0] == c[0] {
            lemma_seq_lt_transitive(a.drop_first(), b.drop_first(), c.drop_first());
        }
    }
}

pub proof fn lemma_seq_lt_total(a: Seq<i64>, b: Seq<i64>)
    ensures
        a == b || seq_lt(a, b) || seq_lt(b, a),
    decreases a.len(),
{
    if a.len() > 0 && b.len() > 0 && a[0] == b[0] {
        lemma_seq_lt_total(a.drop_first(), b.drop_first());
        if a.drop_first() == b.drop_first() {
            assert(a =~= seq![a[0]] + a.drop_first());
            assert(b =~= seq![b[0]] + b.drop_first());
        }
    } else if a.len() == 0 && b.len() == 0 {
        assert(a =~= b);
    }
}

pub proof fn lemma_seq_lt_asymmetric(a: Seq<i64>, b: Seq<i64>)
    requires
        seq_lt(a, b),
    ensures
        !seq_lt(b, a),
{
    if seq_lt(b, a) {
        lemma_seq_lt_transitive(a, b, a);
        lemma_seq_lt_irreflexive(a);
    }
}

/// Exec comparison of two keys.
pub fn keys_lt(a: &Vec<i64>, b: &Vec<i64>) -> (r: bool)
    ensures
        r == seq_lt(a@, b@),
{
    let mut k: usize = 0;
    assert(a@.skip(0) =~= a@);
    assert(b@.skip(0) =~= b@);
    while k < a.len() && k < b.len()
        invariant
            k <= a.len(),
            k <= b.len(),
            seq_lt(a@, b@) == seq_lt(a@.skip(k as int), b@.skip(k as int)),
        decreases a.len() - k,
    {
        if a[k] < b[k] {
            return true;
        }
        if a[k] > b[k] {
            return false;
        }
        assert(a@.skip(k as int).drop_first() =~= a@.skip(k + 1));
        assert(b@.skip(k as int).drop_first() =~= b@.skip(k + 1));
        k = k + 1;
    }
    k == a.len() && k < b.len()
}

/// The key views of a list of keys.
pub open spec fn key_views(keys: Seq<Vec<i64>>) -> Seq<Seq<i64>> {
    keys.map_values(|k: Vec<i64>| k@)
}

/// Item `i` comes before item `j`: its key is smaller (larger when
/// descending), or the keys are equal and `i` came first.
pub open spec fn precedes(keys: Seq<Seq<i64>>, desc: bool, i: int, j: int) -> bool {
    ||| (if desc {
        seq_lt(keys[j], keys[i])
    } else {
        seq_lt(keys[i], keys[j])
    })
    ||| (keys[i] == keys[j] && i < j)
}

/// `p` lists each index below `n` exactly once.
pub open spec fn is_permutation(p: Seq<usize>, n: nat) -> bool {
    &&& p.len() == n
    &&& forall|i: int| 0 <= i < p.len() ==> p[i] < n
    &&& forall|i: int, j: int| 0 <= i < j < p.len() ==> p[i] != p[j]
}

/// `p` is the stable order of the items by their keys.
pub open spec fn is_stable_order(keys: Seq<Seq<i64>>, desc: bool, p: Seq<usize>) -> bool {
    &&& is_permutation(p, keys.len())
    &&& forall|a: int, b: int|
        0 <= a < b < p.len() ==> precedes(keys, desc, #[trigger] p[a] as int, #[trigger] p[b] as int)
}

pub proof fn lemma_precedes_total(keys: Seq<Seq<i64>>, desc: bool, i: int, j: int)
    requires
        i != j,
    ensures
        precedes(keys, desc, i, j) || precedes(keys, desc, j, i),
{
    lemma_seq_lt_total(keys[i], keys[j]);
}

pub proof fn lemma_precedes_transitive(keys: Seq<Seq<i64>>, desc: bool, i: int, j: int, k: int)
    requires
        precedes(keys, desc, i, j),
        precedes(keys, desc, j, k),
    ensures
        precedes(keys, desc, i, k),
{
    if seq_lt(keys[i], keys[j]) && seq_lt(keys[j], keys[k]) {
        lemma_seq_lt_transitive(keys[i], keys[j], keys[k]);
    }
    if seq_lt(keys[k], keys[j]) && seq_lt(keys[j], keys[i]) {
        lemma_seq_lt_transitive(keys[k], keys[j], keys[i]);
    }
}

/// The stable order of items by their keys, ascending or descending: an
/// insertion sort over the indices.
pub fn stable_order(keys: &Vec<Vec<i64>>, desc: bool) -> (p: Vec<usize>)
    ensures
        is_stable_order(key_views(keys@), desc, p@),
{
    let ghost kv = key_views(keys@);
    let mut p: Vec<usize> = Vec::new();
    let mut i: usize = 0;
    while i < keys.len()
        invariant
            kv == key_views(keys@),
            i <= keys.len(),
            p.len() == i,
            forall|a: int| 0 <= a < p.len() ==> p@[a] < i,
            forall|a: int, b: int| 0 <= a < b < p.len() ==> p@[a] != p@[b],
            forall|a: int, b: int|
                0 <= a < b < p.len() ==> precedes(kv, desc, #[trigger] p@[a] as int, #[trigger] p@[b] as int),
        decreases keys.len() - i,
    {
        let mut pos: usize = p.len();
        loop
            invariant
                kv == key_views(keys@),
                i < keys.len(),
                pos <= p.len(),
                p.len() == i,
                forall|a: int| 0 <= a < p.len() ==> p@[a] < i,
                forall|q: int| pos <= q < p.len() ==> precedes(kv, desc, i as int, #[trigger] p@[q] as int),
            ensures
                pos <= p.len(),
                forall|q: int| pos <= q < p.len() ==> precedes(kv, desc, i as int, #[trigger] p@[q] as int),
                pos > 0 ==> !precedes(kv, desc, i as int, p@[pos - 1] as int),
            decreases pos,
        {
            if pos == 0 {
                break;
            }
            let before = if desc {
                keys_lt(&keys[p[pos - 1]], &keys[i])
            } else {
                keys_lt(&keys[i], &keys[p[pos - 1]])
            };
            assert(kv[p@[pos - 1] as int] == keys@[p@[pos - 1] as int]@);
            assert(kv[i as int] == keys@[i as int]@);
            if !before {
                break;
            }
            pos = pos - 1;
        }
        proof {
            if pos > 0 {
                let prev = p@[pos - 1] as int;
                assert(kv[prev] == keys@[prev]@);
                assert(kv[i as int] == keys@[i as int]@);
                assert(!precedes(kv, desc, i as int, prev));
                lemma_precedes_total(kv, desc, i as int, prev);
            }
        }
        let ghost old_p = p@;
        p.insert(pos, i);
        proof {
            assert forall|a: int, b: int| 0 <= a < b < p.len() implies precedes(
                kv,
                desc,
                #[trigger] p@[a] as int,
                #[trigger] p@[b] as int,
            ) by {
                if b < pos {
                    assert(p@[a] == old_p[a] && p@[b] == old_p[b]);
                } else if b == pos {
                    assert(p@[a] == old_p[a]);
                    if a < pos - 1 {
                        assert(precedes(kv, desc, old_p[a] as int, old_p[pos - 1] as int));
                        lemma_precedes_transitive(kv, desc, old_p[a] as int, old_p[pos - 1] as int, i as int);
                    }
                } else if a < pos {
                    assert(p@[a] == old_p[a] && p@[b] == old_p[b - 1]);
                    assert(precedes(kv, desc, i as int, old_p[b - 1] as int));
                    if a < pos - 1 {
                        assert(precedes(kv, desc, old_p[a] as int, old_p[pos - 1] as int));
                        lemma_precedes_transitive(kv, desc, old_p[a] as int, old_p[pos - 1] as int, i as int);
                    }
                    lemma_precedes_transitive(kv, desc, old_p[a] as int, i as int, old_p[b - 1] as int);
                } else if a == pos {
                    assert(p@[b] == old_p[b - 1]);
                } else {
                    assert(p@[a] == old_p[a - 1] && p@[b] == old_p[b - 1]);
                }
            }
            assert forall|a: int, b: int| 0 <= a < b < p.len() implies p@[a] != p@[b] by {
                if a < pos && b < pos {
                    assert(p@[a] == old_p[a] && p@[b] == old_p[b]);
                } else if a < pos && b == pos {
                    assert(p@[a] == old_p[a]);
                } else if a < pos {
                    assert(p@[a] == old_p[a] && p@[b] == old_p[b - 1]);
                } else if a == pos {
                    assert(p@[b] == old_p[b - 1]);
                } else {
                    assert(p@[a] == old_p[a - 1] && p@[b] == old_p[b - 1]);
                }
            }
            assert forall|a: int| 0 <= a < p.len() implies p@[a] < i + 1 by {
                if a < pos {
                    assert(p@[a] == old_p[a]);
                } else if a > pos {
                    assert(p@[a] == old_p[a - 1]);
                }
            }
        }
        i = i + 1;
    }
    p
}

/// The items of `items` in the order `p` lists them.
pub open spec fn permuted<T>(items: Seq<T>, p: Seq<usize>) -> Seq<T> {
    p.map_values(|i: usize| items[i as int])
}

pub proof fn lemma_permuted_push<T>(items: Seq<T>, p: Seq<usize>, i: int)
    requires
        0 <= i < p.len(),
    ensures
        permuted(items, p.take(i + 1)) == permuted(items, p.take(i)).push(items[p[i] as int]),
{
    assert(permuted(items, p.take(i + 1)) =~= permuted(items, p.take(i)).push(items[p[i] as int]));
}

pub proof fn lemma_key_views_push(keys: Seq<Vec<i64>>, k: Vec<i64>)
    ensures
        key_views(keys.push(k)) == key_views(keys).push(k@),
{
    assert(key_views(keys.push(k)) =~= key_views(keys).push(k@));
}

/// The indices `0..n` in order.
pub fn identity_order(n: usize) -> (p: Vec<usize>)
    ensures
        p@.len() == n,
        forall|i: int| 0 <= i < n ==> p@[i] == i,
{
    let mut p: Vec<usize> = Vec::new();
    let mut i: usize = 0;
    while i < n
        invariant
            i <= n,
            p@.len() == i,
            forall|j: int| 0 <= j < i ==> p@[j] == j,
        decreases n - i,
    {
        p.push(i);
        i = i + 1;
    }
    p
}

/// Calls `rand::seq::SliceRandom::shuffle` with the thread's random generator.
/// The source swaps elements only, so the result is a rearrangement of the
/// input; which one depends on chance and is not stated. `thread_rng` panics
/// where the operating system's random source fails.
#[verifier::external_body]
pub(crate) fn shuffle_indices(v: Vec<usize>) -> (res: Vec<usize>)
    ensures
        res@.to_multiset() == v@.to_multiset(),
{
    let mut v = v;
    v.shuffle(&mut rand::thread_rng());
    v
}

} // verus!
