//! Assembly of the CSR and CSC index arrays of a sparse matrix read from a
//! Matrix Market coordinate list.
//!
//! A stored nonzero is an [`Entry`]: its row, its column, and where its value
//! comes from (the position of the coordinate line it was read from, and
//! whether the value is negated, as the mirrored half of a skew-symmetric
//! matrix is). The numeric values themselves never enter this module; the
//! caller gathers them through `src` and `negate`.

use crate::symmetry::Symmetry;
use vstd::prelude::*;

verus! {

/// One stored nonzero of the assembled matrix.
#[derive(Debug, Clone, Copy, PartialEq, Eq, Structural)]
pub struct Entry {
    pub row: u32,
    pub col: u32,
    /// Index of the coordinate line whose value this entry carries.
    pub src: usize,
    /// The value is the negation of that line's value.
    pub negate: bool,
}

/// Which coordinate an ordering looks at.
#[derive(Debug, Clone, Copy, PartialEq, Eq, Structural)]
pub enum SortKey {
    Row,
    Col,
}

pub open spec fn key_of(e: Entry, by: SortKey) -> int {
    match by {
        SortKey::Row => e.row as int,
        SortKey::Col => e.col as int,
    }
}

pub open spec fn other_key(by: SortKey) -> SortKey {
    match by {
        SortKey::Row => SortKey::Col,
        SortKey::Col => SortKey::Row,
    }
}

/// The entries of `s` whose key is `k`, in the order they appear in `s`.
pub open spec fn bucket(s: Seq<Entry>, by: SortKey, k: int) -> Seq<Entry>
    decreases s.len(),
{
    if s.len() == 0 {
        Seq::empty()
    } else {
        let rest = bucket(s.drop_last(), by, k);
        if key_of(s.last(), by) == k {
            rest.push(s.last())
        } else {
            rest
        }
    }
}

/// The buckets of keys `0 .. n`, one after the other: for keys that are all
/// below `n`, this is the stable sort of `s` by key.
pub open spec fn grouped(s: Seq<Entry>, by: SortKey, n: nat) -> Seq<Entry>
    decreases n,
{
    if n == 0 {
        Seq::empty()
    } else {
        grouped(s, by, (n - 1) as nat) + bucket(s, by, n - 1)
    }
}

/// Every key of `s` lies below `n`.
pub open spec fn keys_below(s: Seq<Entry>, by: SortKey, n: int) -> bool {
    forall|i: int| 0 <= i < s.len() ==> #[trigger] key_of(s[i], by) < n
}

/// Keys never decrease along `s`.
pub open spec fn sorted_by(s: Seq<Entry>, by: SortKey) -> bool {
    forall|i: int, j: int| 0 <= i <= j < s.len() ==> key_of(#[trigger] s[i], by) <= key_of(#[trigger] s[j], by)
}

/// `s` is ordered by the key `by`, and, among equal keys, by the other one.
pub open spec fn lex_sorted(s: Seq<Entry>, by: SortKey) -> bool {
    forall|i: int, j: int|
        0 <= i < j < s.len() ==> {
            ||| key_of(#[trigger] s[i], by) < key_of(#[trigger] s[j], by)
            ||| (key_of(s[i], by) == key_of(s[j], by) && key_of(s[i], other_key(by)) <= key_of(
                s[j],
                other_key(by),
            ))
        }
}

pub proof fn lemma_bucket_push(s: Seq<Entry>, x: Entry, by: SortKey, k: int)
    ensures
        bucket(s.push(x), by, k) == (if key_of(x, by) == k {
            bucket(s, by, k).push(x)
        } else {
            bucket(s, by, k)
        }),
{
    assert(s.push(x).drop_last() =~= s);
}

pub proof fn lemma_bucket_len(s: Seq<Entry>, by: SortKey, k: int)
    ensures
        bucket(s, by, k).len() <= s.len(),
    decreases s.len(),
{
    if s.len() > 0 {
        lemma_bucket_len(s.drop_last(), by, k);
    }
}

pub proof fn lemma_bucket_keys(s: Seq<Entry>, by: SortKey, k: int)
    ensures
        forall|i: int| 0 <= i < bucket(s, by, k).len() ==> #[trigger] key_of(bucket(s, by, k)[i], by) == k,
    decreases s.len(),
{
    if s.len() > 0 {
        lemma_bucket_keys(s.drop_last(), by, k);
        let b = bucket(s.drop_last(), by, k);
        if key_of(s.last(), by) == k {
            assert forall|i: int| 0 <= i < b.push(s.last()).len() implies #[trigger] key_of(
                b.push(s.last())[i],
                by,
            ) == k by {
                if i < b.len() {
                    assert(b.push(s.last())[i] == b[i]);
                }
            }
        }
    }
}

/// A bound on a key that holds all over `s` holds all over each bucket.
pub proof fn lemma_bucket_bounded(s: Seq<Entry>, by: SortKey, k: int, by2: SortKey, m: int)
    requires
        forall|i: int| 0 <= i < s.len() ==> #[trigger] key_of(s[i], by2) <= m,
    ensures
        forall|i: int| 0 <= i < bucket(s, by, k).len() ==> #[trigger] key_of(bucket(s, by, k)[i], by2) <= m,
    decreases s.len(),
{
    if s.len() > 0 {
        let t = s.drop_last();
        assert forall|i: int| 0 <= i < t.len() implies #[trigger] key_of(t[i], by2) <= m by {
            assert(t[i] == s[i]);
        }
        lemma_bucket_bounded(t, by, k, by2, m);
        let b = bucket(t, by, k);
        if key_of(s.last(), by) == k {
            assert(key_of(s[s.len() - 1], by2) <= m);
            assert forall|i: int| 0 <= i < b.push(s.last()).len() implies #[trigger] key_of(
                b.push(s.last())[i],
                by2,
            ) <= m by {
                if i < b.len() {
                    assert(b.push(s.last())[i] == b[i]);
                }
            }
        }
    }
}

/// Taking a bucket keeps the order of any other key.
pub proof fn lemma_bucket_sorted(s: Seq<Entry>, by: SortKey, k: int, by2: SortKey)
    requires
        sorted_by(s, by2),
    ensures
        sorted_by(bucket(s, by, k), by2),
    decreases s.len(),
{
    if s.len() > 0 {
        let t = s.drop_last();
        let x = s.last();
        assert(sorted_by(t, by2)) by {
            assert forall|i: int, j: int| 0 <= i <= j < t.len() implies key_of(#[trigger] t[i], by2)
                <= key_of(#[trigger] t[j], by2) by {
                assert(t[i] == s[i] && t[j] == s[j]);
            }
        }
        lemma_bucket_sorted(t, by, k, by2);
        if key_of(x, by) == k {
            assert forall|i: int| 0 <= i < t.len() implies #[trigger] key_of(t[i], by2) <= key_of(
                x,
                by2,
            ) by {
                assert(t[i] == s[i]);
                assert(s[s.len() - 1] == x);
            }
            lemma_bucket_bounded(t, by, k, by2, key_of(x, by2));
            let b = bucket(t, by, k);
            assert forall|i: int, j: int| 0 <= i <= j < b.push(x).len() implies key_of(
                #[trigger] b.push(x)[i],
                by2,
            ) <= key_of(#[trigger] b.push(x)[j], by2) by {
                if j == b.len() {
                    if i < b.len() {
                        assert(b.push(x)[i] == b[i]);
                    }
                } else {
                    assert(b.push(x)[i] == b[i] && b.push(x)[j] == b[j]);
                }
            }
        }
    }
}

pub proof fn lemma_bucket_append(a: Seq<Entry>, b: Seq<Entry>, by: SortKey, k: int)
    ensures
        bucket(a + b, by, k) == bucket(a, by, k) + bucket(b, by, k),
    decreases b.len(),
{
    if b.len() == 0 {
        assert(a + b =~= a);
        assert(bucket(a, by, k) + bucket(b, by, k) =~= bucket(a, by, k));
    } else {
        let b2 = b.drop_last();
        let x = b.last();
        assert(a + b =~= (a + b2).push(x));
        assert(b =~= b2.push(x));
        lemma_bucket_push(a + b2, x, by, k);
        lemma_bucket_push(b2, x, by, k);
        lemma_bucket_append(a, b2, by, k);
        if key_of(x, by) == k {
            assert(bucket(a, by, k) + bucket(b2, by, k).push(x) =~= (bucket(a, by, k) + bucket(
                b2,
                by,
                k,
            )).push(x));
        }
    }
}

/// Growing `s` by one entry grows its buckets below `n` by that entry, if
/// its key is below `n`.
pub proof fn lemma_grouped_push_len(s: Seq<Entry>, x: Entry, by: SortKey, n: nat)
    requires
        0 <= key_of(x, by),
    ensures
        grouped(s.push(x), by, n).len() == grouped(s, by, n).len() + (if key_of(x, by) < n {
            1int
        } else {
            0int
        }),
    decreases n,
{
    if n > 0 {
        lemma_grouped_push_len(s, x, by, (n - 1) as nat);
        lemma_bucket_push(s, x, by, n - 1);
    }
}

pub proof fn lemma_grouped_len_all(s: Seq<Entry>, by: SortKey, n: nat)
    requires
        keys_below(s, by, n as int),
    ensures
        grouped(s, by, n).len() == s.len(),
    decreases s.len(),
{
    if s.len() == 0 {
        lemma_grouped_empty(s, by, n);
    } else {
        let t = s.drop_last();
        let x = s.last();
        assert(s =~= t.push(x));
        assert(key_of(s[s.len() - 1], by) < n);
        assert(keys_below(t, by, n as int)) by {
            assert forall|i: int| 0 <= i < t.len() implies #[trigger] key_of(t[i], by) < n by {
                assert(t[i] == s[i]);
            }
        }
        lemma_grouped_len_all(t, by, n);
        lemma_grouped_push_len(t, x, by, n);
    }
}

pub proof fn lemma_grouped_empty(s: Seq<Entry>, by: SortKey, n: nat)
    requires
        s.len() == 0,
    ensures
        grouped(s, by, n).len() == 0,
    decreases n,
{
    if n > 0 {
        lemma_grouped_empty(s, by, (n - 1) as nat);
    }
}

pub proof fn lemma_grouped_len_mono(s: Seq<Entry>, by: SortKey, a: nat, b: nat)
    requires
        a <= b,
    ensures
        grouped(s, by, a).len() <= grouped(s, by, b).len(),
    decreases b,
{
    if a < b {
        lemma_grouped_len_mono(s, by, a, (b - 1) as nat);
    }
}

/// Every entry in the first `n` buckets has a key below `n`.
pub proof fn lemma_grouped_keys(s: Seq<Entry>, by: SortKey, n: nat)
    ensures
        forall|i: int|
            0 <= i < grouped(s, by, n).len() ==> #[trigger] key_of(grouped(s, by, n)[i], by) < n,
    decreases n,
{
    if n > 0 {
        let m = (n - 1) as nat;
        lemma_grouped_keys(s, by, m);
        lemma_bucket_keys(s, by, m as int);
        let g = grouped(s, by, m);
        let b = bucket(s, by, m as int);
        assert forall|i: int| 0 <= i < (g + b).len() implies #[trigger] key_of((g + b)[i], by) < n by {
            if i < g.len() {
                assert((g + b)[i] == g[i]);
            } else {
                assert((g + b)[i] == b[i - g.len()]);
            }
        }
    }
}

pub proof fn lemma_grouped_push_multiset(s: Seq<Entry>, x: Entry, by: SortKey, n: nat)
    ensures
        grouped(s.push(x), by, n).to_multiset() == (if 0 <= key_of(x, by) < n {
            grouped(s, by, n).to_multiset().insert(x)
        } else {
            grouped(s, by, n).to_multiset()
        }),
    decreases n,
{
    broadcast use vstd::seq_lib::lemma_multiset_commutative, vstd::seq_lib::to_multiset_build;

    if n == 0 {
    } else {
        let m = (n - 1) as nat;
        lemma_grouped_push_multiset(s, x, by, m);
        lemma_bucket_push(s, x, by, m as int);
        let g1 = grouped(s.push(x), by, m);
        let b1 = bucket(s.push(x), by, m as int);
        assert((g1 + b1).to_multiset() =~= g1.to_multiset().add(b1.to_multiset()));
        let g0 = grouped(s, by, m);
        let b0 = bucket(s, by, m as int);
        assert((g0 + b0).to_multiset() =~= g0.to_multiset().add(b0.to_multiset()));
        if key_of(x, by) == m {
            assert(b1.to_multiset() =~= b0.to_multiset().insert(x));
        }
        if 0 <= key_of(x, by) < n {
            assert(grouped(s.push(x), by, n).to_multiset() =~= grouped(s, by, n).to_multiset().insert(
                x,
            ));
        } else {
            assert(grouped(s.push(x), by, n).to_multiset() =~= grouped(s, by, n).to_multiset());
        }
    }
}

/// Grouping by a key that is below `n` everywhere loses and adds nothing.
pub proof fn lemma_grouped_multiset(s: Seq<Entry>, by: SortKey, n: nat)
    requires
        keys_below(s, by, n as int),
    ensures
        grouped(s, by, n).to_multiset() == s.to_multiset(),
    decreases s.len(),
{
    broadcast use vstd::seq_lib::to_multiset_build;

    if s.len() == 0 {
        lemma_grouped_empty(s, by, n);
        assert(grouped(s, by, n) =~= s);
    } else {
        let t = s.drop_last();
        let x = s.last();
        assert(s =~= t.push(x));
        assert(key_of(s[s.len() - 1], by) < n);
        assert(keys_below(t, by, n as int)) by {
            assert forall|i: int| 0 <= i < t.len() implies #[trigger] key_of(t[i], by) < n by {
                assert(t[i] == s[i]);
            }
        }
        lemma_grouped_multiset(t, by, n);
        lemma_grouped_push_multiset(t, x, by, n);
    }
}

/// Grouping by `by` a sequence whose buckets are each ordered by the other
/// key yields the lexicographic order.
pub proof fn lemma_grouped_lex_sorted(s: Seq<Entry>, by: SortKey, n: nat)
    requires
        forall|k: int| 0 <= k < n ==> sorted_by(#[trigger] bucket(s, by, k), other_key(by)),
    ensures
        lex_sorted(grouped(s, by, n), by),
    decreases n,
{
    if n > 0 {
        let m = (n - 1) as nat;
        lemma_grouped_lex_sorted(s, by, m);
        lemma_grouped_keys(s, by, m);
        lemma_bucket_keys(s, by, m as int);
        let g = grouped(s, by, m);
        let b = bucket(s, by, m as int);
        assert(sorted_by(b, other_key(by)));
        let r = g + b;
        assert forall|i: int, j: int| 0 <= i < j < r.len() implies {
            ||| key_of(#[trigger] r[i], by) < key_of(#[trigger] r[j], by)
            ||| (key_of(r[i], by) == key_of(r[j], by) && key_of(r[i], other_key(by)) <= key_of(
                r[j],
                other_key(by),
            ))
        } by {
            if j < g.len() {
                assert(r[i] == g[i] && r[j] == g[j]);
            } else if i < g.len() {
                assert(r[i] == g[i] && r[j] == b[j - g.len()]);
                assert(key_of(g[i], by) < m);
            } else {
                assert(r[i] == b[i - g.len()] && r[j] == b[j - g.len()]);
            }
        }
    }
}

/// A sequence whose segments at the bucket offsets hold the buckets begins
/// with the grouped sequence.
pub proof fn lemma_segments_grouped(out: Seq<Entry>, s: Seq<Entry>, by: SortKey, n: nat)
    requires
        grouped(s, by, n).len() <= out.len(),
        forall|k: int, j: int|
            0 <= k < n && 0 <= j < bucket(s, by, k).len() ==> out[grouped(s, by, k as nat).len() + j]
                == #[trigger] bucket(s, by, k)[j],
    ensures
        out.take(grouped(s, by, n).len() as int) == grouped(s, by, n),
    decreases n,
{
    if n > 0 {
        let m = (n - 1) as nat;
        lemma_grouped_len_mono(s, by, m, n);
        lemma_segments_grouped(out, s, by, m);
        let g = grouped(s, by, m);
        let b = bucket(s, by, m as int);
        let lo = g.len() as int;
        assert forall|j: int| 0 <= j < b.len() implies out[lo + j] == #[trigger] b[j] by {
            assert(out[grouped(s, by, m).len() + j] == bucket(s, by, m as int)[j]);
        }
        assert(out.take(grouped(s, by, n).len() as int) =~= g + b) by {
            assert forall|i: int| 0 <= i < (g + b).len() implies out.take(
                grouped(s, by, n).len() as int,
            )[i] == #[trigger] (g + b)[i] by {
                if i < lo {
                    assert(out.take(lo)[i] == g[i]);
                } else {
                    assert(b[i - lo] == out[lo + (i - lo)]);
                }
            }
        }
    }
}

/// The key of an entry under the ordering `by`.
pub fn entry_key(e: &Entry, by: SortKey) -> (k: usize)
    ensures
        k == key_of(*e, by),
{
    match by {
        SortKey::Row => e.row as usize,
        SortKey::Col => e.col as usize,
    }
}

/// Stable counting sort of `input` by the key `by`, every key lying below
/// `nkeys`. Returns the sorted entries and the offsets where each key's run
/// begins (`nkeys + 1` of them, the last one being the length).
pub fn counting_sort(input: &Vec<Entry>, by: SortKey, nkeys: usize) -> (res: (Vec<Entry>, Vec<usize>))
    requires
        nkeys < usize::MAX,
        keys_below(input@, by, nkeys as int),
    ensures
        res.0@ == grouped(input@, by, nkeys as nat),
        res.1@.len() == nkeys + 1,
        forall|k: int| 0 <= k <= nkeys ==> #[trigger] res.1@[k] == grouped(input@, by, k as nat).len(),
{
    let n = input.len();
    let ghost s = input@;

    // How many entries carry each key.
    let mut counts: Vec<usize> = Vec::new();
    let mut k: usize = 0;
    while k < nkeys
        invariant
            k <= nkeys,
            counts@.len() == k,
            forall|q: int| 0 <= q < k ==> #[trigger] counts@[q] == 0,
        decreases nkeys - k,
    {
        counts.push(0);
        k = k + 1;
    }
    proof {
        assert forall|q: int| 0 <= q < nkeys implies #[trigger] counts@[q] == bucket(s.take(0), by, q).len() by {
            assert(s.take(0).len() == 0);
        }
    }
    let mut t: usize = 0;
    while t < n
        invariant
            n == s.len(),
            s == input@,
            keys_below(s, by, nkeys as int),
            t <= n,
            counts@.len() == nkeys,
            forall|q: int| 0 <= q < nkeys ==> #[trigger] counts@[q] == bucket(s.take(t as int), by, q).len(),
        decreases n - t,
    {
        let kk = entry_key(&input[t], by);
        assert(key_of(s[t as int], by) < nkeys);
        proof {
            assert(s.take(t + 1) =~= s.take(t as int).push(s[t as int]));
            assert forall|q: int| 0 <= q < nkeys implies bucket(s.take(t + 1), by, q) == (if key_of(
                s[t as int],
                by,
            ) == q {
                bucket(s.take(t as int), by, q).push(s[t as int])
            } else {
                bucket(s.take(t as int), by, q)
            }) by {
                lemma_bucket_push(s.take(t as int), s[t as int], by, q);
            }
            lemma_bucket_len(s.take(t as int), by, kk as int);
        }
        let c = counts[kk];
        counts.set(kk, c + 1);
        t = t + 1;
    }
    assert(s.take(n as int) =~= s);

    // Offsets of the runs: starts[q] is the number of entries with key below q.
    let mut starts: Vec<usize> = Vec::new();
    starts.push(0);
    let mut k: usize = 0;
    proof {
        lemma_grouped_len_all(s, by, nkeys as nat);
    }
    while k < nkeys
        invariant
            n == s.len(),
            s == input@,
            k <= nkeys,
            counts@.len() == nkeys,
            forall|q: int| 0 <= q < nkeys ==> #[trigger] counts@[q] == bucket(s, by, q).len(),
            grouped(s, by, nkeys as nat).len() == n,
            starts@.len() == k + 1,
            forall|q: int| 0 <= q <= k ==> #[trigger] starts@[q] == grouped(s, by, q as nat).len(),
        decreases nkeys - k,
    {
        proof {
            lemma_grouped_len_mono(s, by, (k + 1) as nat, nkeys as nat);
        }
        let next = starts[k] + counts[k];
        starts.push(next);
        k = k + 1;
    }

    // Place each entry at the next free slot of its run.
    let mut out: Vec<Entry> = Vec::new();
    let mut i: usize = 0;
    while i < n
        invariant
            n == s.len(),
            s == input@,
            i <= n,
            out@.len() == i,
        decreases n - i,
    {
        out.push(input[i]);
        i = i + 1;
    }
    let mut pos: Vec<usize> = Vec::new();
    let mut k: usize = 0;
    while k < nkeys
        invariant
            k <= nkeys,
            starts@.len() == nkeys + 1,
            pos@.len() == k,
            forall|q: int| 0 <= q < k ==> #[trigger] pos@[q] == starts@[q],
        decreases nkeys - k,
    {
        pos.push(starts[k]);
        k = k + 1;
    }
    proof {
        assert forall|a: int, b: int| 0 <= a <= b <= nkeys implies #[trigger] starts@[a] <= #[trigger] starts@[b] by {
            lemma_grouped_len_mono(s, by, a as nat, b as nat);
        }
        assert forall|q: int| 0 <= q < nkeys implies #[trigger] pos@[q] == starts@[q] + bucket(s.take(0), by, q).len() by {
            assert(s.take(0).len() == 0);
        }
    }
    let mut t: usize = 0;
    while t < n
        invariant
            n == s.len(),
            s == input@,
            keys_below(s, by, nkeys as int),
            t <= n,
            out@.len() == n,
            pos@.len() == nkeys,
            starts@.len() == nkeys + 1,
            starts@[nkeys as int] == n,
            forall|q: int| 0 <= q <= nkeys ==> #[trigger] starts@[q] == grouped(s, by, q as nat).len(),
            forall|a: int, b: int| 0 <= a <= b <= nkeys ==> #[trigger] starts@[a] <= #[trigger] starts@[b],
            forall|q: int| 0 <= q < nkeys ==> #[trigger] pos@[q] == starts@[q] + bucket(s.take(t as int), by, q).len(),
            forall|q: int, j: int|
                0 <= q < nkeys && 0 <= j < bucket(s.take(t as int), by, q).len() ==> out@[starts@[q] + j]
                    == #[trigger] bucket(s.take(t as int), by, q)[j],
        decreases n - t,
    {
        let e = input[t];
        let kk = entry_key(&e, by);
        assert(key_of(s[t as int], by) < nkeys);
        let ghost pre = s.take(t as int);
        let ghost post = s.take(t + 1);
        proof {
            assert(post =~= pre.push(e));
            lemma_bucket_push(pre, e, by, kk as int);
            assert(s =~= post + s.skip(t + 1));
            lemma_bucket_append(post, s.skip(t + 1), by, kk as int);
            assert(starts@[kk + 1] == grouped(s, by, (kk + 1) as nat).len());
            assert(grouped(s, by, (kk + 1) as nat) == grouped(s, by, kk as nat) + bucket(s, by, kk as int));
        }
        let p = pos[kk];
        assert(p < starts@[kk + 1]);
        let ghost old_out = out@;
        out.set(p, e);
        assert(out@ == old_out.update(p as int, e));
        pos.set(kk, p + 1);
        proof {
            assert forall|q: int| 0 <= q < nkeys implies bucket(post, by, q) == (if key_of(e, by) == q {
                bucket(pre, by, q).push(e)
            } else {
                bucket(pre, by, q)
            }) by {
                lemma_bucket_push(pre, e, by, q);
            }
            assert forall|q: int, j: int|
                0 <= q < nkeys && 0 <= j < bucket(post, by, q).len() implies out@[starts@[q] + j]
                    == #[trigger] bucket(post, by, q)[j] by {
                lemma_bucket_push(pre, e, by, q);
                if q == kk {
                    if j < bucket(pre, by, q).len() {
                        assert(bucket(post, by, q)[j] == bucket(pre, by, q)[j]);
                        assert(old_out[starts@[q] + j] == bucket(pre, by, q)[j]);
                    } else {
                        assert(starts@[q] + j == p);
                    }
                } else if q < kk {
                    assert(old_out[starts@[q] + j] == bucket(pre, by, q)[j]);
                    assert(starts@[q] + bucket(pre, by, q).len() <= starts@[q + 1]) by {
                        lemma_bucket_append(pre, s.skip(t as int), by, q);
                        assert(s =~= pre + s.skip(t as int));
                        assert(grouped(s, by, (q + 1) as nat) == grouped(s, by, q as nat) + bucket(s, by, q));
                    }
                    assert(starts@[q + 1] <= starts@[kk as int]);
                } else {
                    assert(old_out[starts@[q] + j] == bucket(pre, by, q)[j]);
                    assert(starts@[kk + 1] <= starts@[q]);
                    assert(starts@[q] + bucket(pre, by, q).len() <= starts@[q + 1]) by {
                        lemma_bucket_append(pre, s.skip(t as int), by, q);
                        assert(s =~= pre + s.skip(t as int));
                        assert(grouped(s, by, (q + 1) as nat) == grouped(s, by, q as nat) + bucket(s, by, q));
                    }
                }
            }
        }
        t = t + 1;
    }
    proof {
        assert(s.take(n as int) =~= s);
        lemma_segments_grouped(out@, s, by, nkeys as nat);
        assert(out@.take(n as int) =~= out@);
    }
    (out, starts)
}

/// The coordinate list of a Matrix Market file, as far as assembly needs it.
pub enum MtxContent {
    /// A coordinate file: its dimensions and the (row, column) of each line,
    /// counted from zero.
    Sparse { nrows: usize, ncols: usize, coords: Vec<(usize, usize)> },
    /// An array file.
    Dense,
}

/// The entry read from coordinate line `i`.
pub open spec fn coord_entry(c: (usize, usize), i: int) -> Entry {
    Entry { row: c.0 as u32, col: c.1 as u32, src: i as usize, negate: false }
}

/// Whether line `c` also stands for its mirror image across the diagonal.
pub open spec fn mirrored(c: (usize, usize), sym: Symmetry) -> bool {
    sym != Symmetry::General && c.0 != c.1
}

/// The mirror image of coordinate line `i`: transposed, and negated for a
/// skew-symmetric matrix.
pub open spec fn mirror_entry(c: (usize, usize), i: int, sym: Symmetry) -> Entry {
    Entry { row: c.1 as u32, col: c.0 as u32, src: i as usize, negate: sym == Symmetry::Skew }
}

/// The entries the coordinate lines stand for, in reading order: each line,
/// followed by its mirror image where the matrix is stored by one triangle.
pub open spec fn expanded(coords: Seq<(usize, usize)>, sym: Symmetry) -> Seq<Entry>
    decreases coords.len(),
{
    if coords.len() == 0 {
        Seq::empty()
    } else {
        let i = coords.len() - 1;
        let c = coords[i];
        let rest = expanded(coords.drop_last(), sym);
        if mirrored(c, sym) {
            rest.push(coord_entry(c, i)).push(mirror_entry(c, i, sym))
        } else {
            rest.push(coord_entry(c, i))
        }
    }
}

/// Every line, and its mirror image where there is one, lies inside the
/// matrix.
pub open spec fn coords_fit(coords: Seq<(usize, usize)>, nrows: int, ncols: int, sym: Symmetry) -> bool {
    forall|i: int|
        0 <= i < coords.len() ==> {
            &&& #[trigger] coords[i].0 < nrows
            &&& coords[i].1 < ncols
            &&& mirrored(coords[i], sym) ==> coords[i].1 < nrows && coords[i].0 < ncols
        }
}

proof fn lemma_expanded_step(coords: Seq<(usize, usize)>, i: int, sym: Symmetry)
    requires
        0 <= i < coords.len(),
    ensures
        expanded(coords.take(i + 1), sym) == (if mirrored(coords[i], sym) {
            expanded(coords.take(i), sym).push(coord_entry(coords[i], i)).push(
                mirror_entry(coords[i], i, sym),
            )
        } else {
            expanded(coords.take(i), sym).push(coord_entry(coords[i], i))
        }),
{
    assert(coords.take(i + 1).drop_last() =~= coords.take(i));
}

/// The entries of a fitting coordinate list have rows below `nrows` and
/// columns below `ncols`.
pub proof fn lemma_expanded_fits(coords: Seq<(usize, usize)>, nrows: int, ncols: int, sym: Symmetry)
    requires
        coords_fit(coords, nrows, ncols, sym),
        nrows <= u32::MAX + 1,
        ncols <= u32::MAX + 1,
    ensures
        keys_below(expanded(coords, sym), SortKey::Row, nrows),
        keys_below(expanded(coords, sym), SortKey::Col, ncols),
    decreases coords.len(),
{
    if coords.len() > 0 {
        let t = coords.drop_last();
        assert(coords_fit(t, nrows, ncols, sym)) by {
            assert forall|i: int| 0 <= i < t.len() implies #[trigger] t[i].0 < nrows && t[i].1 < ncols
                && (mirrored(t[i], sym) ==> t[i].1 < nrows && t[i].0 < ncols) by {
                assert(t[i] == coords[i]);
                assert(coords[i].0 < nrows);
            }
        }
        lemma_expanded_fits(t, nrows, ncols, sym);
        let c = coords[coords.len() - 1];
        let e = expanded(coords, sym);
        let r = expanded(t, sym);
        assert forall|i: int| 0 <= i < e.len() implies #[trigger] key_of(e[i], SortKey::Row) < nrows
            && key_of(e[i], SortKey::Col) < ncols by {
            if i < r.len() {
                assert(e[i] == r[i]);
            }
        }
    }
}

/// Lists the entries that the coordinate lines stand for.
pub fn expand_entries(coords: &Vec<(usize, usize)>, sym: Symmetry) -> (res: Vec<Entry>)
    requires
        expanded(coords@, sym).len() <= usize::MAX,
    ensures
        res@ == expanded(coords@, sym),
{
    let n = coords.len();
    let mut out: Vec<Entry> = Vec::new();
    let mut i: usize = 0;
    proof {
        assert(coords@.take(0) =~= Seq::<(usize, usize)>::empty());
    }
    while i < n
        invariant
            n == coords@.len(),
            i <= n,
            expanded(coords@, sym).len() <= usize::MAX,
            out@ == expanded(coords@.take(i as int), sym),
        decreases n - i,
    {
        let (r, c) = coords[i];
        proof {
            lemma_expanded_step(coords@, i as int, sym);
            lemma_expanded_prefix_len(coords@, (i + 1) as int, sym);
        }
        out.push(Entry { row: r as u32, col: c as u32, src: i, negate: false });
        if sym != Symmetry::General && r != c {
            let negate = match sym {
                Symmetry::Skew => true,
                _ => false,
            };
            out.push(Entry { row: c as u32, col: r as u32, src: i, negate });
        }
        i = i + 1;
    }
    proof {
        assert(coords@.take(n as int) =~= coords@);
    }
    out
}

proof fn lemma_expanded_prefix_len(coords: Seq<(usize, usize)>, i: int, sym: Symmetry)
    requires
        0 <= i <= coords.len(),
    ensures
        expanded(coords.take(i), sym).len() <= expanded(coords, sym).len(),
    decreases coords.len() - i,
{
    if i < coords.len() {
        lemma_expanded_prefix_len(coords, i + 1, sym);
        lemma_expanded_step(coords, i, sym);
    } else {
        assert(coords.take(i) =~= coords);
    }
}

/// A rearrangement of `b` keeps every bound that `b`'s keys obey.
pub proof fn lemma_keys_below_perm(a: Seq<Entry>, b: Seq<Entry>, by: SortKey, n: int)
    requires
        a.to_multiset() == b.to_multiset(),
        keys_below(b, by, n),
    ensures
        keys_below(a, by, n),
{
    broadcast use vstd::seq_lib::group_to_multiset_ensures;

    assert forall|i: int| 0 <= i < a.len() implies #[trigger] key_of(a[i], by) < n by {
        assert(a.contains(a[i]));
        assert(a.to_multiset().count(a[i]) > 0);
        assert(b.contains(a[i]));
        let j = choose|j: int| 0 <= j < b.len() && b[j] == a[i];
        assert(key_of(b[j], by) < n);
    }
}

/// The grouped sequence is ordered by its key.
pub proof fn lemma_grouped_sorted(s: Seq<Entry>, by: SortKey, n: nat)
    ensures
        sorted_by(grouped(s, by, n), by),
    decreases n,
{
    if n > 0 {
        let m = (n - 1) as nat;
        lemma_grouped_sorted(s, by, m);
        lemma_grouped_keys(s, by, m);
        lemma_bucket_keys(s, by, m as int);
        let g = grouped(s, by, m);
        let b = bucket(s, by, m as int);
        let r = g + b;
        assert forall|i: int, j: int| 0 <= i <= j < r.len() implies key_of(#[trigger] r[i], by)
            <= key_of(#[trigger] r[j], by) by {
            if j < g.len() {
                assert(r[i] == g[i] && r[j] == g[j]);
            } else if i < g.len() {
                assert(r[i] == g[i] && r[j] == b[j - g.len()]);
            } else {
                assert(r[i] == b[i - g.len()] && r[j] == b[j - g.len()]);
            }
        }
    }
}

/// Fewer buckets make a prefix of the grouped sequence.
pub proof fn lemma_grouped_prefix(s: Seq<Entry>, by: SortKey, m: nat, n: nat)
    requires
        m <= n,
    ensures
        grouped(s, by, m).len() <= grouped(s, by, n).len(),
        grouped(s, by, n).take(grouped(s, by, m).len() as int) == grouped(s, by, m),
    decreases n,
{
    if m < n {
        let k = (n - 1) as nat;
        lemma_grouped_prefix(s, by, m, k);
        let gk = grouped(s, by, k);
        let gm = grouped(s, by, m);
        assert(grouped(s, by, n).take(gm.len() as int) =~= gm) by {
            assert forall|i: int| 0 <= i < gm.len() implies grouped(s, by, n).take(gm.len() as int)[i]
                == #[trigger] gm[i] by {
                assert(grouped(s, by, n)[i] == gk[i]);
                assert(gk.take(gm.len() as int)[i] == gk[i]);
            }
        }
    } else {
        assert(grouped(s, by, n).take(grouped(s, by, n).len() as int) =~= grouped(s, by, n));
    }
}

/// Within the run of key `k`, every entry has key `k`.
pub proof fn lemma_grouped_run(s: Seq<Entry>, by: SortKey, n: nat, k: nat, i: int)
    requires
        k < n,
        grouped(s, by, k).len() <= i < grouped(s, by, (k + 1) as nat).len(),
    ensures
        i < grouped(s, by, n).len(),
        key_of(grouped(s, by, n)[i], by) == k,
{
    lemma_grouped_prefix(s, by, (k + 1) as nat, n);
    lemma_bucket_keys(s, by, k as int);
    let g1 = grouped(s, by, (k + 1) as nat);
    let g0 = grouped(s, by, k);
    assert(g1[i] == bucket(s, by, k as int)[i - g0.len()]);
    assert(grouped(s, by, n).take(g1.len() as int)[i] == g1[i]);
}

/// The index arrays of a sparse matrix in both compressed layouts, with
/// the value source of every stored entry.
pub struct SparseLayout {
    pub nrows: usize,
    pub ncols: usize,
    pub nnz: usize,
    /// CSR: `row_ptr[r] .. row_ptr[r + 1]` are the positions of row `r`.
    pub row_ptr: Vec<i32>,
    /// CSR: the column of each position.
    pub col_idx: Vec<i32>,
    /// CSC: `col_ptr[c] .. col_ptr[c + 1]` are the positions of column `c`.
    pub col_ptr: Vec<i32>,
    /// CSC: the row of each position.
    pub row_idx: Vec<i32>,
    /// The entries in CSR order: by row, then by column.
    pub triplets: Vec<Entry>,
    /// The entries in CSC order: by column, then by row.
    pub csc_entries: Vec<Entry>,
}

/// The entries sorted by row and then by column (stably).
pub open spec fn csr_order(e: Seq<Entry>, nrows: nat, ncols: nat) -> Seq<Entry> {
    grouped(grouped(e, SortKey::Col, ncols), SortKey::Row, nrows)
}

/// The entries sorted by column and then by row (stably).
pub open spec fn csc_order(e: Seq<Entry>, nrows: nat, ncols: nat) -> Seq<Entry> {
    grouped(csr_order(e, nrows, ncols), SortKey::Col, ncols)
}

/// `l` is the assembly of the coordinate lines `coords` of an
/// `nrows x ncols` matrix with symmetry `sym`.
pub open spec fn is_layout_of(
    l: SparseLayout,
    nrows: usize,
    ncols: usize,
    coords: Seq<(usize, usize)>,
    sym: Symmetry,
) -> bool {
    let e = expanded(coords, sym);
    let t = csr_order(e, nrows as nat, ncols as nat);
    let c = csc_order(e, nrows as nat, ncols as nat);
    &&& l.nrows == nrows
    &&& l.ncols == ncols
    &&& l.nnz == e.len()
    &&& l.triplets@ == t
    &&& l.csc_entries@ == c
    &&& l.row_ptr@.len() == nrows + 1
    &&& forall|r: int|
        0 <= r <= nrows ==> #[trigger] l.row_ptr@[r] == grouped(
            grouped(e, SortKey::Col, ncols as nat),
            SortKey::Row,
            r as nat,
        ).len()
    &&& l.col_idx@.len() == t.len()
    &&& forall|i: int| 0 <= i < t.len() ==> #[trigger] l.col_idx@[i] == t[i].col as i32
    &&& l.col_ptr@.len() == ncols + 1
    &&& forall|q: int|
        0 <= q <= ncols ==> #[trigger] l.col_ptr@[q] == grouped(t, SortKey::Col, q as nat).len()
    &&& l.row_idx@.len() == c.len()
    &&& forall|i: int| 0 <= i < c.len() ==> #[trigger] l.row_idx@[i] == c[i].row as i32
}

/// What `assemble_layout` asks of a coordinate list whose dimensions fit
/// in `u32`: every line inside the matrix, the entry count within `i32`,
/// and room for one offset past each row and column.
pub open spec fn assembly_inputs_ok(nrows: usize, ncols: usize, coords: Seq<(usize, usize)>, sym: Symmetry) -> bool {
    &&& coords_fit(coords, nrows as int, ncols as int, sym)
    &&& expanded(coords, sym).len() <= i32::MAX
    &&& nrows < usize::MAX
    &&& ncols < usize::MAX
}

/// Converts run offsets, all at most `i32::MAX`, to `i32`.
fn offsets_to_i32(starts: &Vec<usize>) -> (res: Vec<i32>)
    requires
        forall|i: int| 0 <= i < starts@.len() ==> #[trigger] starts@[i] <= i32::MAX,
    ensures
        res@.len() == starts@.len(),
        forall|i: int| 0 <= i < starts@.len() ==> #[trigger] res@[i] == starts@[i],
{
    let mut out: Vec<i32> = Vec::new();
    let mut i: usize = 0;
    while i < starts.len()
        invariant
            i <= starts@.len(),
            forall|q: int| 0 <= q < starts@.len() ==> #[trigger] starts@[q] <= i32::MAX,
            out@.len() == i,
            forall|q: int| 0 <= q < i ==> #[trigger] out@[q] == starts@[q],
        decreases starts@.len() - i,
    {
        out.push(starts[i] as i32);
        i = i + 1;
    }
    out
}

/// The column of each entry, as stored in a CSR column index array.
fn columns_i32(entries: &Vec<Entry>) -> (res: Vec<i32>)
    ensures
        res@.len() == entries@.len(),
        forall|i: int| 0 <= i < entries@.len() ==> #[trigger] res@[i] == entries@[i].col as i32,
{
    let mut out: Vec<i32> = Vec::new();
    let mut i: usize = 0;
    while i < entries.len()
        invariant
            i <= entries@.len(),
            out@.len() == i,
            forall|q: int| 0 <= q < i ==> #[trigger] out@[q] == entries@[q].col as i32,
        decreases entries@.len() - i,
    {
        out.push(entries[i].col as i32);
        i = i + 1;
    }
    out
}

/// The row of each entry, as stored in a CSC row index array.
fn rows_i32(entries: &Vec<Entry>) -> (res: Vec<i32>)
    ensures
        res@.len() == entries@.len(),
        forall|i: int| 0 <= i < entries@.len() ==> #[trigger] res@[i] == entries@[i].row as i32,
{
    let mut out: Vec<i32> = Vec::new();
    let mut i: usize = 0;
    while i < entries.len()
        invariant
            i <= entries@.len(),
            out@.len() == i,
            forall|q: int| 0 <= q < i ==> #[trigger] out@[q] == entries@[q].row as i32,
        decreases entries@.len() - i,
    {
        out.push(entries[i].row as i32);
        i = i + 1;
    }
    out
}

/// Assembles the CSR and CSC index arrays of a Matrix Market coordinate
/// list. A file stored by one triangle (`Symmetric`, `Skew`) contributes
/// each off-diagonal line twice, the second time transposed (and negated
/// for `Skew`).
///
/// Refuses an array file, and dimensions beyond `u32`.
pub fn assemble_layout(content: &MtxContent, sym: Symmetry) -> (res: Result<SparseLayout, String>)
    requires
        content matches MtxContent::Sparse { nrows, ncols, coords } ==> (nrows <= u32::MAX && ncols
            <= u32::MAX ==> assembly_inputs_ok(*nrows, *ncols, coords@, sym)),
    ensures
        match content {
            MtxContent::Dense => res matches Err(e) && e@ == "Only sparse matrices supported"@,
            MtxContent::Sparse { nrows, ncols, coords } => if nrows > u32::MAX || ncols > u32::MAX {
                res matches Err(e) && e@ == "Matrix dimensions exceed u32 index limits"@
            } else {
                res matches Ok(l) && is_layout_of(l, *nrows, *ncols, coords@, sym)
            },
        },
{
    match content {
        MtxContent::Dense => Err(String::from_str("Only sparse matrices supported")),
        MtxContent::Sparse { nrows, ncols, coords } => {
            let nrows = *nrows;
            let ncols = *ncols;
            if nrows > u32::MAX as usize || ncols > u32::MAX as usize {
                return Err(String::from_str("Matrix dimensions exceed u32 index limits"));
            }
            let ghost e = expanded(coords@, sym);
            proof {
                lemma_expanded_fits(coords@, nrows as int, ncols as int, sym);
            }
            let entries = expand_entries(coords, sym);
            let (by_col, _) = counting_sort(&entries, SortKey::Col, ncols);
            proof {
                lemma_grouped_multiset(e, SortKey::Col, ncols as nat);
                lemma_keys_below_perm(by_col@, e, SortKey::Row, nrows as int);
            }
            let (triplets, row_starts) = counting_sort(&by_col, SortKey::Row, nrows);
            proof {
                lemma_grouped_multiset(by_col@, SortKey::Row, nrows as nat);
                lemma_keys_below_perm(triplets@, e, SortKey::Col, ncols as int);
                lemma_grouped_len_all(by_col@, SortKey::Row, nrows as nat);
                lemma_grouped_len_all(e, SortKey::Col, ncols as nat);
            }
            let (csc_entries, col_starts) = counting_sort(&triplets, SortKey::Col, ncols);
            proof {
                lemma_grouped_len_all(triplets@, SortKey::Col, ncols as nat);
                assert forall|i: int| 0 <= i < row_starts@.len() implies #[trigger] row_starts@[i] <= i32::MAX by {
                    lemma_grouped_len_mono(by_col@, SortKey::Row, i as nat, nrows as nat);
                }
                assert forall|i: int| 0 <= i < col_starts@.len() implies #[trigger] col_starts@[i] <= i32::MAX by {
                    lemma_grouped_len_mono(triplets@, SortKey::Col, i as nat, ncols as nat);
                }
            }
            let row_ptr = offsets_to_i32(&row_starts);
            let col_idx = columns_i32(&triplets);
            let col_ptr = offsets_to_i32(&col_starts);
            let row_idx = rows_i32(&csc_entries);
            let nnz = entries.len();
            Ok(SparseLayout { nrows, ncols, nnz, row_ptr, col_idx, col_ptr, row_idx, triplets, csc_entries })
        },
    }
}

/// The dimensions fit in `u32` and the lines meet what assembly asks.
pub open spec fn valid_assembly(nrows: usize, ncols: usize, coords: Seq<(usize, usize)>, sym: Symmetry) -> bool {
    nrows <= u32::MAX && ncols <= u32::MAX && assembly_inputs_ok(nrows, ncols, coords, sym)
}

proof fn lemma_csr_parts(nrows: usize, ncols: usize, coords: Seq<(usize, usize)>, sym: Symmetry)
    requires
        valid_assembly(nrows, ncols, coords, sym),
    ensures
        ({
            let e = expanded(coords, sym);
            let a = grouped(e, SortKey::Col, ncols as nat);
            &&& keys_below(e, SortKey::Row, nrows as int)
            &&& keys_below(e, SortKey::Col, ncols as int)
            &&& a.to_multiset() == e.to_multiset()
            &&& keys_below(a, SortKey::Row, nrows as int)
            &&& csr_order(e, nrows as nat, ncols as nat).to_multiset() == e.to_multiset()
            &&& keys_below(csr_order(e, nrows as nat, ncols as nat), SortKey::Col, ncols as int)
            &&& csc_order(e, nrows as nat, ncols as nat).to_multiset() == e.to_multiset()
            &&& csr_order(e, nrows as nat, ncols as nat).len() == e.len()
            &&& csc_order(e, nrows as nat, ncols as nat).len() == e.len()
        }),
{
    let e = expanded(coords, sym);
    lemma_expanded_fits(coords, nrows as int, ncols as int, sym);
    let a = grouped(e, SortKey::Col, ncols as nat);
    lemma_grouped_multiset(e, SortKey::Col, ncols as nat);
    lemma_keys_below_perm(a, e, SortKey::Row, nrows as int);
    let t = grouped(a, SortKey::Row, nrows as nat);
    lemma_grouped_multiset(a, SortKey::Row, nrows as nat);
    lemma_keys_below_perm(t, e, SortKey::Col, ncols as int);
    lemma_grouped_multiset(t, SortKey::Col, ncols as nat);
    lemma_grouped_len_all(t, SortKey::Col, ncols as nat);
    lemma_grouped_len_all(a, SortKey::Row, nrows as nat);
    lemma_grouped_len_all(e, SortKey::Col, ncols as nat);
}

/// The CSR entries run by row and, within a row, by column; the CSC
/// entries run by column and, within a column, by row.
pub proof fn law_layout_sorted(l: SparseLayout, nrows: usize, ncols: usize, coords: Seq<(usize, usize)>, sym: Symmetry)
    requires
        valid_assembly(nrows, ncols, coords, sym),
        is_layout_of(l, nrows, ncols, coords, sym),
    ensures
        lex_sorted(l.triplets@, SortKey::Row),
        lex_sorted(l.csc_entries@, SortKey::Col),
{
    lemma_csr_parts(nrows, ncols, coords, sym);
    let e = expanded(coords, sym);
    let a = grouped(e, SortKey::Col, ncols as nat);
    let t = grouped(a, SortKey::Row, nrows as nat);
    lemma_grouped_sorted(e, SortKey::Col, ncols as nat);
    assert forall|k: int| 0 <= k < nrows implies sorted_by(#[trigger] bucket(a, SortKey::Row, k), SortKey::Col) by {
        lemma_bucket_sorted(a, SortKey::Row, k, SortKey::Col);
    }
    lemma_grouped_lex_sorted(a, SortKey::Row, nrows as nat);
    assert(sorted_by(t, SortKey::Row)) by {
        assert forall|i: int, j: int| 0 <= i <= j < t.len() implies key_of(#[trigger] t[i], SortKey::Row)
            <= key_of(#[trigger] t[j], SortKey::Row) by {
            if i < j {
                assert(lex_sorted(t, SortKey::Row));
            }
        }
    }
    assert forall|k: int| 0 <= k < ncols implies sorted_by(#[trigger] bucket(t, SortKey::Col, k), SortKey::Row) by {
        lemma_bucket_sorted(t, SortKey::Col, k, SortKey::Row);
    }
    lemma_grouped_lex_sorted(t, SortKey::Col, ncols as nat);
}

/// Both layouts hold exactly the entries that the coordinate lines stand
/// for, each as often as it is read: the CSR and CSC arrays describe the
/// same matrix.
pub proof fn law_layout_same_entries(l: SparseLayout, nrows: usize, ncols: usize, coords: Seq<(usize, usize)>, sym: Symmetry)
    requires
        valid_assembly(nrows, ncols, coords, sym),
        is_layout_of(l, nrows, ncols, coords, sym),
    ensures
        l.triplets@.to_multiset() == expanded(coords, sym).to_multiset(),
        l.csc_entries@.to_multiset() == expanded(coords, sym).to_multiset(),
        l.triplets@.to_multiset() == l.csc_entries@.to_multiset(),
        l.nnz == l.triplets@.len(),
        l.nnz == l.csc_entries@.len(),
{
    lemma_csr_parts(nrows, ncols, coords, sym);
}

/// The row offsets start at 0, end at `nnz`, never decrease, and delimit
/// the entries of each row; the column offsets do the same for columns.
pub proof fn law_layout_offsets(l: SparseLayout, nrows: usize, ncols: usize, coords: Seq<(usize, usize)>, sym: Symmetry)
    requires
        valid_assembly(nrows, ncols, coords, sym),
        is_layout_of(l, nrows, ncols, coords, sym),
    ensures
        l.row_ptr@[0] == 0,
        l.row_ptr@[nrows as int] == l.nnz,
        forall|a: int, b: int| 0 <= a <= b <= nrows ==> #[trigger] l.row_ptr@[a] <= #[trigger] l.row_ptr@[b],
        forall|r: int, i: int|
            #![trigger l.row_ptr@[r], l.triplets@[i]]
            0 <= r < nrows && l.row_ptr@[r] <= i < l.row_ptr@[r + 1] ==> l.triplets@[i].row == r
                && l.col_idx@[i] == l.triplets@[i].col as i32,
        l.col_ptr@[0] == 0,
        l.col_ptr@[ncols as int] == l.nnz,
        forall|a: int, b: int| 0 <= a <= b <= ncols ==> #[trigger] l.col_ptr@[a] <= #[trigger] l.col_ptr@[b],
        forall|q: int, i: int|
            #![trigger l.col_ptr@[q], l.csc_entries@[i]]
            0 <= q < ncols && l.col_ptr@[q] <= i < l.col_ptr@[q + 1] ==> l.csc_entries@[i].col == q
                && l.row_idx@[i] == l.csc_entries@[i].row as i32,
{
    lemma_csr_parts(nrows, ncols, coords, sym);
    let e = expanded(coords, sym);
    let a = grouped(e, SortKey::Col, ncols as nat);
    let t = grouped(a, SortKey::Row, nrows as nat);
    assert forall|x: int, y: int| 0 <= x <= y <= nrows implies #[trigger] l.row_ptr@[x] <= #[trigger] l.row_ptr@[y] by {
        lemma_grouped_len_mono(a, SortKey::Row, x as nat, y as nat);
    }
    assert forall|r: int, i: int|
        #![trigger l.row_ptr@[r], l.triplets@[i]]
        0 <= r < nrows && l.row_ptr@[r] <= i < l.row_ptr@[r + 1] implies l.triplets@[i].row == r
            && l.col_idx@[i] == l.triplets@[i].col as i32 by {
        lemma_grouped_run(a, SortKey::Row, nrows as nat, r as nat, i);
    }
    assert forall|x: int, y: int| 0 <= x <= y <= ncols implies #[trigger] l.col_ptr@[x] <= #[trigger] l.col_ptr@[y] by {
        lemma_grouped_len_mono(t, SortKey::Col, x as nat, y as nat);
    }
    assert forall|q: int, i: int|
        #![trigger l.col_ptr@[q], l.csc_entries@[i]]
        0 <= q < ncols && l.col_ptr@[q] <= i < l.col_ptr@[q + 1] implies l.csc_entries@[i].col == q
            && l.row_idx@[i] == l.csc_entries@[i].row as i32 by {
        lemma_grouped_run(t, SortKey::Col, ncols as nat, q as nat, i);
    }
    lemma_grouped_empty(Seq::<Entry>::empty(), SortKey::Row, 0);
}

/// An entry's image across the diagonal: transposed and, off the diagonal
/// of a skew-symmetric matrix, negated.
pub open spec fn reflect(x: Entry, sym: Symmetry) -> Entry {
    Entry {
        row: x.col,
        col: x.row,
        src: x.src,
        negate: if sym == Symmetry::Skew && x.row != x.col {
            !x.negate
        } else {
            x.negate
        },
    }
}

proof fn lemma_expanded_reflect(coords: Seq<(usize, usize)>, sym: Symmetry)
    requires
        sym != Symmetry::General,
        forall|i: int| 0 <= i < coords.len() ==> #[trigger] coords[i].0 <= u32::MAX && coords[i].1 <= u32::MAX,
    ensures
        forall|x: Entry|
            #[trigger] expanded(coords, sym).to_multiset().count(x) == expanded(coords, sym).to_multiset().count(
                reflect(x, sym),
            ),
    decreases coords.len(),
{
    broadcast use vstd::seq_lib::to_multiset_build;
    broadcast use vstd::multiset::group_multiset_axioms;

    if coords.len() == 0 {
        broadcast use vstd::seq_lib::group_to_multiset_ensures;

        assert(expanded(coords, sym).to_multiset().len() == 0);
    } else {
        let t = coords.drop_last();
        assert forall|i: int| 0 <= i < t.len() implies #[trigger] t[i].0 <= u32::MAX && t[i].1 <= u32::MAX by {
            assert(t[i] == coords[i]);
            assert(coords[i].0 <= u32::MAX);
        }
        lemma_expanded_reflect(t, sym);
        let i = coords.len() - 1;
        let c = coords[i];
        assert(coords[i].0 <= u32::MAX);
        let a = coord_entry(c, i);
        let m0 = expanded(t, sym).to_multiset();
        if mirrored(c, sym) {
            let b = mirror_entry(c, i, sym);
            assert(reflect(a, sym) == b);
            assert(reflect(b, sym) == a);
            assert forall|x: Entry| #[trigger] expanded(coords, sym).to_multiset().count(x)
                == expanded(coords, sym).to_multiset().count(reflect(x, sym)) by {
                assert(reflect(reflect(x, sym), sym) == x);
                assert(m0.count(x) == m0.count(reflect(x, sym)));
            }
        } else {
            assert(reflect(a, sym) == a);
            assert forall|x: Entry| #[trigger] expanded(coords, sym).to_multiset().count(x)
                == expanded(coords, sym).to_multiset().count(reflect(x, sym)) by {
                assert(reflect(reflect(x, sym), sym) == x);
                assert(m0.count(x) == m0.count(reflect(x, sym)));
            }
        }
    }
}

/// A matrix stored by one triangle is assembled whole: every entry occurs
/// as often as its image across the diagonal, so the stored matrix equals
/// its transpose (symmetric) or the negation of its transpose off the
/// diagonal (skew-symmetric).
pub proof fn law_layout_reflects(l: SparseLayout, nrows: usize, ncols: usize, coords: Seq<(usize, usize)>, sym: Symmetry)
    requires
        valid_assembly(nrows, ncols, coords, sym),
        is_layout_of(l, nrows, ncols, coords, sym),
        sym != Symmetry::General,
    ensures
        forall|x: Entry|
            #[trigger] l.triplets@.to_multiset().count(x) == l.triplets@.to_multiset().count(reflect(x, sym)),
        forall|x: Entry|
            #[trigger] l.csc_entries@.to_multiset().count(x) == l.csc_entries@.to_multiset().count(reflect(x, sym)),
{
    lemma_csr_parts(nrows, ncols, coords, sym);
    assert forall|i: int| 0 <= i < coords.len() implies #[trigger] coords[i].0 <= u32::MAX && coords[i].1
        <= u32::MAX by {
        assert(coords[i].0 < nrows);
    }
    lemma_expanded_reflect(coords, sym);
}

} // verus!
