//! Stable sorting, stated as insertion of each element, in input order,
//! after every earlier element that does not come after it.

use vstd::prelude::*;

verus! {

/// `x` inserted into `s` after the last run of elements that are not
/// after it (`le(e, x)`), scanning from the end.
pub open spec fn insert_by<A>(s: Seq<A>, x: A, le: spec_fn(A, A) -> bool) -> Seq<A>
    decreases s.len(),
{
    if s.len() == 0 {
        seq![x]
    } else if le(s.last(), x) {
        s.push(x)
    } else {
        insert_by(s.drop_last(), x, le).push(s.last())
    }
}

/// Stable sort of `s` under the total preorder `le`.
pub open spec fn sort_by<A>(s: Seq<A>, le: spec_fn(A, A) -> bool) -> Seq<A>
    decreases s.len(),
{
    if s.len() == 0 {
        s
    } else {
        insert_by(sort_by(s.drop_last(), le), s.last(), le)
    }
}

/// Where the scan from the end stops, the insertion happens.
pub proof fn lemma_insert_at<A>(s: Seq<A>, x: A, le: spec_fn(A, A) -> bool, j: int)
    requires
        0 <= j <= s.len(),
        forall|k: int| j <= k < s.len() ==> !le(#[trigger] s[k], x),
        j == 0 || le(s[j - 1], x),
    ensures
        insert_by(s, x, le) == s.take(j) + seq![x] + s.skip(j),
    decreases s.len(),
{
    if s.len() == 0 {
        assert(s.take(j) + seq![x] + s.skip(j) =~= seq![x]);
    } else if le(s.last(), x) {
        assert(j == s.len());
        assert(s.take(j) + seq![x] + s.skip(j) =~= s.push(x));
    } else {
        let t = s.drop_last();
        assert(j < s.len());
        assert forall|k: int| j <= k < t.len() implies !le(#[trigger] t[k], x) by {
            assert(t[k] == s[k]);
        }
        if j > 0 {
            assert(t[j - 1] == s[j - 1]);
        }
        lemma_insert_at(t, x, le, j);
        assert(t.take(j) + seq![x] + t.skip(j) + seq![s.last()] =~= s.take(j) + seq![x] + s.skip(j));
    }
}

/// Indices `0..keys.len()` in stable ascending order of their keys.
pub open spec fn key_le(keys: Seq<i128>) -> spec_fn(usize, usize) -> bool {
    |a: usize, b: usize| keys[a as int] <= keys[b as int]
}

pub open spec fn identity_order(n: nat) -> Seq<usize> {
    Seq::new(n, |i: int| i as usize)
}

pub proof fn lemma_insert_by_len<A>(s: Seq<A>, x: A, le: spec_fn(A, A) -> bool)
    ensures
        insert_by(s, x, le).len() == s.len() + 1,
    decreases s.len(),
{
    if s.len() > 0 && !le(s.last(), x) {
        lemma_insert_by_len(s.drop_last(), x, le);
    }
}

pub proof fn lemma_sort_by_len<A>(s: Seq<A>, le: spec_fn(A, A) -> bool)
    ensures
        sort_by(s, le).len() == s.len(),
    decreases s.len(),
{
    if s.len() > 0 {
        lemma_sort_by_len(s.drop_last(), le);
        lemma_insert_by_len(sort_by(s.drop_last(), le), s.last(), le);
    }
}

/// Every element of an insertion comes from the sequence or is `x`.
pub proof fn lemma_insert_by_members<A>(s: Seq<A>, x: A, le: spec_fn(A, A) -> bool, k: int)
    requires
        0 <= k < s.len() + 1,
    ensures
        insert_by(s, x, le).len() == s.len() + 1,
        insert_by(s, x, le)[k] == x || exists|m: int| 0 <= m < s.len() && insert_by(s, x, le)[k] == s[m],
    decreases s.len(),
{
    lemma_insert_by_len(s, x, le);
    if s.len() == 0 {
    } else if le(s.last(), x) {
        if k < s.len() {
            assert(insert_by(s, x, le)[k] == s[k]);
        }
    } else {
        let t = s.drop_last();
        if k < s.len() {
            lemma_insert_by_members(t, x, le, k);
            if insert_by(s, x, le)[k] != x {
                let m = choose|m: int| 0 <= m < t.len() && insert_by(t, x, le)[k] == t[m];
                assert(insert_by(s, x, le)[k] == s[m]);
            }
        } else {
            assert(insert_by(s, x, le)[k] == s[s.len() - 1]);
        }
    }
}

/// `items` (indices into `keys`) in stable ascending order of their keys.
pub fn stable_sort_indices(items: &Vec<usize>, keys: &Vec<i128>) -> (r: Vec<usize>)
    requires
        forall|k: int| 0 <= k < items@.len() ==> (#[trigger] items@[k]) < keys@.len(),
    ensures
        r@ == sort_by(items@, key_le(keys@)),
        r@.len() == items@.len(),
        forall|k: int| 0 <= k < r@.len() ==> (#[trigger] r@[k]) < keys@.len(),
{
    let n = items.len();
    let ghost le = key_le(keys@);
    let mut out: Vec<usize> = Vec::new();
    let mut i: usize = 0;
    assert(items@.take(0) =~= Seq::<usize>::empty());
    while i < n
        invariant
            n == items@.len(),
            i <= n,
            le == key_le(keys@),
            forall|k: int| 0 <= k < items@.len() ==> (#[trigger] items@[k]) < keys@.len(),
            out@ == sort_by(items@.take(i as int), le),
            out@.len() == i,
            forall|k: int| 0 <= k < out@.len() ==> (#[trigger] out@[k]) < keys@.len(),
        decreases n - i,
    {
        let item = items[i];
        let x = keys[item];
        let mut j = out.len();
        while j > 0 && keys[out[j - 1]] > x
            invariant
                n == items@.len(),
                i < n,
                item == items@[i as int],
                item < keys@.len(),
                x == keys@[item as int],
                j <= out@.len(),
                forall|k: int| 0 <= k < out@.len() ==> (#[trigger] out@[k]) < keys@.len(),
                forall|k: int| j <= k < out@.len() ==> !le(#[trigger] out@[k], item),
                le == key_le(keys@),
            decreases j,
        {
            j = j - 1;
        }
        proof {
            lemma_insert_at(out@, item, le, j as int);
            assert(items@.take(i + 1).drop_last() =~= items@.take(i as int));
            assert(items@.take(i + 1).last() == item);
        }
        let ghost prev = out@;
        out.insert(j, item);
        assert(out@ =~= prev.take(j as int) + seq![item] + prev.skip(j as int));
        assert forall|k: int| 0 <= k < out@.len() implies (#[trigger] out@[k]) < keys@.len() by {
            if k < j {
                assert(out@[k] == prev[k]);
            } else if k > j {
                assert(out@[k] == prev[k - 1]);
            }
        }
        i = i + 1;
    }
    assert(items@.take(n as int) =~= items@);
    out
}

/// The indices `0..n`.
pub fn index_range(n: usize) -> (r: Vec<usize>)
    ensures
        r@ == identity_order(n as nat),
{
    let mut r: Vec<usize> = Vec::new();
    let mut i: usize = 0;
    while i < n
        invariant
            i <= n,
            r@ == identity_order(i as nat),
        decreases n - i,
    {
        r.push(i);
        i = i + 1;
        assert(r@ =~= identity_order(i as nat));
    }
    r
}

/// Insertion adds exactly one occurrence of `x`.
pub proof fn lemma_insert_by_multiset<A>(s: Seq<A>, x: A, le: spec_fn(A, A) -> bool)
    ensures
        insert_by(s, x, le).to_multiset() =~= s.to_multiset().insert(x),
    decreases s.len(),
{
    broadcast use vstd::seq_lib::group_to_multiset_ensures;

    if s.len() == 0 {
        assert(s.to_multiset() =~= vstd::multiset::Multiset::<A>::empty()) by {
            vstd::multiset::lemma_multiset_empty_len(s.to_multiset());
        }
        assert(seq![x] =~= s.push(x));
    } else if le(s.last(), x) {
    } else {
        let t = s.drop_last();
        lemma_insert_by_multiset(t, x, le);
        assert(t.push(s.last()) =~= s);
    }
}

/// Sorting permutes its input.
pub proof fn lemma_sort_by_multiset<A>(s: Seq<A>, le: spec_fn(A, A) -> bool)
    ensures
        sort_by(s, le).to_multiset() =~= s.to_multiset(),
    decreases s.len(),
{
    broadcast use vstd::seq_lib::group_to_multiset_ensures;

    if s.len() > 0 {
        let t = s.drop_last();
        lemma_sort_by_multiset(t, le);
        lemma_insert_by_multiset(sort_by(t, le), s.last(), le);
        assert(t.push(s.last()) =~= s);
    }
}

pub open spec fn total_preorder<A>(le: spec_fn(A, A) -> bool) -> bool {
    &&& forall|a: A, b: A| #[trigger] le(a, b) || le(b, a)
    &&& forall|a: A, b: A, c: A| #[trigger] le(a, b) && #[trigger] le(b, c) ==> le(a, c)
}

pub open spec fn sorted_by<A>(s: Seq<A>, le: spec_fn(A, A) -> bool) -> bool {
    forall|i: int, j: int| 0 <= i < j < s.len() ==> le(#[trigger] s[i], #[trigger] s[j])
}

proof fn lemma_insert_by_sorted<A>(s: Seq<A>, x: A, le: spec_fn(A, A) -> bool)
    requires
        total_preorder(le),
        sorted_by(s, le),
    ensures
        sorted_by(insert_by(s, x, le), le),
    decreases s.len(),
{
    lemma_insert_by_len(s, x, le);
    if s.len() == 0 {
    } else if le(s.last(), x) {
        let r = s.push(x);
        assert forall|i: int, j: int| 0 <= i < j < r.len() implies le(#[trigger] r[i], #[trigger] r[j]) by {
            if j == s.len() {
                if i < s.len() - 1 {
                    assert(le(s[i], s[s.len() - 1]));
                }
            } else {
                assert(r[i] == s[i] && r[j] == s[j]);
            }
        }
    } else {
        let t = s.drop_last();
        assert(sorted_by(t, le)) by {
            assert forall|i: int, j: int| 0 <= i < j < t.len() implies le(#[trigger] t[i], #[trigger] t[j]) by {
                assert(t[i] == s[i] && t[j] == s[j]);
            }
        }
        lemma_insert_by_sorted(t, x, le);
        let u = insert_by(t, x, le);
        lemma_insert_by_len(t, x, le);
        let r = u.push(s.last());
        assert(le(x, s.last()));
        assert forall|i: int, j: int| 0 <= i < j < r.len() implies le(#[trigger] r[i], #[trigger] r[j]) by {
            if j == u.len() {
                lemma_insert_by_members(t, x, le, i);
                if u[i] != x {
                    let m = choose|m: int| 0 <= m < t.len() && u[i] == t[m];
                    assert(le(s[m], s[s.len() - 1]));
                }
            } else {
                assert(r[i] == u[i] && r[j] == u[j]);
            }
        }
    }
}

/// Sorting under a total preorder yields a sorted sequence.
pub proof fn lemma_sort_by_sorted<A>(s: Seq<A>, le: spec_fn(A, A) -> bool)
    requires
        total_preorder(le),
    ensures
        sorted_by(sort_by(s, le), le),
    decreases s.len(),
{
    if s.len() > 0 {
        lemma_sort_by_sorted(s.drop_last(), le);
        lemma_insert_by_sorted(sort_by(s.drop_last(), le), s.last(), le);
    }
}

/// Integer keys give a total preorder on indices.
pub proof fn lemma_key_le_total(keys: Seq<i128>)
    ensures
        total_preorder(key_le(keys)),
{
}

} // verus!
