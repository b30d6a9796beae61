use vstd::prelude::*;

verus! {

/// Value of the first entry with key `k`, scanning front to back.
pub open spec fn lookup<K, V>(s: Seq<(K, V)>, k: K) -> Option<V>
    decreases s.len(),
{
    if s.len() == 0 {
        None
    } else if s[0].0 == k {
        Some(s[0].1)
    } else {
        lookup(s.drop_first(), k)
    }
}

pub open spec fn has_key<K, V>(s: Seq<(K, V)>, k: K) -> bool {
    lookup(s, k) is Some
}

/// No two entries share a key.
pub open spec fn keys_distinct<K, V>(s: Seq<(K, V)>) -> bool {
    forall|i: int, j: int| 0 <= i < j < s.len() ==> s[i].0 != s[j].0
}

/// No element occurs twice.
pub open spec fn elems_distinct<T>(s: Seq<T>) -> bool {
    forall|i: int, j: int| 0 <= i < j < s.len() ==> s[i] != s[j]
}

/// `s` with its first occurrence of `e` removed (unchanged if absent).
pub open spec fn remove_elem<T>(s: Seq<T>, e: T) -> Seq<T>
    decreases s.len(),
{
    if s.len() == 0 {
        s
    } else if s[0] == e {
        s.drop_first()
    } else {
        seq![s[0]] + remove_elem(s.drop_first(), e)
    }
}

/// A prefix that misses `k` does not affect the lookup.
pub proof fn lemma_lookup_skip<K, V>(s: Seq<(K, V)>, k: K, n: int)
    requires
        0 <= n <= s.len(),
        forall|m: int| 0 <= m < n ==> s[m].0 != k,
    ensures
        lookup(s, k) == lookup(s.skip(n), k),
    decreases n,
{
    if n > 0 {
        assert(s.skip(1) == s.drop_first());
        lemma_lookup_skip(s.drop_first(), k, n - 1);
        assert(s.drop_first().skip(n - 1) == s.skip(n));
    } else {
        assert(s.skip(0) == s);
    }
}

/// A successful lookup names some entry of the sequence.
pub proof fn lemma_lookup_some_index<K, V>(s: Seq<(K, V)>, k: K)
    requires
        lookup(s, k) is Some,
    ensures
        exists|i: int|
            0 <= i < s.len() && s[i].0 == k && s[i].1 == lookup(s, k)->Some_0,
    decreases s.len(),
{
    if s.len() > 0 {
        if s[0].0 == k {
            assert(s[0].0 == k && s[0].1 == lookup(s, k)->Some_0);
        } else {
            lemma_lookup_some_index(s.drop_first(), k);
            let i = choose|i: int|
                0 <= i < s.drop_first().len() && s.drop_first()[i].0 == k
                    && s.drop_first()[i].1 == lookup(s.drop_first(), k)->Some_0;
            assert(s[i + 1].0 == k && s[i + 1].1 == lookup(s, k)->Some_0);
        }
    }
}

/// A failed lookup means no entry has the key.
pub proof fn lemma_lookup_none<K, V>(s: Seq<(K, V)>, k: K)
    requires
        lookup(s, k) is None,
    ensures
        forall|i: int| 0 <= i < s.len() ==> s[i].0 != k,
    decreases s.len(),
{
    if s.len() > 0 {
        lemma_lookup_none(s.drop_first(), k);
        assert(forall|i: int| 1 <= i < s.len() ==> s[i] == s.drop_first()[i - 1]);
    }
}

/// Updating the value at index `i` changes the lookup of that entry's key
/// alone, when keys are distinct.
pub proof fn lemma_lookup_update<K, V>(s: Seq<(K, V)>, i: int, v: V, k: K)
    requires
        keys_distinct(s),
        0 <= i < s.len(),
    ensures
        keys_distinct(s.update(i, (s[i].0, v))),
        lookup(s.update(i, (s[i].0, v)), k) == if k == s[i].0 {
            Some(v)
        } else {
            lookup(s, k)
        },
    decreases s.len(),
{
    let t = s.update(i, (s[i].0, v));
    assert(forall|p: int| 0 <= p < s.len() ==> t[p].0 == s[p].0);
    if i == 0 {
        if k != s[0].0 {
            assert(t.drop_first() == s.drop_first());
        }
    } else {
        assert(keys_distinct(s.drop_first())) by {
            assert(forall|p: int, q: int|
                0 <= p < q < s.drop_first().len() ==> s.drop_first()[p] == s[p + 1]
                    && s.drop_first()[q] == s[q + 1]);
        }
        lemma_lookup_update(s.drop_first(), i - 1, v, k);
        assert(t.drop_first() == s.drop_first().update(i - 1, (s[i].0, v)));
        if k == s[i].0 {
            assert(s[0].0 != k);
        }
    }
}

/// Appending a fresh key extends the lookup pointwise.
pub proof fn lemma_lookup_push<K, V>(s: Seq<(K, V)>, nk: K, nv: V, k: K)
    requires
        !has_key(s, nk),
    ensures
        lookup(s.push((nk, nv)), k) == if k == nk {
            Some(nv)
        } else {
            lookup(s, k)
        },
    decreases s.len(),
{
    if s.len() == 0 {
        assert(s.push((nk, nv))[0] == (nk, nv));
        assert(s.push((nk, nv)).drop_first() == s);
    } else {
        lemma_lookup_push(s.drop_first(), nk, nv, k);
        assert(s.push((nk, nv)).drop_first() == s.drop_first().push((nk, nv)));
        assert(s.push((nk, nv))[0] == s[0]);
    }
}

/// Removing the entry at index `i` erases its key from the lookup and leaves
/// every other key's result unchanged, when keys are distinct.
pub proof fn lemma_lookup_remove<K, V>(s: Seq<(K, V)>, i: int, k: K)
    requires
        keys_distinct(s),
        0 <= i < s.len(),
    ensures
        keys_distinct(s.remove(i)),
        lookup(s.remove(i), k) == if k == s[i].0 {
            None::<V>
        } else {
            lookup(s, k)
        },
    decreases s.len(),
{
    let t = s.remove(i);
    assert(forall|p: int| 0 <= p < i ==> t[p] == s[p]);
    assert(forall|p: int| i <= p < t.len() ==> t[p] == s[p + 1]);
    if i == 0 {
        assert(t == s.drop_first());
        if k == s[0].0 {
            assert(lookup(s.drop_first(), k) is Some ==> has_key(s.drop_first(), k));
            if lookup(s.drop_first(), k) is Some {
                lemma_lookup_some_index(s.drop_first(), k);
            }
        }
    } else {
        assert(keys_distinct(s.drop_first())) by {
            assert(forall|p: int, q: int|
                0 <= p < q < s.drop_first().len() ==> s.drop_first()[p] == s[p + 1]
                    && s.drop_first()[q] == s[q + 1]);
        }
        lemma_lookup_remove(s.drop_first(), i - 1, k);
        assert(t.drop_first() == s.drop_first().remove(i - 1));
        assert(t[0] == s[0]);
        if k == s[i].0 {
            assert(s[0].0 != k);
        }
    }
}

/// Membership after appending an element.
pub proof fn lemma_push_contains<T>(s: Seq<T>, x: T, y: T)
    ensures
        s.push(x).contains(y) <==> (s.contains(y) || y == x),
{
    let t = s.push(x);
    if t.contains(y) {
        let j = choose|j: int| 0 <= j < t.len() && t[j] == y;
        if j < s.len() {
            assert(s[j] == y);
        }
    }
    if s.contains(y) {
        let j = choose|j: int| 0 <= j < s.len() && s[j] == y;
        assert(t[j] == y);
    }
    if y == x {
        assert(t[s.len() as int] == y);
    }
}

/// Membership after removing the element at one index.
pub proof fn lemma_remove_contains<T>(s: Seq<T>, i: int, y: T)
    requires
        0 <= i < s.len(),
    ensures
        s.remove(i).contains(y) <==> exists|j: int| 0 <= j < s.len() && j != i && s[j] == y,
{
    let t = s.remove(i);
    if t.contains(y) {
        let j = choose|j: int| 0 <= j < t.len() && t[j] == y;
        if j < i {
            assert(s[j] == y && j != i);
        } else {
            assert(s[j + 1] == y && j + 1 != i);
        }
    }
    if exists|j: int| 0 <= j < s.len() && j != i && s[j] == y {
        let j = choose|j: int| 0 <= j < s.len() && j != i && s[j] == y;
        if j < i {
            assert(t[j] == y);
        } else {
            assert(t[j - 1] == y);
        }
    }
}

/// Removing an absent element changes nothing.
pub proof fn lemma_remove_elem_absent<T>(s: Seq<T>, e: T)
    requires
        !s.contains(e),
    ensures
        remove_elem(s, e) == s,
    decreases s.len(),
{
    if s.len() > 0 {
        assert(s[0] != e);
        assert(!s.drop_first().contains(e)) by {
            if s.drop_first().contains(e) {
                let j = choose|j: int| 0 <= j < s.drop_first().len() && s.drop_first()[j] == e;
                assert(s[j + 1] == e);
            }
        }
        lemma_remove_elem_absent(s.drop_first(), e);
        assert(seq![s[0]] + s.drop_first() == s);
    }
}

/// Removing the first occurrence is removal at its index.
pub proof fn lemma_remove_elem_at<T>(s: Seq<T>, i: int)
    requires
        0 <= i < s.len(),
        forall|m: int| 0 <= m < i ==> s[m] != s[i],
    ensures
        remove_elem(s, s[i]) == s.remove(i),
    decreases i,
{
    if i == 0 {
        assert(s.drop_first() == s.remove(0));
    } else {
        assert(s[0] != s[i]);
        assert(s.drop_first()[i - 1] == s[i]);
        assert(forall|m: int| 0 <= m < i - 1 ==> s.drop_first()[m] == s[m + 1]);
        lemma_remove_elem_at(s.drop_first(), i - 1);
        assert(seq![s[0]] + s.drop_first().remove(i - 1) == s.remove(i));
    }
}

/// Removing one occurrence from a duplicate-free sequence erases that
/// element and keeps every other, still duplicate-free.
pub proof fn lemma_remove_elem_props<T>(s: Seq<T>, e: T, x: T)
    requires
        elems_distinct(s),
    ensures
        elems_distinct(remove_elem(s, e)),
        !remove_elem(s, e).contains(e),
        x != e ==> (remove_elem(s, e).contains(x) == s.contains(x)),
{
    if !s.contains(e) {
        lemma_remove_elem_absent(s, e);
        assert(!remove_elem(s, e).contains(e));
    } else {
        let i = choose|i: int| 0 <= i < s.len() && s[i] == e;
        assert(forall|m: int| 0 <= m < s.len() && m != i ==> s[m] != s[i]);
        lemma_remove_elem_at(s, i);
        let t = s.remove(i);
        assert(elems_distinct(t)) by {
            assert(forall|p: int| 0 <= p < i ==> t[p] == s[p]);
            assert(forall|p: int| i <= p < t.len() ==> t[p] == s[p + 1]);
        }
        lemma_remove_contains(s, i, e);
        lemma_remove_contains(s, i, x);
        assert(!t.contains(e));
        if x != e {
            if s.contains(x) {
                let j = choose|j: int| 0 <= j < s.len() && s[j] == x;
                assert(j != i && s[j] == x);
            }
        }
    }
}

/// An element of a filtered sequence is an element of the original.
pub proof fn lemma_filter_elem_of<T>(s: Seq<T>, pred: spec_fn(T) -> bool, i: int)
    requires
        0 <= i < s.filter(pred).len(),
    ensures
        s.contains(s.filter(pred)[i]),
    decreases s.len(),
{
    reveal_with_fuel(Seq::filter, 2);
    if s.len() > 0 {
        let f = s.filter(pred);
        let fd = s.drop_last().filter(pred);
        if pred(s.last()) && i == f.len() - 1 {
            assert(f[i] == s.last());
            assert(s[s.len() - 1] == s.last());
        } else {
            assert(f[i] == fd[i]);
            lemma_filter_elem_of(s.drop_last(), pred, i);
            let m = choose|m: int| 0 <= m < s.drop_last().len() && s.drop_last()[m] == fd[i];
            assert(s[m] == fd[i]);
        }
    }
}

} // verus!
