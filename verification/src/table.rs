use vstd::prelude::*;

verus! {

/// Index of the first element of `s` satisfying `p`, or -1 if none does.
/// The store models below look rows up by key through this function.
pub open spec fn find_by<T>(s: Seq<T>, p: spec_fn(T) -> bool) -> int
    decreases s.len(),
{
    if s.len() == 0 {
        -1
    } else if p(s[0]) {
        0
    } else {
        let k = find_by(s.skip(1), p);
        if k == -1 {
            -1
        } else {
            k + 1
        }
    }
}

pub proof fn lemma_find_by<T>(s: Seq<T>, p: spec_fn(T) -> bool)
    ensures
        -1 <= find_by(s, p) < s.len(),
        find_by(s, p) >= 0 ==> p(s[find_by(s, p)]),
        find_by(s, p) >= 0 ==> forall|j: int| 0 <= j < find_by(s, p) ==> !p(s[j]),
        find_by(s, p) == -1 <==> (forall|j: int| 0 <= j < s.len() ==> !p(s[j])),
    decreases s.len(),
{
    if s.len() == 0 {
    } else if p(s[0]) {
    } else {
        lemma_find_by(s.skip(1), p);
        assert(forall|j: int| 0 <= j < s.skip(1).len() ==> s.skip(1)[j] == s[j + 1]);
        let k = find_by(s.skip(1), p);
        if k >= 0 {
            assert(p(s.skip(1)[k]));
            assert(s[k + 1] == s.skip(1)[k]);
            assert forall|j: int| 1 <= j < k + 1 implies !#[trigger] p(s[j]) by {
                assert(s[j] == s.skip(1)[j - 1]);
            }
        } else {
            assert forall|j: int| 0 <= j < s.len() implies !#[trigger] p(s[j]) by {
                if j > 0 {
                    assert(s[j] == s.skip(1)[j - 1]);
                    assert(!p(s.skip(1)[j - 1]));
                }
            }
        }
    }
}

/// The first match is determined: if `s[i]` satisfies `p` and nothing before
/// it does, then `find_by` lands on `i`.
pub proof fn lemma_find_by_first<T>(s: Seq<T>, p: spec_fn(T) -> bool, i: int)
    requires
        0 <= i < s.len(),
        p(s[i]),
        forall|j: int| 0 <= j < i ==> !p(s[j]),
    ensures
        find_by(s, p) == i,
    decreases s.len(),
{
    if i == 0 {
    } else {
        assert(!p(s[0]));
        assert(forall|j: int| 0 <= j < s.skip(1).len() ==> s.skip(1)[j] == s[j + 1]);
        lemma_find_by_first(s.skip(1), p, i - 1);
    }
}

pub proof fn lemma_find_by_none<T>(s: Seq<T>, p: spec_fn(T) -> bool)
    requires
        forall|j: int| 0 <= j < s.len() ==> !p(s[j]),
    ensures
        find_by(s, p) == -1,
{
    lemma_find_by(s, p);
    if find_by(s, p) >= 0 {
        assert(p(s[find_by(s, p)]));
    }
}

/// Rows keyed by `key` have pairwise distinct keys.
pub open spec fn unique_by<T, K>(s: Seq<T>, key: spec_fn(T) -> K) -> bool {
    forall|i: int, j: int| 0 <= i < j < s.len() ==> key(s[i]) != key(s[j])
}

/// Removing a row keeps the keys pairwise distinct.
pub proof fn lemma_unique_by_remove<T, K>(s: Seq<T>, key: spec_fn(T) -> K, k: int)
    requires
        unique_by(s, key),
        0 <= k < s.len(),
    ensures
        unique_by(s.remove(k), key),
{
    let t = s.remove(k);
    assert forall|i: int, j: int| 0 <= i < j < t.len() implies key(t[i]) != key(t[j]) by {
        let i0 = if i < k { i } else { i + 1 };
        let j0 = if j < k { j } else { j + 1 };
        assert(t[i] == s[i0]);
        assert(t[j] == s[j0]);
    }
}

/// Updating a row in place keeps the keys pairwise distinct, provided the
/// new row keeps the old row's key.
pub proof fn lemma_unique_by_update<T, K>(s: Seq<T>, key: spec_fn(T) -> K, k: int, v: T)
    requires
        unique_by(s, key),
        0 <= k < s.len(),
        key(v) == key(s[k]),
    ensures
        unique_by(s.update(k, v), key),
{
}

/// Appending a row with a fresh key keeps the keys pairwise distinct.
pub proof fn lemma_unique_by_push<T, K>(s: Seq<T>, key: spec_fn(T) -> K, v: T)
    requires
        unique_by(s, key),
        forall|i: int| 0 <= i < s.len() ==> key(s[i]) != key(v),
    ensures
        unique_by(s.push(v), key),
{
}

} // verus!
