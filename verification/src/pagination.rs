use vstd::prelude::*;

verus! {

/// Ascending order by an integer sort key. The per-conversation message
/// logs keep their entries in this order, mirroring the backing store's
/// native sort on the (conversation, timestamp) key.
pub open spec fn sorted_by_key<T>(s: Seq<T>, key: spec_fn(T) -> i64) -> bool {
    forall|i: int, j: int| 0 <= i < j < s.len() ==> key(s[i]) <= key(s[j])
}

/// Strictly ascending order: no two entries share a sort key.
pub open spec fn strictly_sorted_by_key<T>(s: Seq<T>, key: spec_fn(T) -> i64) -> bool {
    forall|i: int, j: int| 0 <= i < j < s.len() ==> key(s[i]) < key(s[j])
}

/// Number of trailing entries dropped by an exclusive upper cursor: on a
/// sorted log, the entries with key strictly below `b` are exactly the
/// prefix of this length.
pub open spec fn cut_index<T>(s: Seq<T>, key: spec_fn(T) -> i64, b: i64) -> int
    decreases s.len(),
{
    if s.len() == 0 {
        0
    } else if key(s.last()) < b {
        s.len() as int
    } else {
        cut_index(s.drop_last(), key, b)
    }
}

/// The prefix of the log visible below the optional cursor.
pub open spec fn cut_of<T>(s: Seq<T>, key: spec_fn(T) -> i64, before: Option<i64>) -> int {
    match before {
        None => s.len() as int,
        Some(b) => cut_index(s, key, b),
    }
}

/// Page sizes are clamped to [1, 100].
pub open spec fn clamp_limit(l: int) -> int {
    if l < 1 {
        1
    } else if l > 100 {
        100
    } else {
        l
    }
}

/// Length of the page served for `limit` under `before`.
pub open spec fn page_len<T>(s: Seq<T>, key: spec_fn(T) -> i64, limit: int, before: Option<
    i64,
>) -> int {
    let cut = cut_of(s, key, before);
    if clamp_limit(limit) < cut {
        clamp_limit(limit)
    } else {
        cut
    }
}

/// The page itself: the newest `page_len` entries below the cursor, in
/// descending key order.
pub open spec fn page_seq<T>(s: Seq<T>, key: spec_fn(T) -> i64, limit: int, before: Option<
    i64,
>) -> Seq<T> {
    let cut = cut_of(s, key, before);
    Seq::new(page_len(s, key, limit, before) as nat, |j: int| s[cut - 1 - j])
}

/// Whether older entries remain below the served page.
pub open spec fn page_has_more<T>(s: Seq<T>, key: spec_fn(T) -> i64, limit: int, before: Option<
    i64,
>) -> bool {
    cut_of(s, key, before) > clamp_limit(limit)
}

/// The cursor handed back for the next call: the key of the oldest entry
/// of the served page, exclusive; absent on the last page.
pub open spec fn page_cursor<T>(s: Seq<T>, key: spec_fn(T) -> i64, limit: int, before: Option<
    i64,
>) -> Option<i64> {
    if page_has_more(s, key, limit, before) {
        Some(key(s[cut_of(s, key, before) - clamp_limit(limit)]))
    } else {
        None
    }
}

/// On a sorted log the cut is a boundary: strictly smaller keys before it,
/// keys at or above the cursor from it on.
pub proof fn lemma_cut_index<T>(s: Seq<T>, key: spec_fn(T) -> i64, b: i64)
    requires
        sorted_by_key(s, key),
    ensures
        0 <= cut_index(s, key, b) <= s.len(),
        forall|i: int| 0 <= i < cut_index(s, key, b) ==> key(#[trigger] s[i]) < b,
        forall|i: int| cut_index(s, key, b) <= i < s.len() ==> key(#[trigger] s[i]) >= b,
    decreases s.len(),
{
    if s.len() == 0 {
    } else if key(s.last()) < b {
        assert forall|i: int| 0 <= i < s.len() implies key(#[trigger] s[i]) < b by {
            if i < s.len() - 1 {
                assert(key(s[i]) <= key(s.last()));
            }
        }
    } else {
        let t = s.drop_last();
        assert(sorted_by_key(t, key)) by {
            assert(forall|i: int| 0 <= i < t.len() ==> t[i] == s[i]);
        }
        lemma_cut_index(t, key, b);
        assert(forall|i: int| 0 <= i < t.len() ==> t[i] == s[i]);
    }
}

/// The cut is insensitive to entries at or above the cursor: appending one
/// does not move it.
pub proof fn lemma_cut_append<T>(s: Seq<T>, key: spec_fn(T) -> i64, b: i64, m: T)
    requires
        key(m) >= b,
    ensures
        cut_index(s.push(m), key, b) == cut_index(s, key, b),
{
    let t = s.push(m);
    assert(t.last() == m);
    assert(t.drop_last() =~= s);
}

/// Pagination stability under concurrent insert: a page addressed by a
/// cursor is never changed by the later arrival of a message no older than
/// that cursor. Since the log is append-only and new messages carry newer
/// timestamps, a page once served is never retroactively invalidated.
pub proof fn lemma_page_stable_under_append<T>(
    s: Seq<T>,
    key: spec_fn(T) -> i64,
    m: T,
    limit: int,
    b: i64,
)
    requires
        sorted_by_key(s, key),
        key(m) >= b,
    ensures
        page_seq(s.push(m), key, limit, Some(b)) == page_seq(s, key, limit, Some(b)),
        page_has_more(s.push(m), key, limit, Some(b)) == page_has_more(s, key, limit, Some(b)),
        page_cursor(s.push(m), key, limit, Some(b)) == page_cursor(s, key, limit, Some(b)),
{
    lemma_cut_append(s, key, b, m);
    lemma_cut_index(s, key, b);
    let t = s.push(m);
    let cut = cut_index(s, key, b);
    assert(forall|i: int| 0 <= i < s.len() ==> t[i] == s[i]);
    assert(page_seq(t, key, limit, Some(b)) =~= page_seq(s, key, limit, Some(b)));
}

/// On a strictly sorted log, the cursor equal to the key of entry `p` cuts
/// exactly at `p`.
pub proof fn lemma_cut_at_index<T>(s: Seq<T>, key: spec_fn(T) -> i64, p: int)
    requires
        strictly_sorted_by_key(s, key),
        0 <= p < s.len(),
    ensures
        cut_index(s, key, key(s[p])) == p,
{
    assert(sorted_by_key(s, key));
    lemma_cut_index(s, key, key(s[p]));
    let c = cut_index(s, key, key(s[p]));
    if c < p {
        assert(key(s[c]) >= key(s[p]));
        assert(key(s[c]) < key(s[p]));
    }
    if c > p {
        assert(key(s[p]) < key(s[p]));
    }
}

/// Chaining pages makes progress and loses nothing: when a page says more
/// is left, the cursor it returns cuts the log exactly where the page
/// stopped, so the next page resumes with the very next older entry.
pub proof fn lemma_page_chain<T>(s: Seq<T>, key: spec_fn(T) -> i64, limit: int, before: Option<
    i64,
>)
    requires
        strictly_sorted_by_key(s, key),
        page_has_more(s, key, limit, before),
    ensures
        page_cursor(s, key, limit, before) matches Some(b2) && cut_of(s, key, Some(b2)) == cut_of(
            s,
            key,
            before,
        ) - clamp_limit(limit),
{
    assert(sorted_by_key(s, key));
    let cut = cut_of(s, key, before);
    let k = clamp_limit(limit);
    if before is Some {
        lemma_cut_index(s, key, before->0);
    }
    assert(0 <= cut - k < s.len());
    lemma_cut_at_index(s, key, cut - k);
}

} // verus!
