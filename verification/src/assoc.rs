//! Association lists: the entries of the font cache's layers, kept in a
//! `Vec` with at most one entry per key, oldest (or least recently used)
//! first.

use vstd::prelude::*;

verus! {

/// Keys that can tell whether they are the same key.
pub trait CacheKey: View + Sized {
    /// Whether the two keys are the same key.
    fn same_key(&self, other: &Self) -> (r: bool)
        ensures
            r == (self@ == other@),
    ;
}

/// The entries with their keys taken by view.
pub open spec fn entry_views<K: View, V>(s: Seq<(K, V)>) -> Seq<(K::V, V)> {
    Seq::new(s.len(), |i: int| (s[i].0@, s[i].1))
}

/// Index of the last entry with key `k`, or -1.
pub open spec fn key_index<A, B>(s: Seq<(A, B)>, k: A) -> int
    decreases s.len(),
{
    if s.len() == 0 {
        -1
    } else if s.last().0 == k {
        s.len() - 1
    } else {
        key_index(s.drop_last(), k)
    }
}

/// The value stored under `k`, if any.
pub open spec fn lookup<A, B>(s: Seq<(A, B)>, k: A) -> Option<B> {
    let i = key_index(s, k);
    if i >= 0 {
        Some(s[i].1)
    } else {
        None
    }
}

/// No key occurs twice.
pub open spec fn distinct_keys<A, B>(s: Seq<(A, B)>) -> bool {
    forall|i: int, j: int| 0 <= i < j < s.len() ==> #[trigger] s[i].0 != #[trigger] s[j].0
}

/// `s` with the value under `k` replaced by `v` in place, or `(k, v)`
/// appended.
pub open spec fn upsert<A, B>(s: Seq<(A, B)>, k: A, v: B) -> Seq<(A, B)> {
    let i = key_index(s, k);
    if i >= 0 {
        s.update(i, (k, v))
    } else {
        s.push((k, v))
    }
}

/// The last `limit` entries: the older ones leave.
pub open spec fn keep_newest<A, B>(s: Seq<(A, B)>, limit: int) -> Seq<(A, B)> {
    if s.len() > limit {
        s.skip(s.len() - limit)
    } else {
        s
    }
}

/// `s` with the entry for `k` moved to the end (made the most recent).
pub open spec fn touch<A, B>(s: Seq<(A, B)>, k: A) -> Seq<(A, B)> {
    let i = key_index(s, k);
    if i >= 0 {
        s.remove(i).push(s[i])
    } else {
        s
    }
}

/// `s` without the entry for `k`.
pub open spec fn without<A, B>(s: Seq<(A, B)>, k: A) -> Seq<(A, B)> {
    let i = key_index(s, k);
    if i >= 0 {
        s.remove(i)
    } else {
        s
    }
}

/// `key_index` finds exactly the entries with key `k`.
pub proof fn lemma_key_index<A, B>(s: Seq<(A, B)>, k: A)
    ensures
        -1 <= key_index(s, k) < s.len(),
        key_index(s, k) >= 0 ==> s[key_index(s, k)].0 == k,
        key_index(s, k) < 0 ==> forall|i: int| 0 <= i < s.len() ==> #[trigger] s[i].0 != k,
        distinct_keys(s) ==> forall|i: int|
            0 <= i < s.len() && #[trigger] s[i].0 == k ==> key_index(s, k) == i,
    decreases s.len(),
{
    if s.len() > 0 {
        lemma_key_index(s.drop_last(), k);
        let t = s.drop_last();
        assert forall|i: int| 0 <= i < t.len() implies #[trigger] t[i] == s[i] by {}
        if key_index(s, k) < 0 {
            assert forall|i: int| 0 <= i < s.len() implies #[trigger] s[i].0 != k by {
                if i < t.len() {
                    assert(t[i].0 != k);
                }
            }
        }
        if distinct_keys(s) {
            assert(distinct_keys(t)) by {
                assert forall|i: int, j: int| 0 <= i < j < t.len() implies #[trigger] t[i].0
                    != #[trigger] t[j].0 by {
                    assert(s[i].0 != s[j].0);
                }
            }
            assert forall|i: int| 0 <= i < s.len() && #[trigger] s[i].0 == k implies key_index(
                s,
                k,
            ) == i by {
                if s.last().0 != k {
                    assert(i < t.len());
                    assert(t[i].0 == k);
                } else if i < s.len() - 1 {
                    assert(s[i].0 != s[s.len() - 1].0);
                }
            }
        }
    }
}

/// Upserting keeps keys distinct; afterwards `k` finds `v` and every other
/// key finds what it found before.
pub proof fn lemma_upsert<A, B>(s: Seq<(A, B)>, k: A, v: B)
    requires
        distinct_keys(s),
    ensures
        distinct_keys(upsert(s, k, v)),
        lookup(upsert(s, k, v), k) == Some(v),
        forall|k2: A| k2 != k ==> #[trigger] lookup(upsert(s, k, v), k2) == lookup(s, k2),
        upsert(s, k, v).len() == s.len() + (if lookup(s, k) is Some {
            0int
        } else {
            1int
        }),
        upsert(s, k, v).last() == (k, v) || lookup(s, k) is Some,
{
    let u = upsert(s, k, v);
    lemma_key_index(s, k);
    assert(distinct_keys(u)) by {
        assert forall|i: int, j: int| 0 <= i < j < u.len() implies #[trigger] u[i].0
            != #[trigger] u[j].0 by {
            if key_index(s, k) < 0 && j == s.len() {
                assert(s[i].0 != k);
            } else if key_index(s, k) >= 0 && i == key_index(s, k) {
                assert(s[i].0 != s[j].0);
            } else if key_index(s, k) >= 0 && j == key_index(s, k) {
                assert(s[i].0 != s[j].0);
            } else {
                assert(s[i].0 != s[j].0);
            }
        }
    }
    lemma_key_index(u, k);
    if key_index(s, k) >= 0 {
        assert(u[key_index(s, k)].0 == k);
    } else {
        assert(u[s.len() as int].0 == k);
    }
    assert forall|k2: A| k2 != k implies #[trigger] lookup(u, k2) == lookup(s, k2) by {
        lemma_key_index(s, k2);
        lemma_key_index(u, k2);
        if key_index(s, k2) >= 0 {
            let i = key_index(s, k2);
            assert(u[i] == s[i]);
        } else if key_index(u, k2) >= 0 {
            let i = key_index(u, k2);
            if i < s.len() {
                assert(u[i] == s[i]);
            }
        }
    }
}

/// Keeping the newest entries keeps keys distinct, holds at most `limit`
/// entries, and keeps the last entry when `limit` is positive.
pub proof fn lemma_keep_newest<A, B>(s: Seq<(A, B)>, limit: int)
    requires
        distinct_keys(s),
        limit >= 0,
    ensures
        distinct_keys(keep_newest(s, limit)),
        keep_newest(s, limit).len() <= limit || keep_newest(s, limit) == s,
        keep_newest(s, limit).len() == (if s.len() > limit {
            limit
        } else {
            s.len() as int
        }),
        limit > 0 && s.len() > 0 ==> keep_newest(s, limit).last() == s.last(),
        forall|k: A| #[trigger] lookup(keep_newest(s, limit), k) is Some ==> lookup(
            keep_newest(s, limit),
            k,
        ) == lookup(s, k),
{
    let t = keep_newest(s, limit);
    let d = s.len() - t.len();
    assert forall|i: int| 0 <= i < t.len() implies #[trigger] t[i] == s[i + d] by {}
    assert(distinct_keys(t)) by {
        assert forall|i: int, j: int| 0 <= i < j < t.len() implies #[trigger] t[i].0
            != #[trigger] t[j].0 by {
            assert(s[i + d].0 != s[j + d].0);
        }
    }
    assert forall|k: A| #[trigger] lookup(t, k) is Some implies lookup(t, k) == lookup(s, k) by {
        lemma_key_index(t, k);
        let i = key_index(t, k);
        assert(t[i] == s[i + d]);
        lemma_key_index(s, k);
    }
}

/// Moving the entry for `k` to the end keeps keys distinct and what every
/// key finds.
pub proof fn lemma_touch<A, B>(s: Seq<(A, B)>, k: A)
    requires
        distinct_keys(s),
    ensures
        distinct_keys(touch(s, k)),
        touch(s, k).len() == s.len(),
        forall|k2: A| #[trigger] lookup(touch(s, k), k2) == lookup(s, k2),
        lookup(s, k) is Some ==> touch(s, k).last() == (k, lookup(s, k)->0),
{
    lemma_key_index(s, k);
    let i = key_index(s, k);
    if i >= 0 {
        let r = s.remove(i);
        let t = r.push(s[i]);
        assert forall|j: int| 0 <= j < r.len() implies #[trigger] r[j] == (if j < i {
            s[j]
        } else {
            s[j + 1]
        }) by {}
        assert(distinct_keys(t)) by {
            assert forall|a: int, b: int| 0 <= a < b < t.len() implies #[trigger] t[a].0
                != #[trigger] t[b].0 by {
                let sa = if a < i {
                    a
                } else {
                    a + 1
                };
                let sb = if b == t.len() - 1 {
                    i
                } else if b < i {
                    b
                } else {
                    b + 1
                };
                assert(t[a] == s[sa]);
                assert(t[b] == s[sb]);
                assert(sa != sb);
                if sa < sb {
                    assert(s[sa].0 != s[sb].0);
                } else {
                    assert(s[sb].0 != s[sa].0);
                }
            }
        }
        assert forall|k2: A| #[trigger] lookup(t, k2) == lookup(s, k2) by {
            lemma_key_index(s, k2);
            lemma_key_index(t, k2);
            if key_index(s, k2) >= 0 {
                let j = key_index(s, k2);
                let tj = if j == i {
                    t.len() - 1
                } else if j < i {
                    j
                } else {
                    j - 1
                };
                assert(t[tj] == s[j]);
            } else if key_index(t, k2) >= 0 {
                let j = key_index(t, k2);
                if j == t.len() - 1 {
                    assert(t[j] == s[i]);
                } else if j < i {
                    assert(t[j] == s[j]);
                } else {
                    assert(t[j] == s[j + 1]);
                }
            }
        }
    }
}

/// Removing the entry for `k` keeps keys distinct; afterwards `k` finds
/// nothing and every other key what it found before.
pub proof fn lemma_without<A, B>(s: Seq<(A, B)>, k: A)
    requires
        distinct_keys(s),
    ensures
        distinct_keys(without(s, k)),
        lookup(without(s, k), k) is None,
        forall|k2: A| k2 != k ==> #[trigger] lookup(without(s, k), k2) == lookup(s, k2),
        without(s, k).len() == s.len() - (if lookup(s, k) is Some {
            1int
        } else {
            0int
        }),
{
    lemma_key_index(s, k);
    let i = key_index(s, k);
    if i >= 0 {
        let t = s.remove(i);
        assert forall|j: int| 0 <= j < t.len() implies #[trigger] t[j] == (if j < i {
            s[j]
        } else {
            s[j + 1]
        }) by {}
        assert(distinct_keys(t)) by {
            assert forall|a: int, b: int| 0 <= a < b < t.len() implies #[trigger] t[a].0
                != #[trigger] t[b].0 by {
                let sa = if a < i {
                    a
                } else {
                    a + 1
                };
                let sb = if b < i {
                    b
                } else {
                    b + 1
                };
                assert(t[a] == s[sa]);
                assert(t[b] == s[sb]);
                assert(s[sa].0 != s[sb].0);
            }
        }
        lemma_key_index(t, k);
        if key_index(t, k) >= 0 {
            let j = key_index(t, k);
            let sj = if j < i {
                j
            } else {
                j + 1
            };
            assert(t[j] == s[sj]);
            assert(s[sj].0 == k);
        }
        assert forall|k2: A| k2 != k implies #[trigger] lookup(t, k2) == lookup(s, k2) by {
            lemma_key_index(s, k2);
            lemma_key_index(t, k2);
            if key_index(s, k2) >= 0 {
                let j = key_index(s, k2);
                assert(j != i);
                let tj = if j < i {
                    j
                } else {
                    j - 1
                };
                assert(t[tj] == s[j]);
            } else if key_index(t, k2) >= 0 {
                let j = key_index(t, k2);
                if j < i {
                    assert(t[j] == s[j]);
                } else {
                    assert(t[j] == s[j + 1]);
                }
            }
        }
    }
}

/// The position of the entry with key `key`, if any.
pub fn find_key<K: CacheKey, V>(entries: &Vec<(K, V)>, key: &K) -> (r: Option<usize>)
    ensures
        match r {
            Some(i) => i as int == key_index(entry_views(entries@), key@) && i < entries@.len(),
            None => key_index(entry_views(entries@), key@) == -1,
        },
{
    let ghost s = entry_views(entries@);
    let mut i: usize = entries.len();
    assert(s.take(i as int) =~= s);
    while i > 0
        invariant
            i <= entries@.len(),
            s == entry_views(entries@),
            key_index(s, key@) == key_index(s.take(i as int), key@),
        decreases i,
    {
        let ghost t = s.take(i as int);
        assert(t.drop_last() =~= s.take(i - 1));
        if entries[i - 1].0.same_key(key) {
            proof {
                assert(t.last().0 == key@);
            }
            return Some(i - 1);
        }
        i = i - 1;
    }
    assert(s.take(0) =~= Seq::<(K::V, V)>::empty());
    None
}

/// Replace the value under the key in place, or append the entry.
pub fn upsert_entry<K: CacheKey, V>(entries: &mut Vec<(K, V)>, key: K, value: V)
    ensures
        entry_views(final(entries)@) == upsert(entry_views(old(entries)@), key@, value),
{
    let ghost s = entry_views(entries@);
    match find_key(entries, &key) {
        Some(i) => {
            let _old = entries.remove(i);
            entries.insert(i, (key, value));
            proof {
                assert(entry_views(entries@) =~= s.update(i as int, (key@, value)));
            }
        },
        None => {
            entries.push((key, value));
            proof {
                assert(entry_views(entries@) =~= s.push((key@, value)));
            }
        },
    }
}

/// Drop the oldest entries until at most `limit` remain.
pub fn keep_newest_entries<K: View, V>(entries: &mut Vec<(K, V)>, limit: usize)
    ensures
        entry_views(final(entries)@) == keep_newest(entry_views(old(entries)@), limit as int),
{
    let ghost s = entry_views(entries@);
    let ghost n = s.len();
    assert(s.skip(0) =~= s);
    while entries.len() > limit
        invariant
            n == s.len(),
            entries@.len() <= n,
            n > limit ==> entries@.len() >= limit,
            n <= limit ==> entries@.len() == n,
            entry_views(entries@) == s.skip(n - entries@.len()),
        decreases entries@.len(),
    {
        let ghost before = entries@;
        let _gone = entries.remove(0);
        proof {
            assert(entry_views(entries@) =~= entry_views(before).skip(1));
            assert(s.skip(n - before.len()).skip(1) =~= s.skip(n - before.len() + 1));
        }
    }
}

/// Move the entry at `i` to the end.
pub fn move_to_end<K: View, V>(entries: &mut Vec<(K, V)>, i: usize)
    requires
        i < old(entries)@.len(),
    ensures
        entry_views(final(entries)@) == entry_views(old(entries)@).remove(i as int).push(
            entry_views(old(entries)@)[i as int],
        ),
{
    let ghost s = entry_views(entries@);
    let e = entries.remove(i);
    entries.push(e);
    proof {
        assert(entry_views(entries@) =~= s.remove(i as int).push(s[i as int]));
    }
}

/// Remove the entry at `i`.
pub fn remove_entry<K: View, V>(entries: &mut Vec<(K, V)>, i: usize)
    requires
        i < old(entries)@.len(),
    ensures
        entry_views(final(entries)@) == entry_views(old(entries)@).remove(i as int),
{
    let ghost s = entry_views(entries@);
    let _gone = entries.remove(i);
    proof {
        assert(entry_views(entries@) =~= s.remove(i as int));
    }
}

} // verus!
