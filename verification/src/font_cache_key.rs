//! The key under which the platform renderers cache fonts: a hash of the
//! font data, the size in hundredths of a pixel, and the variation settings
//! as text, sorted by axis tag so that their order does not matter.

use vstd::prelude::*;
use crate::glyph_cache::{bytes_digest, bytes_digest_of};
use crate::text::{chars_of, decimal, decimal_string, digit_char};

verus! {

/// A font cache key.
#[derive(Debug, Clone, PartialEq, Eq, Hash)]
pub struct FontCacheKey {
    /// Hash of the font data.
    pub font_hash: u64,
    /// Size in hundredths of a pixel.
    pub size: u32,
    /// The variation settings, sorted by tag, as `tag=value` joined by commas.
    pub variations: String,
}

/// `a` comes strictly before `b` in lexicographic order of code points.
pub open spec fn tag_lt(a: Seq<char>, b: Seq<char>) -> bool
    decreases a.len(),
{
    if a.len() == 0 {
        b.len() > 0
    } else if b.len() == 0 {
        false
    } else if a[0] < b[0] {
        true
    } else if a[0] > b[0] {
        false
    } else {
        tag_lt(a.drop_first(), b.drop_first())
    }
}

/// `tag_lt` as code.
pub fn str_lt(a: &str, b: &str) -> (r: bool)
    ensures
        r == tag_lt(a@, b@),
{
    let ac = chars_of(a);
    let bc = chars_of(b);
    proof {
        assert(a@.skip(0) =~= a@);
        assert(b@.skip(0) =~= b@);
    }
    let mut i: usize = 0;
    while i < ac.len() && i < bc.len() && ac[i] == bc[i]
        invariant
            ac@ == a@,
            bc@ == b@,
            0 <= i <= ac@.len(),
            i <= bc@.len(),
            tag_lt(a@, b@) == tag_lt(a@.skip(i as int), b@.skip(i as int)),
        decreases ac@.len() - i,
    {
        proof {
            assert(a@.skip(i as int).drop_first() =~= a@.skip(i + 1));
            assert(b@.skip(i as int).drop_first() =~= b@.skip(i + 1));
        }
        i = i + 1;
    }
    proof {
        let sa = a@.skip(i as int);
        let sb = b@.skip(i as int);
        assert(sa.len() == a@.len() - i);
        assert(sb.len() == b@.len() - i);
        if i < ac.len() {
            assert(sa[0] == a@[i as int]);
        }
        if i < bc.len() {
            assert(sb[0] == b@[i as int]);
        }
        if i < ac.len() && i < bc.len() {
            assert(ac@[i as int] != bc@[i as int]);
            assert(tag_lt(a@, b@) == (sa[0] < sb[0]));
        }
    }
    if i == ac.len() {
        i < bc.len()
    } else if i == bc.len() {
        false
    } else {
        ac[i] < bc[i]
    }
}

/// A variation setting: axis tag and value in tenths.
pub type Setting = (Seq<char>, int);

/// `s` with `x` inserted before the first entry whose tag comes after `x`'s
/// (after entries with the same tag, so that equal tags keep their order).
pub open spec fn insert_by_tag(s: Seq<Setting>, x: Setting) -> Seq<Setting>
    decreases s.len(),
{
    if s.len() == 0 {
        seq![x]
    } else if tag_lt(x.0, s[0].0) {
        seq![x] + s
    } else {
        seq![s[0]] + insert_by_tag(s.drop_first(), x)
    }
}

/// The settings sorted by tag, stably.
pub open spec fn sort_by_tag(v: Seq<Setting>) -> Seq<Setting>
    decreases v.len(),
{
    if v.len() == 0 {
        Seq::empty()
    } else {
        insert_by_tag(sort_by_tag(v.drop_last()), v.last())
    }
}

/// A value in tenths with one decimal: sign, whole part, point, tenths.
pub open spec fn tenths_text(v: int) -> Seq<char> {
    let m = if v < 0 {
        -v
    } else {
        v
    };
    (if v < 0 {
        "-"@
    } else {
        Seq::empty()
    }) + decimal((m / 10) as nat) + "."@ + seq![digit_char(m % 10)]
}

/// `tag=value` for one setting.
pub open spec fn setting_text(x: Setting) -> Seq<char> {
    x.0 + "="@ + tenths_text(x.1)
}

/// The settings' texts joined by commas.
pub open spec fn joined(s: Seq<Setting>) -> Seq<char>
    decreases s.len(),
{
    if s.len() == 0 {
        Seq::empty()
    } else if s.len() == 1 {
        setting_text(s[0])
    } else {
        joined(s.drop_last()) + ","@ + setting_text(s.last())
    }
}

/// The settings as the key sees them: tag and value.
pub open spec fn settings_of(v: Seq<(String, i32)>) -> Seq<Setting> {
    Seq::new(v.len(), |i: int| (v[i].0@, v[i].1 as int))
}

/// Inserting at the first position whose tag comes after `x`.
pub proof fn lemma_insert_at(s: Seq<Setting>, x: Setting, p: int)
    requires
        0 <= p <= s.len(),
        forall|j: int| 0 <= j < p ==> !tag_lt(x.0, #[trigger] s[j].0),
        p < s.len() ==> tag_lt(x.0, s[p].0),
    ensures
        insert_by_tag(s, x) == s.take(p) + seq![x] + s.skip(p),
    decreases s.len(),
{
    if s.len() == 0 {
        assert(s.take(p) + seq![x] + s.skip(p) =~= seq![x]);
    } else if p == 0 {
        assert(s.take(p) + seq![x] + s.skip(p) =~= seq![x] + s);
    } else {
        let t = s.drop_first();
        assert forall|j: int| 0 <= j < p - 1 implies !tag_lt(x.0, #[trigger] t[j].0) by {
            assert(t[j] == s[j + 1]);
        }
        lemma_insert_at(t, x, p - 1);
        assert(s.take(p) + seq![x] + s.skip(p) =~= seq![s[0]] + (t.take(p - 1) + seq![x] + t.skip(
            p - 1,
        )));
    }
}

/// The text of a value in tenths.
fn tenths_string(v: i32) -> (r: String)
    ensures
        r@ == tenths_text(v as int),
{
    let m: u64 = if v < 0 {
        (-(v as i64)) as u64
    } else {
        v as u64
    };
    let digits = "0123456789";
    proof {
        reveal_strlit("0123456789");
        reveal_strlit("-");
    }
    let d = (m % 10) as usize;
    let last = digits.substring_char(d, d + 1);
    assert(last@ =~= seq![digit_char(d as int)]);
    let sign = if v < 0 {
        String::from_str("-")
    } else {
        String::new()
    };
    sign.concat(decimal_string(m / 10).as_str()).concat(".").concat(last)
}

impl FontCacheKey {
    /// The key of the font whose bytes are `font_data`, at `size` hundredths
    /// of a pixel, with variation settings given as axis tags and values in
    /// tenths.  The settings are sorted by tag (stably) and written as
    /// `tag=value` with one decimal, joined by commas; the font enters the
    /// key as the digest of its bytes.
    pub fn new(font_data: &[u8], size: u32, variations: &[(String, i32)]) -> (r: FontCacheKey)
        ensures
            r.font_hash == bytes_digest(font_data@),
            r.size == size,
            r.variations@ == joined(sort_by_tag(settings_of(variations@))),
    {
        let font_hash = bytes_digest_of(font_data);

        let ghost all = settings_of(variations@);
        // Insertion sort of the positions by tag.
        let mut order: Vec<usize> = Vec::new();
        let n = variations.len();
        let mut k: usize = 0;
        while k < n
            invariant
                n == variations@.len(),
                all == settings_of(variations@),
                0 <= k <= n,
                order@.len() == k,
                forall|j: int| 0 <= j < k ==> (#[trigger] order@[j]) < n,
                Seq::new(k as nat, |j: int| all[order@[j] as int]) == sort_by_tag(all.take(k as int)),
            decreases n - k,
        {
            let ghost sorted = Seq::new(k as nat, |j: int| all[order@[j] as int]);
            let x = &variations[k];
            let mut p: usize = 0;
            while p < k && !str_lt(x.0.as_str(), variations[order[p]].0.as_str())
                invariant
                    n == variations@.len(),
                    all == settings_of(variations@),
                    k < n,
                    order@.len() == k,
                    forall|j: int| 0 <= j < k ==> (#[trigger] order@[j]) < n,
                    sorted == Seq::new(k as nat, |j: int| all[order@[j] as int]),
                    x == variations@[k as int],
                    0 <= p <= k,
                    forall|j: int| 0 <= j < p ==> !tag_lt(all[k as int].0, #[trigger] sorted[j].0),
                decreases k - p,
            {
                p = p + 1;
            }
            proof {
                assert(all.take(k + 1).drop_last() =~= all.take(k as int));
                assert(all.take(k + 1).last() == all[k as int]);
                lemma_insert_at(sorted, all[k as int], p as int);
            }
            order.insert(p, k);
            proof {
                assert(Seq::new((k + 1) as nat, |j: int| all[order@[j] as int]) =~= sorted.take(
                    p as int,
                ) + seq![all[k as int]] + sorted.skip(p as int));
            }
            k = k + 1;
        }
        proof {
            assert(all.take(n as int) =~= all);
        }
        let ghost sorted = Seq::new(n as nat, |j: int| all[order@[j] as int]);
        // The settings' texts, joined by commas.
        let mut text = String::new();
        let mut i: usize = 0;
        while i < n
            invariant
                n == variations@.len(),
                all == settings_of(variations@),
                order@.len() == n,
                forall|j: int| 0 <= j < n ==> (#[trigger] order@[j]) < n,
                sorted == Seq::new(n as nat, |j: int| all[order@[j] as int]),
                0 <= i <= n,
                text@ == joined(sorted.take(i as int)),
            decreases n - i,
        {
            let e = &variations[order[i]];
            let ghost before = text@;
            if i > 0 {
                text = text.concat(",");
            }
            text = text.concat(e.0.as_str()).concat("=").concat(tenths_string(e.1).as_str());
            proof {
                reveal_strlit(",");
                assert(sorted.take(i + 1).drop_last() =~= sorted.take(i as int));
                assert(sorted.take(i + 1).last() == sorted[i as int]);
                if i == 0 {
                    assert(text@ =~= setting_text(sorted[0]));
                } else {
                    assert(text@ =~= before + ","@ + setting_text(sorted[i as int]));
                }
            }
            i = i + 1;
        }
        proof {
            assert(sorted.take(n as int) =~= sorted);
        }
        FontCacheKey { font_hash, size, variations: text }
    }
}

/// `tag_lt` is irreflexive.
pub proof fn lemma_tag_lt_irreflexive(a: Seq<char>)
    ensures
        !tag_lt(a, a),
    decreases a.len(),
{
    if a.len() > 0 {
        lemma_tag_lt_irreflexive(a.drop_first());
    }
}

/// `tag_lt` is asymmetric.
pub proof fn lemma_tag_lt_asymmetric(a: Seq<char>, b: Seq<char>)
    ensures
        tag_lt(a, b) ==> !tag_lt(b, a),
    decreases a.len(),
{
    if a.len() > 0 && b.len() > 0 && a[0] == b[0] {
        lemma_tag_lt_asymmetric(a.drop_first(), b.drop_first());
    }
}

/// Distinct tags are ordered one way or the other.
pub proof fn lemma_tag_lt_total(a: Seq<char>, b: Seq<char>)
    ensures
        a != b ==> tag_lt(a, b) || tag_lt(b, a),
    decreases a.len(),
{
    if a.len() > 0 && b.len() > 0 && a[0] == b[0] {
        lemma_tag_lt_total(a.drop_first(), b.drop_first());
        if a.drop_first() == b.drop_first() {
            assert(a =~= seq![a[0]] + a.drop_first());
            assert(b =~= seq![b[0]] + b.drop_first());
        }
    } else if a.len() == 0 && b.len() == 0 {
        assert(a =~= b);
    }
}

/// `tag_lt` is transitive.
pub proof fn lemma_tag_lt_transitive(a: Seq<char>, b: Seq<char>, c: Seq<char>)
    ensures
        tag_lt(a, b) && tag_lt(b, c) ==> tag_lt(a, c),
    decreases a.len(),
{
    if a.len() > 0 && b.len() > 0 && c.len() > 0 && a[0] == b[0] && b[0] == c[0] {
        lemma_tag_lt_transitive(a.drop_first(), b.drop_first(), c.drop_first());
    }
}

/// Strictly increasing tags.
pub open spec fn strictly_sorted(s: Seq<Setting>) -> bool {
    forall|i: int, j: int| 0 <= i < j < s.len() ==> tag_lt(#[trigger] s[i].0, #[trigger] s[j].0)
}

/// No two settings share a tag.
pub open spec fn distinct_tags(v: Seq<Setting>) -> bool {
    forall|i: int, j: int| 0 <= i < v.len() && 0 <= j < v.len() && i != j ==> #[trigger] v[i].0 != #[trigger] v[j].0
}

proof fn lemma_insert_multiset(s: Seq<Setting>, x: Setting)
    ensures
        insert_by_tag(s, x).to_multiset() =~= s.to_multiset().insert(x),
    decreases s.len(),
{
    broadcast use vstd::seq_lib::lemma_multiset_commutative;
    broadcast use vstd::multiset::group_multiset_axioms;
    broadcast use vstd::seq_lib::group_to_multiset_ensures;

    let e = Seq::<Setting>::empty();
    assert(e.to_multiset() =~= vstd::multiset::Multiset::empty()) by {
        assert(e.to_multiset().len() == 0);
    }
    assert(seq![x] =~= e.push(x));
    vstd::seq_lib::to_multiset_build(e, x);
    if s.len() == 0 {
        assert(insert_by_tag(s, x) == seq![x]);
        assert(s.to_multiset() =~= vstd::multiset::Multiset::empty()) by {
            assert(s.to_multiset().len() == 0);
        }
    } else {
        let t = s.drop_first();
        assert(s =~= seq![s[0]] + t);
        assert(seq![s[0]] =~= e.push(s[0]));
        vstd::seq_lib::to_multiset_build(e, s[0]);
        vstd::seq_lib::lemma_multiset_commutative(seq![s[0]], t);
        if tag_lt(x.0, s[0].0) {
            assert(insert_by_tag(s, x) == seq![x] + s);
            vstd::seq_lib::lemma_multiset_commutative(seq![x], s);
        } else {
            lemma_insert_multiset(t, x);
            assert(insert_by_tag(s, x) == seq![s[0]] + insert_by_tag(t, x));
            vstd::seq_lib::lemma_multiset_commutative(seq![s[0]], insert_by_tag(t, x));
        }
    }
}

/// Every tag of `insert_by_tag(s, x)` comes after `t` when those of `s` and
/// `x` do.
proof fn lemma_insert_above(s: Seq<Setting>, x: Setting, t: Seq<char>)
    requires
        forall|i: int| 0 <= i < s.len() ==> tag_lt(t, #[trigger] s[i].0),
        tag_lt(t, x.0),
    ensures
        forall|k: int| 0 <= k < insert_by_tag(s, x).len() ==> tag_lt(t, #[trigger] insert_by_tag(s, x)[k].0),
        insert_by_tag(s, x).len() == s.len() + 1,
    decreases s.len(),
{
    if s.len() > 0 && !tag_lt(x.0, s[0].0) {
        let u = s.drop_first();
        assert forall|i: int| 0 <= i < u.len() implies tag_lt(t, #[trigger] u[i].0) by {
            assert(u[i] == s[i + 1]);
        }
        lemma_insert_above(u, x, t);
        let r = insert_by_tag(s, x);
        assert forall|k: int| 0 <= k < r.len() implies tag_lt(t, #[trigger] r[k].0) by {
            if k > 0 {
                assert(r[k] == insert_by_tag(u, x)[k - 1]);
            }
        }
    }
}

/// Inserting a setting whose tag is new into strictly sorted settings keeps
/// them strictly sorted.
proof fn lemma_insert_sorted(s: Seq<Setting>, x: Setting)
    requires
        strictly_sorted(s),
        forall|i: int| 0 <= i < s.len() ==> (#[trigger] s[i]).0 != x.0,
    ensures
        strictly_sorted(insert_by_tag(s, x)),
    decreases s.len(),
{
    if s.len() == 0 {
    } else if tag_lt(x.0, s[0].0) {
        let r = insert_by_tag(s, x);
        assert forall|i: int, j: int| 0 <= i < j < r.len() implies tag_lt(#[trigger] r[i].0, #[trigger] r[j].0) by {
            if i == 0 {
                if j > 1 {
                    lemma_tag_lt_transitive(x.0, s[0].0, s[j - 1].0);
                }
            }
        }
    } else {
        let u = s.drop_first();
        lemma_tag_lt_total(x.0, s[0].0);
        assert(tag_lt(s[0].0, x.0));
        assert forall|i: int| 0 <= i < u.len() implies (#[trigger] u[i]).0 != x.0 by {
            assert(u[i] == s[i + 1]);
        }
        lemma_insert_sorted(u, x);
        assert forall|i: int| 0 <= i < u.len() implies tag_lt(s[0].0, #[trigger] u[i].0) by {
            assert(u[i] == s[i + 1]);
        }
        lemma_insert_above(u, x, s[0].0);
        let r = insert_by_tag(s, x);
        let ru = insert_by_tag(u, x);
        assert forall|i: int, j: int| 0 <= i < j < r.len() implies tag_lt(#[trigger] r[i].0, #[trigger] r[j].0) by {
            if i == 0 {
                assert(r[j] == ru[j - 1]);
            } else {
                assert(r[i] == ru[i - 1]);
                assert(r[j] == ru[j - 1]);
            }
        }
    }
}

/// Sorting keeps the settings, and sorts settings with distinct tags
/// strictly.
proof fn lemma_sort_facts(v: Seq<Setting>)
    ensures
        sort_by_tag(v).to_multiset() =~= v.to_multiset(),
        distinct_tags(v) ==> strictly_sorted(sort_by_tag(v)),
    decreases v.len(),
{
    broadcast use vstd::seq_lib::group_to_multiset_ensures;

    if v.len() > 0 {
        let d = v.drop_last();
        let x = v.last();
        lemma_sort_facts(d);
        lemma_insert_multiset(sort_by_tag(d), x);
        assert(v =~= d.push(x));
        if distinct_tags(v) {
            let sd = sort_by_tag(d);
            assert(distinct_tags(d)) by {
                assert forall|i: int, j: int| 0 <= i < d.len() && 0 <= j < d.len() && i != j implies #[trigger] d[i].0 != #[trigger] d[j].0 by {
                    assert(d[i] == v[i] && d[j] == v[j]);
                }
            }
            assert forall|i: int| 0 <= i < sd.len() implies (#[trigger] sd[i]).0 != x.0 by {
                assert(sd.to_multiset().count(sd[i]) > 0);
                assert(d.contains(sd[i]));
                let k = choose|k: int| 0 <= k < d.len() && d[k] == sd[i];
                assert(v[k] == d[k] && v[v.len() - 1] == x);
            }
            lemma_insert_sorted(sd, x);
        }
    }
}

/// Strictly sorted settings are determined by what they hold.
proof fn lemma_sorted_unique(s1: Seq<Setting>, s2: Seq<Setting>)
    requires
        strictly_sorted(s1),
        strictly_sorted(s2),
        s1.to_multiset() == s2.to_multiset(),
    ensures
        s1 == s2,
    decreases s1.len(),
{
    broadcast use vstd::seq_lib::group_to_multiset_ensures;

    if s1.len() == 0 {
        s1.to_multiset_ensures();
        s2.to_multiset_ensures();
        assert(s1 =~= s2);
    } else {
        s1.to_multiset_ensures();
        s2.to_multiset_ensures();
        assert(s2.len() == s1.len());
        assert(s1.to_multiset().count(s1[0]) > 0);
        assert(s2.contains(s1[0]));
        let j = choose|j: int| 0 <= j < s2.len() && s2[j] == s1[0];
        assert(s2.to_multiset().count(s2[0]) > 0);
        assert(s1.contains(s2[0]));
        let i = choose|i: int| 0 <= i < s1.len() && s1[i] == s2[0];
        if i > 0 && j > 0 {
            assert(tag_lt(s1[0].0, s1[i].0));
            assert(tag_lt(s2[0].0, s2[j].0));
            lemma_tag_lt_asymmetric(s1[0].0, s2[0].0);
        }
        assert(s1[0] == s2[0]);
        let t1 = s1.drop_first();
        let t2 = s2.drop_first();
        assert(s1.remove(0) =~= t1);
        assert(s2.remove(0) =~= t2);
        assert(t1.to_multiset() =~= t2.to_multiset());
        assert(strictly_sorted(t1)) by {
            assert forall|a: int, b: int| 0 <= a < b < t1.len() implies tag_lt(#[trigger] t1[a].0, #[trigger] t1[b].0) by {
                assert(t1[a] == s1[a + 1] && t1[b] == s1[b + 1]);
            }
        }
        assert(strictly_sorted(t2)) by {
            assert forall|a: int, b: int| 0 <= a < b < t2.len() implies tag_lt(#[trigger] t2[a].0, #[trigger] t2[b].0) by {
                assert(t2[a] == s2[a + 1] && t2[b] == s2[b + 1]);
            }
        }
        lemma_sorted_unique(t1, t2);
        assert(s1 =~= seq![s1[0]] + t1);
        assert(s2 =~= seq![s2[0]] + t2);
    }
}

/// Variation settings with distinct tags sort the same in any order: two
/// lists holding the same settings give the same sorted list, so font cache
/// keys do not depend on the order in which variations are given.
pub proof fn lemma_sort_order_independent(v1: Seq<Setting>, v2: Seq<Setting>)
    requires
        v1.to_multiset() == v2.to_multiset(),
        distinct_tags(v1),
        distinct_tags(v2),
    ensures
        sort_by_tag(v1) == sort_by_tag(v2),
{
    lemma_sort_facts(v1);
    lemma_sort_facts(v2);
    lemma_sorted_unique(sort_by_tag(v1), sort_by_tag(v2));
}

} // verus!
