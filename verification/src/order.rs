//! The ordering policy: non-hidden entries first, then names compared
//! case-insensitively, ties broken by the exact name. A verified
//! insertion sort puts a listing into this order.

use vstd::prelude::*;
use vstd::seq_lib::to_multiset_insert;
use vstd::utf8::char_u32_cast;

use crate::entry::{DisplayEntry, EntryView, views_of};

verus! {

/// What `str::to_lowercase` returns for a given character sequence.
pub uninterp spec fn lower_of(s: Seq<char>) -> Seq<char>;

/// Relies on str::to_lowercase: the lowercase form depends on the
/// characters alone.
#[verifier::external_body]
fn lowercase(s: &str) -> (r: String)
    ensures
        r@ == lower_of(s@),
{
    s.to_lowercase()
}

/// Lexicographic order on character sequences, by code point, with a
/// proper prefix ordered before its extensions.
pub open spec fn lex_le(a: Seq<char>, b: Seq<char>) -> bool
    decreases a.len(),
{
    if a.len() == 0 {
        true
    } else if b.len() == 0 {
        false
    } else if a[0] == b[0] {
        lex_le(a.drop_first(), b.drop_first())
    } else {
        (a[0] as u32) < (b[0] as u32)
    }
}

pub proof fn lemma_lex_le_refl(a: Seq<char>)
    ensures
        lex_le(a, a),
    decreases a.len(),
{
    if a.len() > 0 {
        lemma_lex_le_refl(a.drop_first());
    }
}

pub proof fn lemma_lex_le_total(a: Seq<char>, b: Seq<char>)
    ensures
        lex_le(a, b) || lex_le(b, a),
    decreases a.len(),
{
    if a.len() > 0 && b.len() > 0 {
        if a[0] == b[0] {
            lemma_lex_le_total(a.drop_first(), b.drop_first());
        } else {
            assert((a[0] as u32) != (b[0] as u32)) by {
                if (a[0] as u32) == (b[0] as u32) {
                    char_u32_cast(a[0], a[0] as u32);
                    char_u32_cast(b[0], b[0] as u32);
                }
            }
        }
    }
}

pub proof fn lemma_lex_le_antisym(a: Seq<char>, b: Seq<char>)
    requires
        lex_le(a, b),
        lex_le(b, a),
    ensures
        a == b,
    decreases a.len(),
{
    if a.len() == 0 {
        assert(b.len() == 0);
        assert(a =~= b);
    } else {
        assert(b.len() > 0);
        if a[0] == b[0] {
            lemma_lex_le_antisym(a.drop_first(), b.drop_first());
            assert(a.drop_first().len() == b.drop_first().len());
            assert(a.len() == b.len());
            assert forall|k: int| 0 <= k < a.len() implies a[k] == b[k] by {
                if k > 0 {
                    assert(a[k] == a.drop_first()[k - 1]);
                    assert(b[k] == b.drop_first()[k - 1]);
                }
            }
            assert(a =~= b);
        }
    }
}

pub proof fn lemma_lex_le_trans(a: Seq<char>, b: Seq<char>, c: Seq<char>)
    requires
        lex_le(a, b),
        lex_le(b, c),
    ensures
        lex_le(a, c),
    decreases a.len(),
{
    if a.len() > 0 && b.len() > 0 && c.len() > 0 && a[0] == b[0] && b[0] == c[0] {
        lemma_lex_le_trans(a.drop_first(), b.drop_first(), c.drop_first());
    }
}

/// The two-level sort key: visibility first (non-hidden before
/// hidden), then the case-folded name, ties broken by the exact name.
pub open spec fn key_le(a: EntryView, b: EntryView) -> bool {
    if a.hidden != b.hidden {
        !a.hidden
    } else if lower_of(a.name) != lower_of(b.name) {
        lex_le(lower_of(a.name), lower_of(b.name))
    } else {
        lex_le(a.name, b.name)
    }
}

/// The key order is total: any two entries are comparable.
pub proof fn lemma_key_le_total(a: EntryView, b: EntryView)
    ensures
        key_le(a, b) || key_le(b, a),
{
    lemma_lex_le_total(lower_of(a.name), lower_of(b.name));
    lemma_lex_le_total(a.name, b.name);
}

/// The key order is transitive.
pub proof fn lemma_key_le_trans(a: EntryView, b: EntryView, c: EntryView)
    requires
        key_le(a, b),
        key_le(b, c),
    ensures
        key_le(a, c),
{
    if a.hidden == b.hidden && b.hidden == c.hidden {
        let la = lower_of(a.name);
        let lb = lower_of(b.name);
        let lc = lower_of(c.name);
        if la != lb && lb != lc {
            lemma_lex_le_trans(la, lb, lc);
            if la == lc {
                lemma_lex_le_antisym(la, lb);
            }
        } else if la == lb && lb == lc {
            lemma_lex_le_trans(a.name, b.name, c.name);
        }
    }
}

/// A listing is sorted when every pair of entries, in order, is in
/// the key order.
pub open spec fn entries_sorted(s: Seq<DisplayEntry>) -> bool {
    forall|m1: int, m2: int|
        0 <= m1 < m2 < s.len() ==> key_le(#[trigger] s[m1]@, #[trigger] s[m2]@)
}

proof fn lemma_lex_le_skip(a: Seq<char>, b: Seq<char>, i: int)
    requires
        0 <= i <= a.len(),
        i <= b.len(),
        forall|k: int| 0 <= k < i ==> a[k] == b[k],
    ensures
        lex_le(a, b) == lex_le(a.skip(i), b.skip(i)),
    decreases i,
{
    if i > 0 {
        lemma_lex_le_skip(a.drop_first(), b.drop_first(), i - 1);
        assert(a.drop_first().skip(i - 1) =~= a.skip(i));
        assert(b.drop_first().skip(i - 1) =~= b.skip(i));
    } else {
        assert(a.skip(0) =~= a);
        assert(b.skip(0) =~= b);
    }
}

/// Decides `lex_le` on the characters of two strings.
fn lex_le_str(a: &str, b: &str) -> (r: bool)
    ensures
        r == lex_le(a@, b@),
{
    let an = a.unicode_len();
    let bn = b.unicode_len();
    let mut i: usize = 0;
    while i < an && i < bn
        invariant
            an == a@.len(),
            bn == b@.len(),
            0 <= i <= an,
            i <= bn,
            forall|k: int| 0 <= k < i ==> a@[k] == b@[k],
        decreases an - i,
    {
        let ca = a.get_char(i);
        let cb = b.get_char(i);
        if ca != cb {
            proof {
                lemma_lex_le_skip(a@, b@, i as int);
                assert(a@.skip(i as int)[0] == ca);
                assert(b@.skip(i as int)[0] == cb);
            }
            return (ca as u32) < (cb as u32);
        }
        i += 1;
    }
    proof {
        lemma_lex_le_skip(a@, b@, i as int);
    }
    an <= bn
}

/// Decides the key order on two display entries.
pub fn entry_le(a: &DisplayEntry, b: &DisplayEntry) -> (r: bool)
    ensures
        r == key_le(a@, b@),
{
    if a.is_hidden != b.is_hidden {
        return !a.is_hidden;
    }
    let la = lowercase(a.raw_name.as_str());
    let lb = lowercase(b.raw_name.as_str());
    if !la.eq(&lb) {
        lex_le_str(la.as_str(), lb.as_str())
    } else {
        lex_le_str(a.raw_name.as_str(), b.raw_name.as_str())
    }
}

/// Sorts a listing into the key order; the result is a permutation of
/// the input.
pub fn sort_entries(entries: &mut Vec<DisplayEntry>)
    ensures
        entries_sorted(final(entries)@),
        final(entries)@.to_multiset() == old(entries)@.to_multiset(),
        views_of(final(entries)@).to_multiset() == views_of(old(entries)@).to_multiset(),
{
    broadcast use vstd::multiset::group_multiset_axioms;

    if entries.len() < 2 {
        return;
    }
    let ghost orig = entries@;
    let mut i: usize = 1;
    while i < entries.len()
        invariant
            1 <= i <= entries@.len(),
            entries@.len() == orig.len(),
            entries@.to_multiset() == orig.to_multiset(),
            views_of(entries@).to_multiset() == views_of(orig).to_multiset(),
            forall|m1: int, m2: int|
                0 <= m1 < m2 < i ==> key_le(#[trigger] entries@[m1]@, #[trigger] entries@[m2]@),
        decreases entries@.len() - i,
    {
        let ghost s = entries@;
        let mut j: usize = 0;
        loop
            invariant
                0 <= j <= i < s.len(),
                entries@ == s,
                forall|k: int| 0 <= k < j ==> key_le(s[k]@, s[i as int]@),
            ensures
                entries@ == s,
                0 <= j <= i,
                forall|k: int| 0 <= k < j ==> key_le(s[k]@, s[i as int]@),
                j < i ==> !key_le(s[j as int]@, s[i as int]@),
            decreases i - j,
        {
            if j >= i {
                break;
            }
            if !entry_le(&entries[j], &entries[i]) {
                break;
            }
            j += 1;
        }
        let e = entries.remove(i);
        entries.insert(j, e);
        proof {
            let t = entries@;
            assert(t == s.remove(i as int).insert(j as int, e));
            s.to_multiset_ensures();
            assert(s.contains(e)) by {
                assert(s[i as int] == e);
            }
            assert(s.to_multiset().count(e) > 0);
            assert(s.remove(i as int).to_multiset() =~= s.to_multiset().remove(e));
            s.remove_ensures(i as int);
            to_multiset_insert(s.remove(i as int), j as int, e);
            assert(t.to_multiset() =~= s.to_multiset());

            s.remove(i as int).insert_ensures(j as int, e);
            // where each element of the new sequence comes from
            assert(forall|m: int| 0 <= m < j ==> t[m] == s[m]);
            assert(t[j as int] == e);
            assert(forall|m: int| j < m <= i ==> t[m] == s[m - 1]);
            assert(forall|m: int| i < m < t.len() ==> t[m] == s[m]);

            // the same permutation, seen through the views
            let sv = views_of(s);
            let tv = views_of(t);
            sv.remove_ensures(i as int);
            sv.remove(i as int).insert_ensures(j as int, e@);
            assert(tv =~= sv.remove(i as int).insert(j as int, e@));
            sv.to_multiset_ensures();
            assert(sv.to_multiset().count(e@) > 0) by {
                assert(sv[i as int] == e@);
                assert(sv.contains(e@));
            }
            assert(sv.remove(i as int).to_multiset() =~= sv.to_multiset().remove(e@));
            to_multiset_insert(sv.remove(i as int), j as int, e@);
            assert(tv.to_multiset() =~= sv.to_multiset());

            if j < i {
                lemma_key_le_total(s[j as int]@, e@);
            }
            assert forall|m: int| j < m <= i implies key_le(e@, t[m]@) by {
                if m - 1 > j {
                    assert(key_le(s[j as int]@, s[m - 1]@));
                    lemma_key_le_trans(e@, s[j as int]@, s[m - 1]@);
                }
            }
            assert forall|m1: int, m2: int| 0 <= m1 < m2 <= i implies key_le(
                t[m1]@,
                t[m2]@,
            ) by {
                if m1 < j && m2 < j {
                    assert(key_le(s[m1]@, s[m2]@));
                } else if m1 < j && m2 == j {
                    assert(key_le(s[m1]@, e@));
                } else if m1 < j && m2 > j {
                    assert(key_le(s[m1]@, s[m2 - 1]@));
                } else if m1 == j {
                    assert(key_le(e@, t[m2]@));
                } else {
                    assert(key_le(s[m1 - 1]@, s[m2 - 1]@));
                }
            }
        }
        i += 1;
    }
}

/// Law: in a listing sorted by the key order, every non-hidden entry
/// precedes every hidden one, and within each visibility group the
/// case-folded names are non-decreasing.
pub proof fn lemma_ordering_totality(s: Seq<DisplayEntry>)
    requires
        entries_sorted(s),
    ensures
        forall|i: int, j: int|
            0 <= i < j < s.len() ==> !(s[i]@.hidden && !s[j]@.hidden),
        forall|i: int, j: int|
            0 <= i < j < s.len() && s[i]@.hidden == s[j]@.hidden ==> lex_le(
                lower_of(s[i]@.name),
                lower_of(s[j]@.name),
            ),
{
    assert forall|i: int, j: int|
        0 <= i < j < s.len() && s[i]@.hidden == s[j]@.hidden implies lex_le(
        lower_of(s[i]@.name),
        lower_of(s[j]@.name),
    ) by {
        assert(key_le(s[i]@, s[j]@));
        if lower_of(s[i]@.name) == lower_of(s[j]@.name) {
            lemma_lex_le_refl(lower_of(s[i]@.name));
        }
    }
    assert forall|i: int, j: int| 0 <= i < j < s.len() implies !(s[i]@.hidden
        && !s[j]@.hidden) by {
        assert(key_le(s[i]@, s[j]@));
    }
}

/// Two entries each at most the other in the key order agree on
/// visibility and name.
pub proof fn lemma_key_le_antisym(a: EntryView, b: EntryView)
    requires
        key_le(a, b),
        key_le(b, a),
    ensures
        a.hidden == b.hidden,
        a.name == b.name,
{
    if a.hidden == b.hidden {
        if lower_of(a.name) != lower_of(b.name) {
            lemma_lex_le_antisym(lower_of(a.name), lower_of(b.name));
        } else {
            lemma_lex_le_antisym(a.name, b.name);
        }
    }
}

/// Law: the display order is deterministic. Two sorted listings of
/// the same entries, with no name listed twice, are identical,
/// whatever order the entries first arrived in.
pub proof fn lemma_sorted_unique(v1: Seq<EntryView>, v2: Seq<EntryView>)
    requires
        forall|i: int, j: int| 0 <= i < j < v1.len() ==> key_le(#[trigger] v1[i], #[trigger] v1[j]),
        forall|i: int, j: int| 0 <= i < j < v2.len() ==> key_le(#[trigger] v2[i], #[trigger] v2[j]),
        v1.to_multiset() == v2.to_multiset(),
        forall|i: int, j: int|
            0 <= i < j < v1.len() ==> (#[trigger] v1[i]).name != (#[trigger] v1[j]).name,
    ensures
        v1 == v2,
    decreases v1.len(),
{
    v1.to_multiset_ensures();
    v2.to_multiset_ensures();
    assert(v1.len() == v2.len());
    if v1.len() == 0 {
        assert(v1 =~= v2);
    } else {
        // each listing holds the other's first entry
        assert(v1.contains(v1[0]));
        assert(v2.to_multiset().count(v1[0]) > 0);
        assert(v2.contains(v1[0]));
        let k = choose|k: int| 0 <= k < v2.len() && v2[k] == v1[0];
        assert(v2.contains(v2[0]));
        assert(v1.to_multiset().count(v2[0]) > 0);
        assert(v1.contains(v2[0]));
        let m = choose|m: int| 0 <= m < v1.len() && v1[m] == v2[0];
        // both first entries are least, so they are the same entry
        if k == 0 {
        } else if m == 0 {
        } else {
            assert(key_le(v2[0], v2[k]));
            assert(key_le(v1[0], v1[m]));
            lemma_key_le_antisym(v1[0], v2[0]);
            assert(v1[m].name == v1[0].name);
            assert(false);
        }
        assert(v1[0] == v2[0]);
        // drop the shared first entry and recurse
        let r1 = v1.drop_first();
        let r2 = v2.drop_first();
        assert(r1 =~= v1.remove(0));
        assert(r2 =~= v2.remove(0));
        assert(v1.remove(0).to_multiset() =~= v1.to_multiset().remove(v1[0]));
        assert(v2.remove(0).to_multiset() =~= v2.to_multiset().remove(v2[0]));
        assert(r1.to_multiset() == r2.to_multiset());
        assert forall|i: int, j: int| 0 <= i < j < r1.len() implies key_le(
            #[trigger] r1[i],
            #[trigger] r1[j],
        ) by {
            assert(r1[i] == v1[i + 1]);
            assert(r1[j] == v1[j + 1]);
        }
        assert forall|i: int, j: int| 0 <= i < j < r2.len() implies key_le(
            #[trigger] r2[i],
            #[trigger] r2[j],
        ) by {
            assert(r2[i] == v2[i + 1]);
            assert(r2[j] == v2[j + 1]);
        }
        assert forall|i: int, j: int| 0 <= i < j < r1.len() implies (#[trigger] r1[i]).name != (
        #[trigger] r1[j]).name by {
            assert(r1[i] == v1[i + 1]);
            assert(r1[j] == v1[j + 1]);
        }
        lemma_sorted_unique(r1, r2);
        assert forall|i: int| 0 <= i < v1.len() implies v1[i] == v2[i] by {
            if i > 0 {
                assert(v1[i] == r1[i - 1]);
                assert(v2[i] == r2[i - 1]);
            }
        }
        assert(v1 =~= v2);
    }
}

} // verus!
