//! The listing pipeline: apply the hidden-name policy, classify and
//! style what is kept, and sort it into display order.

use vstd::prelude::*;

use crate::classify::{is_hidden_name, should_show_file};
use crate::entry::{DisplayEntry, EntryView, RawEntry, RawView, entry_of, make_entry, views_of};
use crate::order::{entries_sorted, sort_entries};

verus! {

/// Whether the policy keeps a name.
pub open spec fn keep_name(name: Seq<char>, show_hidden: bool) -> bool {
    show_hidden || !is_hidden_name(name)
}

/// The display-ready values of exactly those raw entries that the
/// policy keeps, in input order.
pub open spec fn kept_entries(raw: Seq<RawView>, show_hidden: bool, color: bool) -> Seq<
    EntryView,
> {
    raw.filter(|r: RawView| keep_name(r.name, show_hidden)).map_values(
        |r: RawView| entry_of(r, color),
    )
}

/// Builds the listing: keeps an entry iff the policy shows it,
/// classifies and styles what is kept, and sorts the result into the
/// display order.
pub fn list_entries(raw: Vec<RawEntry>, show_hidden: bool, color: bool) -> (out: Vec<
    DisplayEntry,
>)
    ensures
        views_of(out@).to_multiset() == kept_entries(
            raw@.map_values(|r: RawEntry| r@),
            show_hidden,
            color,
        ).to_multiset(),
        entries_sorted(out@),
        !show_hidden ==> forall|i: int| 0 <= i < out@.len() ==> !(#[trigger] out@[i])@.hidden,
{
    let ghost orig = raw@.map_values(|r: RawEntry| r@);
    let ghost pred = |r: RawView| keep_name(r.name, show_hidden);
    let mut rest = raw;
    let mut out: Vec<DisplayEntry> = Vec::new();
    let ghost mut done: int = 0;
    proof {
        reveal(Seq::filter);
        assert(orig.take(0) =~= Seq::<RawView>::empty());
        assert(views_of(out@) =~= kept_entries(orig.take(0), show_hidden, color));
    }
    while rest.len() > 0
        invariant
            pred == (|r: RawView| keep_name(r.name, show_hidden)),
            0 <= done <= orig.len(),
            rest@.map_values(|r: RawEntry| r@) == orig.skip(done),
            views_of(out@) == kept_entries(orig.take(done), show_hidden, color),
        decreases rest@.len(),
    {
        let ghost restv = rest@.map_values(|r: RawEntry| r@);
        let x = rest.remove(0);
        proof {
            assert(x@ == restv[0]);
            assert(restv.len() == orig.len() - done);
            assert(done < orig.len());
            assert(restv[0] == orig.skip(done)[0]);
            assert(orig.skip(done)[0] == orig[done]);
            assert(rest@.map_values(|r: RawEntry| r@) =~= restv.drop_first());
            assert(restv.drop_first() =~= orig.skip(done + 1));
        }
        let shown = should_show_file(x.name.as_str(), show_hidden);
        let ghost out_before = out@;
        if shown {
            let e = make_entry(x, color);
            out.push(e);
        }
        proof {
            reveal(Seq::filter);
            let taken = orig.take(done + 1);
            assert(taken.drop_last() =~= orig.take(done));
            assert(taken.last() == orig[done]);
            assert(taken.filter(pred) == if pred(orig[done]) {
                orig.take(done).filter(pred).push(orig[done])
            } else {
                orig.take(done).filter(pred)
            });
            assert(shown == keep_name(orig[done].name, show_hidden));
            assert(pred(orig[done]) == keep_name(orig[done].name, show_hidden));
            if shown {
                assert(views_of(out@) =~= views_of(out_before).push(entry_of(orig[done], color)));
                assert(taken.filter(pred).map_values(|r: RawView| entry_of(r, color)) =~= orig.take(
                    done,
                ).filter(pred).map_values(|r: RawView| entry_of(r, color)).push(
                    entry_of(orig[done], color),
                ));
            }
            done = done + 1;
        }
    }
    proof {
        assert(orig.take(done) =~= orig);
    }
    sort_entries(&mut out);
    proof {
        if !show_hidden {
            lemma_hidden_filtered(orig, color);
            let kept = kept_entries(orig, false, color);
            let ov = views_of(out@);
            ov.to_multiset_ensures();
            kept.to_multiset_ensures();
            assert forall|i: int| 0 <= i < out@.len() implies !(#[trigger] out@[i])@.hidden by {
                assert(ov[i] == out@[i]@);
                assert(ov.contains(ov[i]));
                assert(ov.to_multiset().count(ov[i]) > 0);
                assert(kept.to_multiset().count(ov[i]) > 0);
                assert(kept.contains(ov[i]));
                let j = choose|j: int| 0 <= j < kept.len() && kept[j] == ov[i];
                assert(!kept[j].hidden);
            }
        }
    }
    out
}

proof fn lemma_filter_keeps_all<A>(s: Seq<A>, pred: spec_fn(A) -> bool)
    requires
        forall|i: int| 0 <= i < s.len() ==> pred(#[trigger] s[i]),
    ensures
        s.filter(pred) == s,
    decreases s.len(),
{
    reveal(Seq::filter);
    if s.len() > 0 {
        lemma_filter_keeps_all(s.drop_last(), pred);
        assert(s.filter(pred) =~= s);
    } else {
        assert(s.filter(pred) =~= s);
    }
}

/// Law: with "show hidden" off, no entry whose name starts with the
/// hidden marker is in the listing.
pub proof fn lemma_hidden_filtered(raw: Seq<RawView>, color: bool)
    ensures
        forall|i: int|
            0 <= i < kept_entries(raw, false, color).len() ==> !(#[trigger] kept_entries(
                raw,
                false,
                color,
            )[i]).hidden,
{
    let pred = |r: RawView| keep_name(r.name, false);
    assert forall|i: int| 0 <= i < kept_entries(raw, false, color).len() implies !(
    #[trigger] kept_entries(raw, false, color)[i]).hidden by {
        raw.lemma_filter_pred(pred, i);
        assert(kept_entries(raw, false, color)[i] == entry_of(raw.filter(pred)[i], color));
    }
}

/// Law: with "show hidden" on, every entry is in the listing.
pub proof fn lemma_all_shown(raw: Seq<RawView>, color: bool)
    ensures
        kept_entries(raw, true, color) == raw.map_values(|r: RawView| entry_of(r, color)),
{
    let pred = |r: RawView| keep_name(r.name, true);
    lemma_filter_keeps_all(raw, pred);
}

} // verus!
