//! The data model: a raw directory entry as handed in by the caller,
//! and the display-ready record that classification turns it into.

use vstd::prelude::*;

use crate::classify::{MetaFacts, classify, is_hidden_name, name_is_hidden, tag_of};
use crate::style::{StyleTag, render_name, rendered_spec};

verus! {

/// The spec-level value of a raw entry.
#[verifier::ext_equal]
pub struct RawView {
    pub name: Seq<char>,
    pub meta: Option<MetaFacts>,
}

/// One raw directory entry: its name, and its link-aware metadata
/// facts, or `None` when the metadata read failed (such an entry is
/// kept and degrades to the `Unknown` style).
pub struct RawEntry {
    pub name: String,
    pub meta: Option<MetaFacts>,
}

impl View for RawEntry {
    type V = RawView;

    open spec fn view(&self) -> RawView {
        RawView { name: self.name@, meta: self.meta }
    }
}

/// The spec-level value of a display-ready entry.
#[verifier::ext_equal]
pub struct EntryView {
    pub name: Seq<char>,
    pub rendered: Seq<char>,
    pub hidden: bool,
    pub tag: StyleTag,
}

/// One entry, fully resolved for rendering: the exact name (used for
/// width measurement and ordering), its displayed form, its
/// visibility, and the style chosen by classification.
#[derive(Debug)]
pub struct DisplayEntry {
    pub raw_name: String,
    pub rendered_name: String,
    pub is_hidden: bool,
    pub style_tag: StyleTag,
}

impl View for DisplayEntry {
    type V = EntryView;

    open spec fn view(&self) -> EntryView {
        EntryView {
            name: self.raw_name@,
            rendered: self.rendered_name@,
            hidden: self.is_hidden,
            tag: self.style_tag,
        }
    }
}

/// The display-ready value that classification gives a raw entry: the
/// name kept as it is, the hidden flag read off its first character,
/// the style tag from the metadata facts, and the displayed form from
/// the tag and the styling flag.
pub open spec fn entry_of(r: RawView, color: bool) -> EntryView {
    EntryView {
        name: r.name,
        rendered: rendered_spec(tag_of(r.meta, r.name), r.name, color),
        hidden: is_hidden_name(r.name),
        tag: tag_of(r.meta, r.name),
    }
}

/// The spec-level values of a listing.
pub open spec fn views_of(s: Seq<DisplayEntry>) -> Seq<EntryView> {
    s.map_values(|e: DisplayEntry| e@)
}

/// Classifies one raw entry and builds its display-ready record.
pub fn make_entry(raw: RawEntry, color: bool) -> (e: DisplayEntry)
    ensures
        e@ == entry_of(raw@, color),
{
    let tag = classify(&raw.meta, raw.name.as_str());
    let rendered = render_name(raw.name.as_str(), tag, color);
    let hidden = name_is_hidden(raw.name.as_str());
    let e = DisplayEntry {
        raw_name: raw.name,
        rendered_name: rendered,
        is_hidden: hidden,
        style_tag: tag,
    };
    proof {
        assert(e@ =~= entry_of(raw@, color));
    }
    e
}

} // verus!
