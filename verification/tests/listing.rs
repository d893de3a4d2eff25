use ls_rs::classify::MetaFacts;
use ls_rs::entry::{make_entry, RawEntry};
use ls_rs::listing::list_entries;
use ls_rs::style::{render_name, StyleTag};

fn raw(name: &str) -> RawEntry {
    RawEntry {
        name: name.to_string(),
        meta: Some(MetaFacts { is_symlink: false, is_dir: false, mode: 0o644 }),
    }
}

fn raw_all(names: &[&str]) -> Vec<RawEntry> {
    names.iter().map(|n| raw(n)).collect()
}

fn names_of(entries: &[ls_rs::entry::DisplayEntry]) -> Vec<String> {
    entries.iter().map(|e| e.raw_name.clone()).collect()
}

#[test]
fn hidden_entries_filtered_when_off() {
    let out = list_entries(raw_all(&[".config", "b", ".hidden", "a"]), false, false);
    assert_eq!(names_of(&out), vec!["a", "b"]);
}

#[test]
fn all_entries_shown_when_on() {
    let out = list_entries(raw_all(&[".config", "b", ".hidden", "a"]), true, false);
    assert_eq!(names_of(&out), vec!["a", "b", ".config", ".hidden"]);
}

#[test]
fn non_hidden_precede_hidden() {
    let out = list_entries(raw_all(&[".z", "a", ".a", "z"]), true, false);
    assert_eq!(names_of(&out), vec!["a", "z", ".a", ".z"]);
}

#[test]
fn names_sort_case_insensitively() {
    let out = list_entries(raw_all(&["Zebra", "apple", "Banana"]), false, false);
    assert_eq!(names_of(&out), vec!["apple", "Banana", "Zebra"]);
}

#[test]
fn case_fold_ties_break_on_raw_name() {
    let out = list_entries(raw_all(&["B", "a", "A"]), false, false);
    assert_eq!(names_of(&out), vec!["A", "a", "B"]);
}

#[test]
fn folding_actually_lowers() {
    // a case-sensitive comparison would put "B" before "a"
    let out = list_entries(raw_all(&["B", "a"]), false, false);
    assert_eq!(names_of(&out), vec!["a", "B"]);
}

#[test]
fn entries_keep_their_classification() {
    let mut raws = raw_all(&["doc.txt"]);
    raws.push(RawEntry {
        name: "pic.png".to_string(),
        meta: Some(MetaFacts { is_symlink: false, is_dir: false, mode: 0o644 }),
    });
    raws.push(RawEntry { name: "gone".to_string(), meta: None });
    let out = list_entries(raws, false, false);
    assert_eq!(out.len(), 3);
    assert_eq!(out[0].raw_name, "doc.txt");
    assert_eq!(out[0].style_tag, StyleTag::Regular);
    assert_eq!(out[1].raw_name, "gone");
    assert_eq!(out[1].style_tag, StyleTag::Unknown);
    assert_eq!(out[2].raw_name, "pic.png");
    assert_eq!(out[2].style_tag, StyleTag::Image);
}

#[test]
fn styling_off_keeps_names_bare() {
    let e = make_entry(raw("file.txt"), false);
    assert_eq!(e.rendered_name, "file.txt");
    assert_eq!(e.style_tag, StyleTag::Regular);
    assert!(!e.is_hidden);
}

#[test]
fn styling_wraps_in_color_sequences() {
    assert_eq!(render_name("x", StyleTag::Symlink, true), "\u{1b}[36mx\u{1b}[0m");
    assert_eq!(render_name("x", StyleTag::Directory, true), "\u{1b}[34mx\u{1b}[0m");
    assert_eq!(render_name("x", StyleTag::Executable, true), "\u{1b}[32mx\u{1b}[0m");
    assert_eq!(render_name("x", StyleTag::Image, true), "\u{1b}[33mx\u{1b}[0m");
    assert_eq!(render_name("x", StyleTag::Regular, true), "\u{1b}[37mx\u{1b}[0m");
    assert_eq!(render_name("x", StyleTag::Unknown, true), "\u{1b}[37mx\u{1b}[0m");
}

#[test]
fn styled_entry_records_hidden_flag() {
    let e = make_entry(
        RawEntry {
            name: ".git".to_string(),
            meta: Some(MetaFacts { is_symlink: false, is_dir: true, mode: 0o755 }),
        },
        true,
    );
    assert!(e.is_hidden);
    assert_eq!(e.style_tag, StyleTag::Directory);
    assert_eq!(e.rendered_name, "\u{1b}[34m.git\u{1b}[0m");
    assert_eq!(e.raw_name, ".git");
}

#[test]
fn duplicate_names_are_all_kept() {
    let out = list_entries(raw_all(&["a", "a", "b"]), false, false);
    assert_eq!(names_of(&out), vec!["a", "a", "b"]);
}

#[test]
fn empty_input_lists_nothing() {
    let out = list_entries(Vec::new(), true, true);
    assert!(out.is_empty());
}
