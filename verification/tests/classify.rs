use ls_rs::classify::{classify, name_is_image, should_show_file, MetaFacts};
use ls_rs::style::StyleTag;

fn meta(is_symlink: bool, is_dir: bool, mode: u32) -> Option<MetaFacts> {
    Some(MetaFacts { is_symlink, is_dir, mode })
}

#[test]
fn symlink_beats_directory() {
    let t = classify(&meta(true, true, 0o777), "link");
    assert_eq!(t, StyleTag::Symlink);
}

#[test]
fn directory_style() {
    let t = classify(&meta(false, true, 0o755), "sub");
    assert_eq!(t, StyleTag::Directory);
}

#[test]
fn exec_bit_beats_image_ext() {
    let t = classify(&meta(false, false, 0o755), "tool.png");
    assert_eq!(t, StyleTag::Executable);
}

#[test]
fn any_exec_bit_counts() {
    assert_eq!(classify(&meta(false, false, 0o100), "a"), StyleTag::Executable);
    assert_eq!(classify(&meta(false, false, 0o010), "a"), StyleTag::Executable);
    assert_eq!(classify(&meta(false, false, 0o001), "a"), StyleTag::Executable);
    assert_eq!(classify(&meta(false, false, 0o644), "a"), StyleTag::Regular);
}

#[test]
fn metadata_failure_is_unknown() {
    let t = classify(&None, "whatever");
    assert_eq!(t, StyleTag::Unknown);
}

#[test]
fn image_extensions() {
    for name in ["a.jpg", "a.jpeg", "a.png", "a.gif", "a.bmp", "a.svg"] {
        assert_eq!(classify(&meta(false, false, 0o644), name), StyleTag::Image);
    }
}

#[test]
fn regular_fallback() {
    assert_eq!(classify(&meta(false, false, 0o644), "notes.txt"), StyleTag::Regular);
    assert_eq!(classify(&meta(false, false, 0o644), "png"), StyleTag::Regular);
}

#[test]
fn extension_is_case_sensitive() {
    assert_eq!(classify(&meta(false, false, 0o644), "a.PNG"), StyleTag::Regular);
}

#[test]
fn leading_dot_is_not_an_extension() {
    assert!(!name_is_image(".png"));
    assert!(name_is_image(".a.png"));
    assert!(name_is_image("a..png"));
    assert!(name_is_image("archive.tar.png"));
    assert!(!name_is_image("archive.png.tar"));
    assert!(!name_is_image(""));
}

#[test]
fn hidden_names_follow_the_flag() {
    assert!(!should_show_file(".config", false));
    assert!(should_show_file(".config", true));
    assert!(should_show_file("visible", false));
    assert!(should_show_file("visible", true));
    assert!(should_show_file("", false));
}
