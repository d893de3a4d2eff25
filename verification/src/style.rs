//! Display styles for directory entries and the construction of the
//! styled form of a name, one ANSI color per style.

use vstd::prelude::*;

verus! {

/// How an entry is displayed, decided once by classification.
#[derive(Clone, Copy, Debug, PartialEq, Eq, Structural)]
pub enum StyleTag {
    Symlink,
    Directory,
    Executable,
    Image,
    Regular,
    Unknown,
}

/// The color escape sequence that opens a name styled with the given
/// tag. `Regular` and `Unknown` both use the default (white) color.
pub open spec fn style_prefix(tag: StyleTag) -> Seq<char> {
    match tag {
        StyleTag::Symlink => "\u{1b}[36m"@,
        StyleTag::Directory => "\u{1b}[34m"@,
        StyleTag::Executable => "\u{1b}[32m"@,
        StyleTag::Image => "\u{1b}[33m"@,
        StyleTag::Regular => "\u{1b}[37m"@,
        StyleTag::Unknown => "\u{1b}[37m"@,
    }
}

/// The escape sequence that closes every styled name.
pub open spec fn style_reset() -> Seq<char> {
    "\u{1b}[0m"@
}

/// What the displayed form of a name is: the name itself when styling
/// is off, otherwise the name wrapped in its tag's color sequences.
pub open spec fn rendered_spec(tag: StyleTag, name: Seq<char>, color: bool) -> Seq<char> {
    if color {
        style_prefix(tag) + name + style_reset()
    } else {
        name
    }
}

/// Relies on ansi_term::Colour::Cyan.paint and ANSIString's Display:
/// the result is "\x1B[36m", then the text, then the reset "\x1B[0m".
#[verifier::external_body]
fn paint_cyan(name: &str) -> (r: String)
    ensures
        r@ == "\u{1b}[36m"@ + name@ + style_reset(),
{
    ansi_term::Colour::Cyan.paint(name).to_string()
}

/// Relies on ansi_term::Colour::Blue.paint and ANSIString's Display:
/// the result is "\x1B[34m", then the text, then the reset "\x1B[0m".
#[verifier::external_body]
fn paint_blue(name: &str) -> (r: String)
    ensures
        r@ == "\u{1b}[34m"@ + name@ + style_reset(),
{
    ansi_term::Colour::Blue.paint(name).to_string()
}

/// Relies on ansi_term::Colour::Green.paint and ANSIString's Display:
/// the result is "\x1B[32m", then the text, then the reset "\x1B[0m".
#[verifier::external_body]
fn paint_green(name: &str) -> (r: String)
    ensures
        r@ == "\u{1b}[32m"@ + name@ + style_reset(),
{
    ansi_term::Colour::Green.paint(name).to_string()
}

/// Relies on ansi_term::Colour::Yellow.paint and ANSIString's Display:
/// the result is "\x1B[33m", then the text, then the reset "\x1B[0m".
#[verifier::external_body]
fn paint_yellow(name: &str) -> (r: String)
    ensures
        r@ == "\u{1b}[33m"@ + name@ + style_reset(),
{
    ansi_term::Colour::Yellow.paint(name).to_string()
}

/// Relies on ansi_term::Colour::White.paint and ANSIString's Display:
/// the result is "\x1B[37m", then the text, then the reset "\x1B[0m".
#[verifier::external_body]
fn paint_white(name: &str) -> (r: String)
    ensures
        r@ == "\u{1b}[37m"@ + name@ + style_reset(),
{
    ansi_term::Colour::White.paint(name).to_string()
}

/// Builds the displayed form of a name: the name unchanged when
/// styling is off, otherwise the name wrapped in its tag's color.
pub fn render_name(name: &str, tag: StyleTag, color: bool) -> (r: String)
    ensures
        r@ == rendered_spec(tag, name@, color),
{
    if !color {
        String::from_str(name)
    } else {
        match tag {
            StyleTag::Symlink => paint_cyan(name),
            StyleTag::Directory => paint_blue(name),
            StyleTag::Executable => paint_green(name),
            StyleTag::Image => paint_yellow(name),
            StyleTag::Regular => paint_white(name),
            StyleTag::Unknown => paint_white(name),
        }
    }
}

} // verus!
