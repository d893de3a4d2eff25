//! Classification of a directory entry: visibility of its name and
//! the display style chosen from link-aware filesystem metadata.

use vstd::prelude::*;

use crate::style::StyleTag;

verus! {

/// Link-aware facts about one entry, read from the filesystem without
/// following symbolic links: the file type of the link itself and the
/// Unix permission bits.
#[derive(Clone, Copy, Debug, PartialEq, Eq, Structural)]
pub struct MetaFacts {
    pub is_symlink: bool,
    pub is_dir: bool,
    pub mode: u32,
}

/// A name is hidden iff it begins with the hidden-file marker `.`.
pub open spec fn is_hidden_name(name: Seq<char>) -> bool {
    name.len() > 0 && name[0] == '.'
}

/// The index of the last `.` in the name, or -1 when there is none.
pub open spec fn last_dot(name: Seq<char>) -> int
    decreases name.len(),
{
    if name.len() == 0 {
        -1
    } else if name[name.len() - 1] == '.' {
        name.len() - 1
    } else {
        last_dot(name.drop_last())
    }
}

/// The fixed, case-sensitive set of image extensions.
pub open spec fn image_ext(e: Seq<char>) -> bool {
    e == "jpg"@ || e == "jpeg"@ || e == "png"@ || e == "gif"@ || e == "bmp"@ || e == "svg"@
}

/// The name carries an image extension: what follows its last `.` is
/// in the image set, and that `.` is not the name's first character
/// (a leading dot starts a hidden name, not an extension).
pub open spec fn is_image_name(name: Seq<char>) -> bool {
    last_dot(name) >= 1 && image_ext(name.subrange(last_dot(name) + 1, name.len() as int))
}

/// The style a classified entry gets, in precedence order: symlink,
/// then directory, then any execute bit, then image extension, else
/// regular; entries whose metadata could not be read are `Unknown`.
pub open spec fn tag_of(meta: Option<MetaFacts>, name: Seq<char>) -> StyleTag {
    match meta {
        Option::None => StyleTag::Unknown,
        Option::Some(m) => if m.is_symlink {
            StyleTag::Symlink
        } else if m.is_dir {
            StyleTag::Directory
        } else if m.mode & 0o111 != 0 {
            StyleTag::Executable
        } else if is_image_name(name) {
            StyleTag::Image
        } else {
            StyleTag::Regular
        },
    }
}

proof fn lemma_last_dot_at(name: Seq<char>, j: int)
    requires
        0 <= j < name.len(),
        name[j] == '.',
        forall|k: int| j < k < name.len() ==> name[k] != '.',
    ensures
        last_dot(name) == j,
    decreases name.len(),
{
    if j < name.len() - 1 {
        assert(name[name.len() - 1] != '.');
        lemma_last_dot_at(name.drop_last(), j);
    }
}

proof fn lemma_last_dot_none(name: Seq<char>)
    requires
        forall|k: int| 0 <= k < name.len() ==> name[k] != '.',
    ensures
        last_dot(name) == -1,
    decreases name.len(),
{
    if name.len() > 0 {
        lemma_last_dot_none(name.drop_last());
    }
}

/// True iff the characters of `name` from position `from` on are
/// exactly the characters of `tail`.
fn tail_eq(name: &str, from: usize, tail: &str) -> (b: bool)
    requires
        from <= name@.len(),
    ensures
        b == (name@.subrange(from as int, name@.len() as int) == tail@),
{
    let n = name.unicode_len();
    let m = tail.unicode_len();
    if n - from != m {
        proof {
            assert(name@.subrange(from as int, name@.len() as int).len() != tail@.len());
        }
        return false;
    }
    let mut i: usize = 0;
    while i < m
        invariant
            from + m == n,
            m == tail@.len(),
            n == name@.len(),
            0 <= i <= m,
            forall|k: int| 0 <= k < i ==> name@[from + k] == tail@[k],
        decreases m - i,
    {
        if name.get_char(from + i) != tail.get_char(i) {
            proof {
                assert(name@.subrange(from as int, name@.len() as int)[i as int] != tail@[i as int]);
            }
            return false;
        }
        i += 1;
    }
    proof {
        assert(name@.subrange(from as int, name@.len() as int) =~= tail@);
    }
    true
}

/// True iff the name carries an image extension, per `is_image_name`.
pub fn name_is_image(name: &str) -> (b: bool)
    ensures
        b == is_image_name(name@),
{
    let n = name.unicode_len();
    let mut i: usize = n;
    while i > 0
        invariant
            0 <= i <= n,
            n == name@.len(),
            forall|k: int| i <= k < n ==> name@[k] != '.',
        decreases i,
    {
        if name.get_char(i - 1) == '.' {
            proof {
                lemma_last_dot_at(name@, i - 1);
            }
            if i - 1 >= 1 {
                return if tail_eq(name, i, "jpg") {
                    true
                } else if tail_eq(name, i, "jpeg") {
                    true
                } else if tail_eq(name, i, "png") {
                    true
                } else if tail_eq(name, i, "gif") {
                    true
                } else if tail_eq(name, i, "bmp") {
                    true
                } else {
                    tail_eq(name, i, "svg")
                };
            } else {
                return false;
            }
        }
        i -= 1;
    }
    proof {
        lemma_last_dot_none(name@);
    }
    false
}

/// Classifies one entry from its name and metadata facts, following
/// the precedence of `tag_of`.
pub fn classify(meta: &Option<MetaFacts>, name: &str) -> (t: StyleTag)
    ensures
        t == tag_of(*meta, name@),
{
    match meta {
        Option::None => StyleTag::Unknown,
        Option::Some(m) => if m.is_symlink {
            StyleTag::Symlink
        } else if m.is_dir {
            StyleTag::Directory
        } else if m.mode & 0o111 != 0 {
            StyleTag::Executable
        } else if name_is_image(name) {
            StyleTag::Image
        } else {
            StyleTag::Regular
        },
    }
}

/// True iff the name begins with the hidden-file marker `.`.
pub fn name_is_hidden(name: &str) -> (b: bool)
    ensures
        b == is_hidden_name(name@),
{
    let n = name.unicode_len();
    if n == 0 {
        false
    } else {
        name.get_char(0) == '.'
    }
}

/// The listing policy for one name: hidden names are shown only when
/// the caller asked for them; nothing else is ever filtered out.
pub fn should_show_file(name: &str, show_hidden: bool) -> (r: bool)
    ensures
        r == (show_hidden || !is_hidden_name(name@)),
{
    show_hidden || !name_is_hidden(name)
}

} // verus!
