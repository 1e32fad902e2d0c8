//! The few questions about paths that follow the platform's path rules,
//! asked of std, and what the library makes of the answers.

use vstd::prelude::*;
use crate::names::{thumbnail_extension, thumbnail_extensions};
use crate::text::lower_seq;

verus! {

/// A path that is one plain file name: not empty, not `.` or `..`, and free
/// of `/`, `\` and `:`. Every platform reads such a path as a single
/// normal component, so the whole text is its file name.
pub open spec fn plain_file_name(s: Seq<char>) -> bool {
    &&& s.len() > 0
    &&& s != "."@
    &&& s != ".."@
    &&& forall|i: int| 0 <= i < s.len() ==> s[i] != '/' && s[i] != '\\' && s[i] != ':'
}

/// The position of the last `.` among the first `n` characters, or -1.
pub open spec fn last_dot(s: Seq<char>, n: int) -> int
    decreases n,
{
    if n <= 0 {
        -1
    } else if s[n - 1] == '.' {
        n - 1
    } else {
        last_dot(s, n - 1)
    }
}

/// The extension of a file name, as `Path::extension` documents it: the
/// part after the last `.`; none without a `.`, or when the only `.` leads
/// the name.
pub open spec fn name_extension(name: Seq<char>) -> Option<Seq<char>> {
    let d = last_dot(name, name.len() as int);
    if d <= 0 {
        None
    } else {
        Some(name.subrange(d + 1, name.len() as int))
    }
}

/// The stem of a file name, as `Path::file_stem` documents it: the part
/// before the last `.`, or the whole name when it has no extension.
pub open spec fn name_stem(name: Seq<char>) -> Seq<char> {
    let d = last_dot(name, name.len() as int);
    if d <= 0 {
        name
    } else {
        name.subrange(0, d)
    }
}

pub proof fn lemma_last_dot_range(s: Seq<char>, n: int)
    requires
        0 <= n <= s.len(),
    ensures
        -1 <= last_dot(s, n) < n,
        last_dot(s, n) >= 0 ==> s[last_dot(s, n)] == '.',
    decreases n,
{
    if n > 0 && s[n - 1] != '.' {
        lemma_last_dot_range(s, n - 1);
    }
}

/// `std::path::Path::extension`, as text. Which part of a path is its file
/// name follows the platform's path rules; what is claimed is that an
/// extension, being part of a file name, never holds `/` (a separator on
/// every platform), and what the documentation gives for a path that is a
/// plain file name: the part after the last `.`, if any.
#[verifier::external_body]
pub(crate) fn path_extension(path: &str) -> (r: Option<String>)
    ensures
        r matches Some(e) ==> forall|i: int| 0 <= i < e@.len() ==> e@[i] != '/',
        plain_file_name(path@) ==> match r {
            Some(e) => name_extension(path@) == Some(e@),
            None => name_extension(path@) is None,
        },
{
    std::path::Path::new(path).extension().and_then(|value| value.to_str()).map(String::from)
}

/// `std::path::Path::with_extension`, as text. `set_extension` panics on an
/// extension that holds a path separator, so neither `/` nor `\` may
/// appear in it. The result follows the platform's path rules; what is
/// claimed is what the documentation of `set_extension` gives for a path
/// that is a plain file name: the stem, then a `.` and the extension unless
/// it is empty.
#[verifier::external_body]
pub(crate) fn path_with_extension(path: &str, extension: &str) -> (r: String)
    requires
        forall|i: int| 0 <= i < extension@.len() ==> extension@[i] != '/' && extension@[i] != '\\',
    ensures
        plain_file_name(path@) ==> r@
            == name_stem(path@) + (if extension@.len() == 0 {
            Seq::<char>::empty()
        } else {
            "."@ + extension@
        }),
{
    std::path::Path::new(path).with_extension(extension).to_string_lossy().into_owned()
}

/// `std::path::Path::file_stem`, as text. It follows the platform's path
/// rules; what is claimed is what the documentation gives for a path that is
/// a plain file name: the part before the last `.`, or the whole name when
/// it has no extension.
#[verifier::external_body]
pub(crate) fn path_file_stem(path: &str) -> (r: Option<String>)
    ensures
        plain_file_name(path@) ==> r is Some && r.unwrap()@ == name_stem(path@),
{
    std::path::Path::new(path).file_stem().and_then(|value| value.to_str()).map(String::from)
}

/// `std::path::Path::file_name`, as text. It follows the platform's path
/// rules; what is claimed is that a path that is a plain file name is its
/// own file name.
#[verifier::external_body]
pub(crate) fn path_file_name(path: &str) -> (r: Option<String>)
    ensures
        plain_file_name(path@) ==> r is Some && r.unwrap()@ == path@,
{
    std::path::Path::new(path).file_name().map(|name| name.to_string_lossy().into_owned())
}

/// Whether the shell should be asked for a thumbnail of the item at `path`:
/// whether its extension, read by the platform's rules, is one of
/// `thumbnail_extensions` in any letter case.
pub fn thumbnail_candidate(path: &str) -> (r: bool)
    ensures
        plain_file_name(path@) ==> r == match name_extension(path@) {
            Some(e) => thumbnail_extensions().contains(lower_seq(e)),
            None => false,
        },
{
    match path_extension(path) {
        Some(extension) => thumbnail_extension(extension.as_str()),
        None => false,
    }
}

/// The name shown for the item being moved: its file name, unless empty.
pub fn display_item_name(path: &str) -> (r: Option<String>)
    ensures
        r matches Some(name) ==> name@.len() > 0,
        plain_file_name(path@) ==> r is Some && r.unwrap()@ == path@,
{
    match path_file_name(path) {
        Some(name) => {
            if name.as_str().unicode_len() == 0 {
                None
            } else {
                Some(name)
            }
        },
        None => None,
    }
}

} // verus!
