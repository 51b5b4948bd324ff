//! File-system path operations, done by `std::path`.
//!
//! Path syntax differs between platforms (`\` separates components on Windows
//! only, drive prefixes exist only there), so these wrappers promise only what
//! holds on every platform: how they treat a plain file name (no `/`, `\` or
//! `:`, not `.` or `..`), a path whose last `/` is followed by such a name
//! (outside the prefixes Windows gives to paths starting with two
//! separators), and how a relative plain part is appended.
use vstd::prelude::*;
use crate::comfy::last_index_of;

verus! {

/// A single path component that every platform reads the same way: non-empty,
/// not `.` or `..`, and free of `/`, `\` and `:`.
pub open spec fn plain_name(s: Seq<char>) -> bool {
    &&& s.len() > 0
    &&& s != seq!['.']
    &&& s != seq!['.', '.']
    &&& forall|i: int| 0 <= i < s.len() ==> #[trigger] s[i] != '/' && s[i] != '\\' && s[i] != ':'
}

/// A relative path that every platform appends as is: non-empty, not starting
/// with a separator, without a drive prefix (`:`).
pub open spec fn relative_part(s: Seq<char>) -> bool {
    &&& s.len() > 0
    &&& s[0] != '/'
    &&& s[0] != '\\'
    &&& forall|i: int| 0 <= i < s.len() ==> #[trigger] s[i] != ':'
}

/// `r` is `base` followed by `part`, with at most one separator between them.
pub open spec fn joined(base: Seq<char>, part: Seq<char>, r: Seq<char>) -> bool {
    ||| r == base + part
    ||| r == base + seq!['/'] + part
    ||| r == base + seq!['\\'] + part
}

/// `Path::extension` of a plain file name: the part after the final `.`;
/// none when there is no `.` other than a leading one.
pub open spec fn name_extension(name: Seq<char>) -> Option<Seq<char>> {
    match last_index_of(name, '.') {
        Some(i) => if i == 0 {
            None
        } else {
            Some(name.subrange(i + 1, name.len() as int))
        },
        None => None,
    }
}

/// `Path::file_stem` of a plain file name: the part before the final `.`; all
/// of it when there is no `.` other than a leading one.
pub open spec fn name_stem(name: Seq<char>) -> Seq<char> {
    match last_index_of(name, '.') {
        Some(i) => if i == 0 {
            name
        } else {
            name.subrange(0, i)
        },
        None => name,
    }
}

/// The character sequence of an optional string.
pub open spec fn opt_chars(o: Option<String>) -> Option<Seq<char>> {
    match o {
        Some(s) => Some(s@),
        None => None,
    }
}

/// `/` or `\`.
pub open spec fn is_sep(c: char) -> bool {
    c == '/' || c == '\\'
}

/// The path does not start with the verbatim prefix `\\?\` (under which
/// Windows normalizes what is joined and reads `/` as an ordinary character).
pub open spec fn no_verbatim(p: Seq<char>) -> bool {
    !(p.len() >= 4 && p[0] == '\\' && p[1] == '\\' && p[2] == '?' && p[3] == '\\')
}

/// What joining `part` to `base` gives: `joined`, and exactly `part` for an
/// empty base, `base + part` when the base ends in `/`, and `base`, one
/// separator and `part` when the base ends in anything but a separator or a
/// drive colon.
pub open spec fn join_rel(base: Seq<char>, part: Seq<char>, r: Seq<char>) -> bool {
    &&& joined(base, part, r)
    &&& base.len() == 0 ==> r == part
    &&& base.len() > 0 && base.last() == '/' ==> r == base + part
    &&& base.len() > 0 && !is_sep(base.last()) && base.last() != ':' ==> (r == base + seq!['/'] + part || r
        == base + seq!['\\'] + part)
}

/// The index of the last `/` of a path.
pub open spec fn last_slash(p: Seq<char>) -> Option<int> {
    last_index_of(p, '/')
}

/// The text after the last `/` (all of it when there is none).
pub open spec fn path_tail(p: Seq<char>) -> Seq<char> {
    match last_slash(p) {
        Some(i) => p.subrange(i + 1, p.len() as int),
        None => p,
    }
}

/// The text before the last `/` (nothing when there is none).
pub open spec fn path_head(p: Seq<char>) -> Seq<char> {
    match last_slash(p) {
        Some(i) => p.subrange(0, i),
        None => seq![],
    }
}

/// The path does not start with two separators, which Windows reads as the
/// start of a UNC, device or verbatim prefix (`\\server\share`, `\\.\`,
/// `\\?\`) taking in the components after it.
pub open spec fn no_unc(p: Seq<char>) -> bool {
    !(p.len() >= 2 && is_sep(p[0]) && is_sep(p[1]))
}

/// A path `head/name` with a plain file name after its last `/`, not under
/// a UNC, device or verbatim prefix: every platform reads its last component
/// as that name.
pub open spec fn in_folder(p: Seq<char>) -> bool {
    last_slash(p) is Some && plain_name(path_tail(p)) && no_verbatim(p) && no_unc(p)
}

/// A path whose last component is, on every platform, the plain name after
/// its last `/` (the whole text when it is itself a plain name).
pub open spec fn names_file(p: Seq<char>) -> bool {
    plain_name(path_tail(p)) && no_verbatim(p) && no_unc(p)
}

/// The folder part of such a path is itself a path that every platform
/// reads as `head`: not empty and not ending in a separator, `.` or `:`.
pub open spec fn plain_head(p: Seq<char>) -> bool {
    let h = path_head(p);
    h.len() > 0 && !is_sep(h.last()) && h.last() != '.' && h.last() != ':'
}

/// The index of the first `/` of a path.
pub open spec fn first_slash(p: Seq<char>) -> Option<int> {
    crate::text::index_of_char_from(p, '/', 0)
}

/// `s` has a character that is neither a separator nor `.` (so a component
/// other than `.` on every platform).
pub open spec fn has_named_char(s: Seq<char>) -> bool {
    exists|k: int| 0 <= k < s.len() && !is_sep(#[trigger] s[k]) && s[k] != '.'
}

/// `Path::new(base).join(part)`, as text. A relative `part` is appended to a
/// base without the verbatim prefix as `join_rel` says: nothing in between
/// when the base is empty or ends in `/`, one separator when it ends in
/// anything but a separator or a drive colon; which separator, and whether
/// one is added after a trailing `\` or `:`, depends on the platform.
#[verifier::external_body]
pub(crate) fn join(base: &str, part: &str) -> (r: String)
    ensures
        relative_part(part@) && no_verbatim(base@) ==> join_rel(base@, part@, r@),
{
    std::path::Path::new(base).join(part).to_string_lossy().into_owned()
}

/// `Path::extension` (as UTF-8 text): for a plain file name or the name after
/// the last `/` of a path (`in_folder`), the part after its final `.`, none
/// when it has no `.` other than a leading one.
#[verifier::external_body]
pub(crate) fn extension(p: &str) -> (r: Option<String>)
    ensures
        plain_name(p@) ==> opt_chars(r) == name_extension(p@),
        in_folder(p@) ==> opt_chars(r) == name_extension(path_tail(p@)),
{
    std::path::Path::new(p).extension().and_then(|e| e.to_str()).map(|e| e.to_string())
}

/// `Path::file_stem` (as UTF-8 text): for a plain file name or the name after
/// the last `/`, the part before its final `.` (all of it when it has no `.`
/// other than a leading one).
#[verifier::external_body]
pub(crate) fn file_stem(p: &str) -> (r: Option<String>)
    ensures
        plain_name(p@) ==> opt_chars(r) == Some(name_stem(p@)),
        in_folder(p@) ==> opt_chars(r) == Some(name_stem(path_tail(p@))),
{
    std::path::Path::new(p).file_stem().and_then(|e| e.to_str()).map(|e| e.to_string())
}

/// `Path::file_name` (as UTF-8 text). A plain file name is its own file name,
/// the name after the last `/` of a path is its file name, and the empty
/// path has none.
#[verifier::external_body]
pub(crate) fn file_name(p: &str) -> (r: Option<String>)
    ensures
        plain_name(p@) ==> opt_chars(r) == Some(p@),
        in_folder(p@) ==> opt_chars(r) == Some(path_tail(p@)),
        p@.len() == 0 ==> r is None,
{
    std::path::Path::new(p).file_name().and_then(|e| e.to_str()).map(|e| e.to_string())
}

/// `Path::parent` (as text). A plain file name's parent is the empty path;
/// the parent of `head/name` is `head` when the head does not end in a
/// separator, `.` or `:` (nothing of it is trimmed).
#[verifier::external_body]
pub(crate) fn parent(p: &str) -> (r: Option<String>)
    ensures
        plain_name(p@) ==> opt_chars(r) == Some(Seq::<char>::empty()),
        in_folder(p@) && plain_head(p@) ==> opt_chars(r) == Some(path_head(p@)),
{
    std::path::Path::new(p).parent().map(|q| q.to_string_lossy().into_owned())
}

/// The first two components of `Path::components` (as text), and whether
/// there are at least two. A plain file name is its only component; a path
/// `d/rest` with a plain `d` starts with `d`, and has a second component
/// when `rest` has a character other than a separator or `.`.
#[verifier::external_body]
pub(crate) fn leading_components(p: &str) -> (r: (Option<String>, bool))
    ensures
        plain_name(p@) ==> opt_chars(r.0) == Some(p@) && !r.1,
        (first_slash(p@) matches Some(i) && plain_name(p@.subrange(0, i))) ==> opt_chars(r.0) == Some(
            p@.subrange(0, first_slash(p@)->0),
        ),
        (first_slash(p@) matches Some(i) && plain_name(p@.subrange(0, i)) && has_named_char(p@.subrange(i + 1, p@.len() as int))) ==> r.1,
{
    let mut comps = std::path::Path::new(p).components();
    let first = comps.next().map(|c| c.as_os_str().to_string_lossy().into_owned());
    (first, comps.next().is_some())
}

} // verus!
