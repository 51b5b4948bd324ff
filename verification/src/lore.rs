//! Lore index. The IP's lore-bible repo is the source of truth; its markdown
//! documents are indexed as entries with a kind (top-level folder), a name, a
//! title, a one-paragraph summary and a vocabulary of canonical terms (the bold
//! spans), which the prompt tooling uses to speak the IP's own vocabulary.
use vstd::prelude::*;
use vstd::utf8::*;
use crate::text::{
    chars_of, chars_eq, eq_ignore_case, extend_str, find_from_exec, find_seq, find_from,
    join_seq, join_vecs, lemma_find_from_bounds, lines_seq, lines_vec, lower_seq, lower_vec,
    starts_with_seq, starts_with_str, string_of, sub_vec, trim_end_char, trim_end_char_vec,
    trim_seq, trim_vec, views, lemma_views_push, matches_at,
};
use crate::paths;

verus! {

broadcast use vstd::utf8::group_utf8_lib;

/// One indexed lore document.
#[derive(Clone, Default)]
pub struct LoreEntry {
    pub id: i64,
    /// Top-level lore folder: characters / factions / vehicles / weapons /
    /// world / concepts / timeline / … ("root" for repo-root docs).
    pub kind: String,
    /// Entity name (folder for profile.md/README.md, else the file stem).
    pub name: String,
    pub rel_path: String,
    pub title: String,
    pub summary: String,
    /// Canonical terms lifted from the doc (bold spans + title), comma-joined —
    /// the vocabulary tiebreaker's raw material.
    pub vocab: String,
    pub updated_at: String,
}

// ---------------------------------------------------------------------------
// Walking the repo
// ---------------------------------------------------------------------------

/// Directories never worth indexing (VCS, tool state, engine/media binaries).
pub open spec fn skip_dir_spec(name: Seq<char>) -> bool {
    starts_with_seq(name, "."@) || name == "node_modules"@ || name == "target"@ || name
        == "media"@ || name == "artifacts"@ || name == "batches"@ || name == "TEST"@ || name
        == "__pycache__"@
}

fn is(v: &Vec<char>, s: &str) -> (r: bool)
    ensures
        r == (v@ == s@),
{
    chars_eq(v, &chars_of(s))
}

/// Directories never worth indexing (VCS, tool state, engine/media binaries).
pub fn skip_dir(name: &str) -> (r: bool)
    ensures
        r == skip_dir_spec(name@),
{
    let n = chars_of(name);
    starts_with_str(&n, ".") || is(&n, "node_modules") || is(&n, "target") || is(&n, "media")
        || is(&n, "artifacts") || is(&n, "batches") || is(&n, "TEST") || is(&n, "__pycache__")
}

/// The kind of a document from its leading path components: the first one,
/// ASCII-lowercased, when there is a second; else "root".
pub open spec fn kind_spec(first: Option<Seq<char>>, has_second: bool) -> Seq<char> {
    match first {
        Some(f) => if has_second {
            lower_seq(f)
        } else {
            "root"@
        },
        None => "root"@,
    }
}

/// The kind of a document from its leading path components.
pub fn kind_from_components(first: Option<&str>, has_second: bool) -> (r: String)
    ensures
        r@ == kind_spec(
            match first {
                Some(f) => Some(f@),
                None => None,
            },
            has_second,
        ),
{
    match first {
        Some(f) => {
            if has_second {
                string_of(&lower_vec(&chars_of(f)))
            } else {
                "root".to_owned()
            }
        },
        None => "root".to_owned(),
    }
}

/// First-path-component bucket, or "root" for repo-root files.
pub fn classify_kind(rel: &str) -> (r: String)
    ensures
        paths::plain_name(rel@) ==> r@ == "root"@,
        exists|f: Option<Seq<char>>, b: bool| r@ == kind_spec(f, b),
        (paths::first_slash(rel@) matches Some(i) && paths::plain_name(rel@.subrange(0, i))
            && paths::has_named_char(rel@.subrange(i + 1, rel@.len() as int))) ==> r@ == lower_seq(
            rel@.subrange(0, paths::first_slash(rel@)->0),
        ),
{
    let (first, second) = paths::leading_components(rel);
    match first {
        Some(f) => kind_from_components(Some(f.as_str()), second),
        None => kind_from_components(None, second),
    }
}

/// The name of a document from its file stem and its parent folder's name:
/// the folder for profile.md / README.md (compared without ASCII case), else
/// the stem.
pub open spec fn name_spec(stem: Seq<char>, parent: Option<Seq<char>>) -> Seq<char> {
    if lower_seq(stem) == "profile"@ || lower_seq(stem) == "readme"@ {
        match parent {
            Some(p) => if p.len() > 0 {
                p
            } else {
                stem
            },
            None => stem,
        }
    } else {
        stem
    }
}

/// The name of a document from its file stem and its parent folder's name.
pub fn name_from_parts(stem: &str, parent: Option<&str>) -> (r: String)
    ensures
        r@ == name_spec(
            stem@,
            match parent {
                Some(p) => Some(p@),
                None => None,
            },
        ),
{
    let s = chars_of(stem);
    let ls = lower_vec(&s);
    proof {
        reveal_strlit("profile");
        reveal_strlit("readme");
    }
    if chars_eq(&ls, &chars_of("profile")) || chars_eq(&ls, &chars_of("readme")) {
        match parent {
            Some(p) => {
                if !p.is_empty() {
                    return p.to_owned();
                }
            },
            None => {},
        }
    }
    stem.to_owned()
}

/// Human name: parent folder for profile.md / README.md, else the file stem.
pub fn derive_name(rel: &str) -> (r: String)
    ensures
        paths::plain_name(rel@) ==> r@ == paths::name_stem(rel@),
        paths::in_folder(rel@) && paths::plain_head(rel@) && paths::plain_name(paths::path_head(rel@)) ==> r@
            == name_spec(paths::name_stem(paths::path_tail(rel@)), Some(paths::path_head(rel@))),
        paths::in_folder(rel@) && paths::plain_head(rel@) && paths::in_folder(paths::path_head(rel@)) ==> r@
            == name_spec(paths::name_stem(paths::path_tail(rel@)), Some(paths::path_tail(paths::path_head(rel@)))),
        exists|stem: Seq<char>, parent: Option<Seq<char>>| r@ == name_spec(stem, parent),
{
    let stem = match paths::file_stem(rel) {
        Some(s) => s,
        None => String::new(),
    };
    let parent_name = match paths::parent(rel) {
        Some(p) => paths::file_name(p.as_str()),
        None => None,
    };
    match parent_name {
        Some(p) => {
            let r = name_from_parts(stem.as_str(), Some(p.as_str()));
            assert(r@ == name_spec(stem@, Some(p@)));
            r
        },
        None => {
            let r = name_from_parts(stem.as_str(), None);
            assert(r@ == name_spec(stem@, None));
            r
        },
    }
}

/// Resolve an entry's on-disk absolute path under the lore root.
pub fn abs_path(lore_root: &str, rel_path: &str) -> (r: String)
    ensures
        paths::relative_part(rel_path@) && paths::no_verbatim(lore_root@) ==> paths::join_rel(lore_root@, rel_path@, r@),
{
    paths::join(lore_root, rel_path)
}

/// An entry's absolute path strips back to its relative path: the lore root
/// stands in front, and what follows it (after the one separator put in when
/// the root does not end in `/`, a `\` or a drive colon) is the relative
/// path; under an empty root the path is the relative path itself.
pub proof fn law_abs_path_strips_back(lore_root: Seq<char>, rel_path: Seq<char>, abs: Seq<char>)
    requires
        paths::relative_part(rel_path),
        paths::no_verbatim(lore_root),
        paths::join_rel(lore_root, rel_path, abs),
    ensures
        abs.take(lore_root.len() as int) == lore_root,
        lore_root.len() == 0 ==> abs == rel_path,
        lore_root.len() > 0 && lore_root.last() == '/' ==> abs.skip(lore_root.len() as int) == rel_path,
        lore_root.len() > 0 && !paths::is_sep(lore_root.last()) && lore_root.last() != ':' ==> paths::is_sep(
            abs[lore_root.len() as int],
        ) && abs.skip(lore_root.len() as int + 1) == rel_path,
{
    let n = lore_root.len() as int;
    if abs == lore_root + rel_path {
        assert(abs.take(n) =~= lore_root);
        assert(abs.skip(n) =~= rel_path);
    } else if abs == lore_root + seq!['/'] + rel_path {
        assert(abs.take(n) =~= lore_root);
        assert(abs.skip(n + 1) =~= rel_path);
    } else {
        assert(abs == lore_root + seq!['\\'] + rel_path);
        assert(abs.take(n) =~= lore_root);
        assert(abs.skip(n + 1) =~= rel_path);
    }
}

// ---------------------------------------------------------------------------
// Reading a document
// ---------------------------------------------------------------------------

/// The inner text of every `**bold**` span of a line, in order (an inner text
/// that is empty or holds a `*` is skipped).
pub open spec fn bold_spans_spec(line: Seq<char>) -> Seq<Seq<char>>
    decreases line.len(),
{
    match find_seq(line, "**"@) {
        Some(a) => {
            proof {
                lemma_find_from_bounds(line, "**"@, 0);
                reveal_strlit("**");
            }
            if 0 <= a && a + 2 <= line.len() {
                let after = line.subrange(a + 2, line.len() as int);
                match find_seq(after, "**"@) {
                    Some(b) => {
                        proof {
                            lemma_find_from_bounds(after, "**"@, 0);
                        }
                        if 0 <= b && b + 2 <= after.len() {
                            let inner = after.subrange(0, b);
                            let rest = after.subrange(b + 2, after.len() as int);
                            (if inner.len() > 0 && !inner.contains('*') {
                                seq![inner]
                            } else {
                                seq![]
                            }) + bold_spans_spec(rest)
                        } else {
                            seq![]
                        }
                    },
                    None => seq![],
                }
            } else {
                seq![]
            }
        },
        None => seq![],
    }
}

fn has_star(v: &Vec<char>) -> (r: bool)
    ensures
        r == v@.contains('*'),
{
    let mut i: usize = 0;
    while i < v.len()
        invariant
            i <= v.len(),
            forall|j: int| 0 <= j < i ==> v@[j] != '*',
        decreases v.len() - i,
    {
        if v[i] == '*' {
            return true;
        }
        i += 1;
    }
    false
}

/// Extract the inner text of every `**bold**` span on a line.
pub fn bold_spans(line: &str) -> (r: Vec<String>)
    ensures
        r@.map_values(|s: String| s@) == bold_spans_spec(line@),
{
    let v = chars_of(line);
    let spans = bold_span_vecs(&v);
    let mut r: Vec<String> = Vec::new();
    let mut i: usize = 0;
    while i < spans.len()
        invariant
            i <= spans@.len(),
            r@.map_values(|s: String| s@) == views(spans@).take(i as int),
        decreases spans@.len() - i,
    {
        let s = string_of(&spans[i]);
        let ghost old_r = r@;
        r.push(s);
        assert(r@.map_values(|s: String| s@) =~= old_r.map_values(|s: String| s@).push(
            spans@[i as int]@,
        ));
        assert(views(spans@).take(i + 1) =~= views(spans@).take(i as int).push(spans@[i as int]@));
        i += 1;
    }
    assert(views(spans@).take(spans@.len() as int) =~= views(spans@));
    r
}

/// The bold spans of a line, as character vectors.
fn bold_span_vecs(line: &Vec<char>) -> (r: Vec<Vec<char>>)
    ensures
        views(r@) == bold_spans_spec(line@),
{
    let marker = chars_of("**");
    proof {
        reveal_strlit("**");
    }
    let mut r: Vec<Vec<char>> = Vec::new();
    let mut start: usize = 0;
    assert(line@.subrange(0, line@.len() as int) =~= line@);
    while start <= line.len()
        invariant
            start <= line@.len(),
            marker@ == "**"@,
            bold_spans_spec(line@) == views(r@) + bold_spans_spec(
                line@.subrange(start as int, line@.len() as int),
            ),
        decreases line@.len() - start,
    {
        let ghost rest = line@.subrange(start as int, line@.len() as int);
        proof {
            reveal_strlit("**");
        }
        let a = match find_from_exec(line, &marker, start) {
            Some(a) => a,
            None => {
                proof {
                    lemma_find_in_suffix(line@, "**"@, start as int);
                    assert(views(r@) + seq![] =~= views(r@));
                }
                return r;
            },
        };
        proof {
            lemma_find_in_suffix(line@, "**"@, start as int);
            lemma_find_from_bounds(line@, "**"@, start as int);
        }
        let b = match find_from_exec(line, &marker, a + 2) {
            Some(b) => b,
            None => {
                proof {
                    let after = rest.subrange(a - start + 2, rest.len() as int);
                    assert(after =~= line@.subrange(a + 2, line@.len() as int));
                    lemma_find_in_suffix(line@, "**"@, a + 2);
                    assert(views(r@) + seq![] =~= views(r@));
                }
                return r;
            },
        };
        proof {
            lemma_find_from_bounds(line@, "**"@, a + 2);
            let after = rest.subrange(a - start + 2, rest.len() as int);
            assert(after =~= line@.subrange(a + 2, line@.len() as int));
            lemma_find_in_suffix(line@, "**"@, a + 2);
            assert(after.subrange(0, b - a - 2) =~= line@.subrange(a + 2, b as int));
            assert(after.subrange(b - a - 2 + 2, after.len() as int) =~= line@.subrange(
                b + 2,
                line@.len() as int,
            ));
        }
        let inner = sub_vec(line, a + 2, b);
        if inner.len() > 0 && !has_star(&inner) {
            proof {
                lemma_views_push(r@, inner);
            }
            r.push(inner);
            proof {
                assert(views(r@) + bold_spans_spec(line@.subrange(b + 2, line@.len() as int))
                    =~= views(r@).drop_last() + (seq![inner@] + bold_spans_spec(
                    line@.subrange(b + 2, line@.len() as int),
                )));
            }
        } else {
            proof {
                assert(views(r@) + bold_spans_spec(line@.subrange(b + 2, line@.len() as int))
                    =~= views(r@) + (seq![] + bold_spans_spec(
                    line@.subrange(b + 2, line@.len() as int),
                )));
            }
        }
        start = b + 2;
    }
    r
}

/// A bold term as a vocabulary candidate: trimmed, a trailing `:` run dropped,
/// trimmed again.
pub open spec fn clean_term(term: Seq<char>) -> Seq<char> {
    trim_seq(trim_end_char(trim_seq(term), ':'))
}

/// The length of `s` in UTF-8 bytes.
pub open spec fn byte_len(s: Seq<char>) -> int {
    encode_utf8(s).len() as int
}

/// `t` is already in the vocabulary, compared without ASCII case.
pub open spec fn known_term(vocab: Seq<Seq<char>>, t: Seq<char>) -> bool {
    exists|i: int| 0 <= i < vocab.len() && lower_seq(#[trigger] vocab[i]) == lower_seq(t)
}

/// The vocabulary after considering the bold terms `terms` in order: a cleaned
/// term of 3 to 40 bytes is added unless already known.
pub open spec fn add_terms(vocab: Seq<Seq<char>>, terms: Seq<Seq<char>>) -> Seq<Seq<char>>
    decreases terms.len(),
{
    if terms.len() == 0 {
        vocab
    } else {
        let v = add_terms(vocab, terms.drop_last());
        let c = clean_term(terms.last());
        if 3 <= byte_len(c) <= 40 && !known_term(v, c) {
            v.push(c)
        } else {
            v
        }
    }
}

/// A trimmed line that can be the summary: prose, not a heading, table, list,
/// blockquote, `**Key:**` metadata line or rule.
pub open spec fn is_prose(t: Seq<char>) -> bool {
    t.len() > 0 && !starts_with_seq(t, "#"@) && !starts_with_seq(t, "|"@) && !starts_with_seq(
        t,
        "-"@,
    ) && !starts_with_seq(t, "*"@) && !starts_with_seq(t, ">"@) && !starts_with_seq(t, "**"@)
        && !starts_with_seq(t, "---"@)
}

/// Reader state over a markdown body: title, summary, vocabulary, and whether
/// the current line is inside a code fence.
pub struct ExState {
    pub title: Seq<char>,
    pub summary: Seq<char>,
    pub vocab: Seq<Seq<char>>,
    pub in_fence: bool,
}

/// Feeds one line to the reader. Code fences are skipped; the first `# `
/// heading is the title; bold spans feed the vocabulary; the first prose line
/// is the summary.
pub open spec fn ex_step(st: ExState, line: Seq<char>) -> ExState {
    let t = trim_seq(line);
    if starts_with_seq(t, "```"@) {
        ExState { in_fence: !st.in_fence, ..st }
    } else if st.in_fence {
        st
    } else if st.title.len() == 0 && starts_with_seq(t, "# "@) {
        ExState { title: trim_seq(t.subrange(2, t.len() as int)), ..st }
    } else {
        ExState {
            vocab: add_terms(st.vocab, bold_spans_spec(t)),
            summary: if st.summary.len() == 0 && is_prose(t) {
                t
            } else {
                st.summary
            },
            ..st
        }
    }
}

/// The reader state after the given lines.
pub open spec fn ex_scan(lines: Seq<Seq<char>>) -> ExState
    decreases lines.len(),
{
    if lines.len() == 0 {
        ExState { title: seq![], summary: seq![], vocab: seq![], in_fence: false }
    } else {
        ex_step(ex_scan(lines.drop_last()), lines.last())
    }
}

/// How many leading characters of `s` start before byte offset `limit`.
pub open spec fn chars_within(s: Seq<char>, limit: int) -> nat
    decreases s.len(),
{
    if s.len() == 0 || limit <= 0 {
        0
    } else {
        1 + chars_within(s.drop_first(), limit - encode_scalar(s[0] as u32).len())
    }
}

/// A summary longer than 240 bytes is cut after the last character starting
/// before byte 237, and marked with `…`.
pub open spec fn cut_summary(s: Seq<char>) -> Seq<char> {
    if byte_len(s) > 240 {
        s.take(chars_within(s, 237) as int) + "…"@
    } else {
        s
    }
}

/// At most the first 14 terms.
pub open spec fn first_terms(v: Seq<Seq<char>>) -> Seq<Seq<char>> {
    if v.len() > 14 {
        v.take(14)
    } else {
        v
    }
}

/// (title, summary, vocab) of a markdown body: the first `# ` heading (else
/// `fallback`), the first prose line (cut to about 240 bytes), and up to 14
/// bold terms joined with ", ".
pub open spec fn extract_spec(text: Seq<char>, fallback: Seq<char>) -> (Seq<char>, Seq<char>, Seq<char>) {
    let st = ex_scan(lines_seq(text));
    (
        if st.title.len() == 0 {
            fallback
        } else {
            st.title
        },
        cut_summary(st.summary),
        join_seq(first_terms(st.vocab), ", "@),
    )
}

/// Every term is 3 to 40 UTF-8 bytes long, and no two are equal ignoring
/// ASCII case.
pub open spec fn vocab_ok(v: Seq<Seq<char>>) -> bool {
    &&& forall|i: int| 0 <= i < v.len() ==> 3 <= #[trigger] byte_len(v[i]) <= 40
    &&& forall|i: int, j: int| 0 <= i < j < v.len() ==> lower_seq(#[trigger] v[i]) != lower_seq(#[trigger] v[j])
}

proof fn lemma_add_terms_ok(v: Seq<Seq<char>>, terms: Seq<Seq<char>>)
    requires
        vocab_ok(v),
    ensures
        vocab_ok(add_terms(v, terms)),
    decreases terms.len(),
{
    if terms.len() > 0 {
        lemma_add_terms_ok(v, terms.drop_last());
        let w = add_terms(v, terms.drop_last());
        let c = clean_term(terms.last());
        if 3 <= byte_len(c) <= 40 && !known_term(w, c) {
            let w2 = w.push(c);
            assert forall|i: int| 0 <= i < w2.len() implies 3 <= #[trigger] byte_len(w2[i]) <= 40 by {
                if i < w.len() {
                    assert(w2[i] == w[i]);
                }
            }
            assert forall|i: int, j: int| 0 <= i < j < w2.len() implies lower_seq(#[trigger] w2[i]) != lower_seq(#[trigger] w2[j]) by {
                assert(w2[i] == w[i]);
                if j == w.len() {
                    assert(!(lower_seq(w[i]) == lower_seq(c)));
                } else {
                    assert(w2[j] == w[j]);
                }
            }
        }
    }
}

proof fn lemma_ex_scan_ok(lines: Seq<Seq<char>>)
    ensures
        vocab_ok(ex_scan(lines).vocab),
    decreases lines.len(),
{
    if lines.len() > 0 {
        lemma_ex_scan_ok(lines.drop_last());
        let st = ex_scan(lines.drop_last());
        lemma_add_terms_ok(st.vocab, bold_spans_spec(trim_seq(lines.last())));
    }
}

/// The vocabulary `extract` returns is a list of terms joined with ", ": at
/// most 14 of them, each 3 to 40 UTF-8 bytes long, no two equal ignoring
/// ASCII case (a longer bold span, such as an emphasised sentence, is no
/// term).
pub proof fn law_vocab_terms_fit(text: Seq<char>, fallback: Seq<char>)
    ensures
        exists|terms: Seq<Seq<char>>|
            #[trigger] join_seq(terms, ", "@) == extract_spec(text, fallback).2 && terms.len() <= 14
                && vocab_ok(terms),
{
    let v = ex_scan(lines_seq(text)).vocab;
    lemma_ex_scan_ok(lines_seq(text));
    let t = first_terms(v);
    if v.len() > 14 {
        assert forall|i: int| 0 <= i < t.len() implies 3 <= #[trigger] byte_len(t[i]) <= 40 by {
            assert(t[i] == v[i]);
        }
        assert forall|i: int, j: int| 0 <= i < j < t.len() implies lower_seq(#[trigger] t[i]) != lower_seq(#[trigger] t[j]) by {
            assert(t[i] == v[i] && t[j] == v[j]);
        }
    }
    assert(join_seq(t, ", "@) == extract_spec(text, fallback).2);
}

/// The number of UTF-8 bytes of `c`.
fn char_width(c: char) -> (w: usize)
    ensures
        w == encode_scalar(c as u32).len(),
{
    proof {
        char_is_scalar(c);
    }
    let u = c as u32;
    if u < 0x80 {
        1
    } else if u < 0x800 {
        2
    } else if u < 0x10000 {
        3
    } else {
        4
    }
}

/// The length of `v` in UTF-8 bytes.
pub fn byte_len_vec(v: &Vec<char>) -> (n: usize)
    ensures
        n == byte_len(v@),
{
    let s = string_of(v);
    let b = s.as_str().as_bytes();
    b.len()
}

/// The number of leading characters of `v` that start before byte `limit`.
fn chars_within_exec(v: &Vec<char>, limit: usize) -> (k: usize)
    requires
        limit <= 1_000_000,
    ensures
        k == chars_within(v@, limit as int),
        k <= v@.len(),
{
    let mut k: usize = 0;
    let mut left: i64 = limit as i64;
    assert(left == limit);
    assert(v@.skip(0) =~= v@);
    while k < v.len() && left > 0
        invariant
            k <= v@.len(),
            left <= limit,
            chars_within(v@, limit as int) == k + chars_within(v@.skip(k as int), left as int),
        decreases v@.len() - k,
    {
        let w = char_width(v[k]);
        assert(v@.skip(k as int).drop_first() =~= v@.skip(k + 1));
        assert(v@.skip(k as int)[0] == v@[k as int]);
        left = left - w as i64;
        k += 1;
    }
    k
}

/// `t` is already among the terms of `vocab`, compared without ASCII case.
fn known_term_exec(vocab: &Vec<Vec<char>>, t: &Vec<char>) -> (r: bool)
    ensures
        r == known_term(views(vocab@), t@),
{
    let mut i: usize = 0;
    while i < vocab.len()
        invariant
            i <= vocab@.len(),
            forall|j: int| 0 <= j < i ==> lower_seq(#[trigger] views(vocab@)[j]) != lower_seq(t@),
        decreases vocab@.len() - i,
    {
        if eq_ignore_case(&vocab[i], t) {
            assert(views(vocab@)[i as int] == vocab@[i as int]@);
            return true;
        }
        assert(views(vocab@)[i as int] == vocab@[i as int]@);
        i += 1;
    }
    false
}

/// Adds the bold terms of a line to the vocabulary.
fn add_terms_exec(vocab: &mut Vec<Vec<char>>, terms: &Vec<Vec<char>>)
    ensures
        views(final(vocab)@) == add_terms(views(old(vocab)@), views(terms@)),
{
    let ghost v0 = views(vocab@);
    let mut j: usize = 0;
    while j < terms.len()
        invariant
            j <= terms@.len(),
            views(vocab@) == add_terms(v0, views(terms@).take(j as int)),
        decreases terms@.len() - j,
    {
        let ghost tv = views(terms@).take(j + 1);
        proof {
            assert(tv.drop_last() =~= views(terms@).take(j as int));
            assert(tv.last() == terms@[j as int]@);
        }
        let t1 = trim_vec(&terms[j]);
        let t2 = trim_end_char_vec(&t1, ':');
        let c = trim_vec(&t2);
        let n = byte_len_vec(&c);
        if 3 <= n && n <= 40 && !known_term_exec(vocab, &c) {
            proof {
                lemma_views_push(vocab@, c);
            }
            vocab.push(c);
        }
        j += 1;
    }
    assert(views(terms@).take(terms@.len() as int) =~= views(terms@));
}

/// Pull (title, summary, vocab) out of a markdown body.
pub fn extract(text: &str, fallback_name: &str) -> (r: (String, String, String))
    ensures
        r.0@ == extract_spec(text@, fallback_name@).0,
        r.1@ == extract_spec(text@, fallback_name@).1,
        r.2@ == extract_spec(text@, fallback_name@).2,
{
    let tv = chars_of(text);
    let lines = lines_vec(&tv);
    let ghost ls = lines_seq(text@);
    let mut title: Vec<char> = Vec::new();
    let mut summary: Vec<char> = Vec::new();
    let mut vocab: Vec<Vec<char>> = Vec::new();
    let mut in_fence = false;
    let mut i: usize = 0;
    proof {
        assert(ls.take(0) =~= Seq::<Seq<char>>::empty());
        assert(views(vocab@) =~= Seq::<Seq<char>>::empty());
    }
    while i < lines.len()
        invariant
            views(lines@) == ls,
            ls == lines_seq(text@),
            i <= lines@.len(),
            ex_scan(ls.take(i as int)) == (ExState {
                title: title@,
                summary: summary@,
                vocab: views(vocab@),
                in_fence,
            }),
        decreases lines@.len() - i,
    {
        proof {
            reveal_strlit("```");
            reveal_strlit("# ");
            reveal_strlit("#");
            reveal_strlit("|");
            reveal_strlit("-");
            reveal_strlit("*");
            reveal_strlit(">");
            reveal_strlit("**");
            reveal_strlit("---");
            assert(ls.take(i + 1).drop_last() =~= ls.take(i as int));
            assert(ls.take(i + 1).last() == lines@[i as int]@);
        }
        let t = trim_vec(&lines[i]);
        if starts_with_str(&t, "```") {
            in_fence = !in_fence;
        } else if in_fence {
        } else if title.len() == 0 && starts_with_str(&t, "# ") {
            let h = sub_vec(&t, 2, t.len());
            title = trim_vec(&h);
        } else {
            let spans = bold_span_vecs(&t);
            add_terms_exec(&mut vocab, &spans);
            if summary.len() == 0 && t.len() > 0 && !starts_with_str(&t, "#") && !starts_with_str(
                &t,
                "|",
            ) && !starts_with_str(&t, "-") && !starts_with_str(&t, "*") && !starts_with_str(
                &t,
                ">",
            ) && !starts_with_str(&t, "**") && !starts_with_str(&t, "---") {
                summary = t;
            }
        }
        i += 1;
    }
    proof {
        assert(ls.take(lines@.len() as int) =~= ls);
    }
    let title_s = if title.len() == 0 {
        fallback_name.to_owned()
    } else {
        string_of(&title)
    };
    let summary_s = if byte_len_vec(&summary) > 240 {
        let k = chars_within_exec(&summary, 237);
        let mut cut = sub_vec(&summary, 0, k);
        extend_str(&mut cut, "…");
        assert(cut@ =~= summary@.take(k as int) + "…"@);
        string_of(&cut)
    } else {
        string_of(&summary)
    };
    let kept = if vocab.len() > 14 {
        let mut k: Vec<Vec<char>> = Vec::new();
        let mut j: usize = 0;
        while j < 14
            invariant
                j <= 14 < vocab@.len(),
                views(k@) == views(vocab@).take(j as int),
            decreases 14 - j,
        {
            let x = sub_vec(&vocab[j], 0, vocab[j].len());
            proof {
                assert(x@ =~= vocab@[j as int]@);
                lemma_views_push(k@, x);
                assert(views(vocab@).take(j + 1) =~= views(vocab@).take(j as int).push(
                    vocab@[j as int]@,
                ));
            }
            k.push(x);
            j += 1;
        }
        k
    } else {
        vocab
    };
    let joined = join_vecs(&kept, ", ");
    (title_s, summary_s, string_of(&joined))
}

/// Searching a suffix of `s` finds what searching `s` from the suffix's start
/// finds, shifted.
pub proof fn lemma_find_in_suffix(s: Seq<char>, p: Seq<char>, k: int)
    requires
        0 <= k <= s.len(),
    ensures
        find_seq(s.subrange(k, s.len() as int), p) matches Some(i) ==> find_from(s, p, k)
            == Some(i + k),
        find_seq(s.subrange(k, s.len() as int), p) is None ==> find_from(s, p, k) is None,
{
    lemma_find_suffix_from(s, p, k, 0);
}

proof fn lemma_find_suffix_from(s: Seq<char>, p: Seq<char>, k: int, i: int)
    requires
        0 <= k <= s.len(),
        0 <= i,
    ensures
        find_from(s.subrange(k, s.len() as int), p, i) matches Some(j) ==> find_from(s, p, k + i)
            == Some(j + k),
        find_from(s.subrange(k, s.len() as int), p, i) is None ==> find_from(s, p, k + i) is None,
    decreases s.len() + 1 - k - i,
{
    let t = s.subrange(k, s.len() as int);
    if i + p.len() > t.len() {
    } else {
        assert(t.subrange(i, i + p.len()) =~= s.subrange(k + i, k + i + p.len()));
        if matches_at(t, p, i) {
        } else {
            lemma_find_suffix_from(s, p, k, i + 1);
            assert(k + i + 1 == k + (i + 1));
        }
    }
}

} // verus!
