//! Model-name matching and URL encoding for talking to a running ComfyUI.
//!
//! A workflow names its model by whatever filename its author had; the same
//! model is often installed under another name. Filenames are compared by their
//! significant tokens (camelCase / letter-digit aware), and the installed file
//! sharing the most tokens (at least 3) is taken as the same model.
use vstd::prelude::*;
use crate::text::{
    is_alpha, is_alnum, is_digit, is_lower, is_upper, lower_seq, views, ascii_alnum, ascii_alpha,
    ascii_digit, ascii_lower, ascii_upper, chars_of, chars_eq, lower_vec, push_char,
    lemma_views_push, contains_seq, contains_str,
};

use crate::wfgraph::{after_last_sep, base_name};

verus! {

// ---------------------------------------------------------------------------
// Percent-encoding
// ---------------------------------------------------------------------------

/// Bytes that stay as they are in a URL query value.
pub open spec fn is_unreserved(b: u8) -> bool {
    (0x41 <= b <= 0x5A) || (0x61 <= b <= 0x7A) || (0x30 <= b <= 0x39) || b == 0x2D || b == 0x5F
        || b == 0x2E || b == 0x7E
}

/// The uppercase hexadecimal digit for `n < 16`.
pub open spec fn hex_digit(n: u8) -> char {
    if n < 10 {
        ((n + 48) as u8) as char
    } else {
        ((n + 55) as u8) as char
    }
}

/// The encoding of one byte: itself, or `%` and two uppercase hex digits.
pub open spec fn enc_byte(b: u8) -> Seq<char> {
    if is_unreserved(b) {
        seq![b as char]
    } else {
        seq!['%', hex_digit(b / 16), hex_digit(b % 16)]
    }
}

/// The percent-encoding of a byte string.
pub open spec fn enc_bytes(bs: Seq<u8>) -> Seq<char>
    decreases bs.len(),
{
    if bs.len() == 0 {
        seq![]
    } else {
        enc_bytes(bs.drop_last()) + enc_byte(bs.last())
    }
}

fn hex(n: u8) -> (c: char)
    requires
        n < 16,
    ensures
        c == hex_digit(n),
{
    if n < 10 {
        (n + 48) as char
    } else {
        (n + 55) as char
    }
}

/// Percent-encode a string for use as a URL query value: the UTF-8 bytes of
/// `s`, with all but `A-Z a-z 0-9 - _ . ~` written as `%XX`.
pub fn enc(s: &str) -> (o: String)
    ensures
        o@ == enc_bytes(vstd::utf8::encode_utf8(s@)),
{
    let bytes = s.as_bytes();
    let mut o = String::new();
    let mut i: usize = 0;
    while i < bytes.len()
        invariant
            i <= bytes@.len(),
            bytes@ == vstd::utf8::encode_utf8(s@),
            o@ == enc_bytes(bytes@.take(i as int)),
        decreases bytes@.len() - i,
    {
        let b = bytes[i];
        let keep = (0x41 <= b && b <= 0x5A) || (0x61 <= b && b <= 0x7A) || (0x30 <= b && b <= 0x39)
            || b == 0x2D || b == 0x5F || b == 0x2E || b == 0x7E;
        if keep {
            push_char(&mut o, b as char);
        } else {
            push_char(&mut o, '%');
            push_char(&mut o, hex(b / 16));
            push_char(&mut o, hex(b % 16));
        }
        assert(bytes@.take(i + 1).drop_last() =~= bytes@.take(i as int));
        assert(o@ =~= enc_bytes(bytes@.take(i as int)) + enc_byte(b));
        i += 1;
    }
    assert(bytes@.take(bytes@.len() as int) =~= bytes@);
    o
}

/// The value of a hexadecimal digit, either case.
pub open spec fn hex_value(c: char) -> Option<int> {
    if '0' <= c <= '9' {
        Some(c as int - 48)
    } else if 'A' <= c <= 'F' {
        Some(c as int - 55)
    } else if 'a' <= c <= 'f' {
        Some(c as int - 87)
    } else {
        None
    }
}

/// Percent-decoding of a URL query value: `%XX` is the byte `XX`, any other
/// ASCII character is its own byte; a broken escape or a non-ASCII character
/// makes the text undecodable.
pub open spec fn percent_decode(t: Seq<char>) -> Option<Seq<u8>>
    decreases t.len(),
{
    if t.len() == 0 {
        Some(seq![])
    } else if t[0] == '%' {
        if t.len() < 3 {
            None
        } else {
            match (hex_value(t[1]), hex_value(t[2]), percent_decode(t.skip(3))) {
                (Some(h), Some(l), Some(rest)) => Some(seq![(h * 16 + l) as u8] + rest),
                _ => None,
            }
        }
    } else if (t[0] as int) < 128 {
        match percent_decode(t.skip(1)) {
            Some(rest) => Some(seq![t[0] as u8] + rest),
            None => None,
        }
    } else {
        None
    }
}

/// The characters an encoded value is made of.
pub open spec fn in_url_alphabet(c: char) -> bool {
    ('A' <= c <= 'Z') || ('a' <= c <= 'z') || ('0' <= c <= '9') || c == '-' || c == '_' || c == '.'
        || c == '~' || c == '%'
}

proof fn lemma_enc_bytes_append(a: Seq<u8>, b: Seq<u8>)
    ensures
        enc_bytes(a + b) == enc_bytes(a) + enc_bytes(b),
    decreases b.len(),
{
    if b.len() == 0 {
        assert(a + b =~= a);
        assert(enc_bytes(a) + enc_bytes(b) =~= enc_bytes(a));
    } else {
        assert((a + b).drop_last() =~= a + b.drop_last());
        lemma_enc_bytes_append(a, b.drop_last());
        assert(enc_bytes(a) + enc_bytes(b) =~= enc_bytes(a) + enc_bytes(b.drop_last()) + enc_byte(b.last()));
    }
}

proof fn lemma_enc_bytes_front(bs: Seq<u8>)
    requires
        bs.len() > 0,
    ensures
        enc_bytes(bs) == enc_byte(bs[0]) + enc_bytes(bs.drop_first()),
{
    assert(bs =~= seq![bs[0]] + bs.drop_first());
    lemma_enc_bytes_append(seq![bs[0]], bs.drop_first());
    let one = seq![bs[0]];
    assert(one.drop_last() =~= Seq::<u8>::empty());
    assert(one.last() == bs[0]);
    assert(enc_bytes(one.drop_last()) =~= Seq::<char>::empty());
    assert(enc_bytes(one) =~= enc_byte(bs[0]));
}

proof fn lemma_hex_roundtrip(n: u8)
    requires
        n < 16,
    ensures
        hex_value(hex_digit(n)) == Some(n as int),
        hex_digit(n) != '%',
        in_url_alphabet(hex_digit(n)),
{
}

/// Decoding an encoded value gives back its bytes, and the encoding uses
/// nothing but unreserved characters and `%XX` escapes: `%` never stands for
/// itself.
pub proof fn law_enc_decodes(bs: Seq<u8>)
    ensures
        percent_decode(enc_bytes(bs)) == Some(bs),
        forall|i: int| 0 <= i < enc_bytes(bs).len() ==> in_url_alphabet(#[trigger] enc_bytes(bs)[i]),
    decreases bs.len(),
{
    if bs.len() > 0 {
        let b = bs[0];
        let tail = bs.drop_first();
        lemma_enc_bytes_front(bs);
        law_enc_decodes(tail);
        let t = enc_bytes(bs);
        if is_unreserved(b) {
            assert(t.skip(1) =~= enc_bytes(tail));
            assert((b as char) as u8 == b);
        } else {
            lemma_hex_roundtrip(b / 16);
            lemma_hex_roundtrip(b % 16);
            assert(t.skip(3) =~= enc_bytes(tail));
            assert(((b / 16) as int * 16 + (b % 16) as int) as u8 == b);
        }
        assert(seq![b] + tail =~= bs);
        assert forall|i: int| 0 <= i < t.len() implies in_url_alphabet(#[trigger] t[i]) by {
            if i >= enc_byte(b).len() {
                assert(t[i] == enc_bytes(tail)[i - enc_byte(b).len()]);
            }
        }
    }
}

// ---------------------------------------------------------------------------
// Filename tokens
// ---------------------------------------------------------------------------

/// The last index of `c` in `s`.
pub open spec fn last_index_of(s: Seq<char>, c: char) -> Option<int>
    decreases s.len(),
{
    if s.len() == 0 {
        None
    } else if s.last() == c {
        Some(s.len() - 1)
    } else {
        last_index_of(s.drop_last(), c)
    }
}

pub proof fn lemma_last_index_of_bound(s: Seq<char>, c: char)
    ensures
        last_index_of(s, c) matches Some(i) ==> 0 <= i < s.len(),
    decreases s.len(),
{
    if s.len() > 0 && s.last() != c {
        lemma_last_index_of_bound(s.drop_last(), c);
    }
}

/// The last index of `c` in `v`.
pub fn last_index_of_exec(v: &Vec<char>, c: char) -> (r: Option<usize>)
    ensures
        r matches Some(k) ==> last_index_of(v@, c) == Some(k as int),
        r is None ==> last_index_of(v@, c) is None,
{
    let mut k = v.len();
    assert(v@.subrange(0, k as int) =~= v@);
    while k > 0
        invariant
            k <= v.len(),
            last_index_of(v@, c) == last_index_of(v@.subrange(0, k as int), c),
        decreases k,
    {
        if v[k - 1] == c {
            return Some(k - 1);
        }
        assert(v@.subrange(0, k as int).drop_last() =~= v@.subrange(0, k - 1));
        k -= 1;
    }
    None
}

/// The part of a filename before its last `.` (all of it if it has none).
pub open spec fn stem_of(name: Seq<char>) -> Seq<char> {
    match last_index_of(name, '.') {
        Some(i) => name.subrange(0, i),
        None => name,
    }
}

/// The character after the current one is an ASCII capital.
pub open spec fn upper_next(next: Option<char>) -> bool {
    match next {
        Some(n) => is_upper(n),
        None => false,
    }
}

/// A token boundary between adjacent alphanumerics `p` and `c` (`next` is
/// the character after `c`, if any): letter->digit, digit->letter, and
/// lower->Upper unless the capital starts a run of capitals (`noCLIP` stays
/// one token, `FluxAsian` splits).
pub open spec fn is_boundary(p: char, c: char, next: Option<char>) -> bool {
    (is_lower(p) && is_upper(c) && !upper_next(next)) || (is_alpha(p) && is_digit(c)) || (is_digit(p)
        && is_alpha(c))
}

/// Scanner state: the token being built, the previous alphanumeric character
/// (none right after a separator), and the tokens found so far (lowercased,
/// each once, in order of first appearance).
pub struct TokScan {
    pub cur: Seq<char>,
    pub prev: Option<char>,
    pub out: Seq<Seq<char>>,
}

/// Ends the current token, keeping it if it has at least 3 characters.
pub open spec fn tok_flush(st: TokScan) -> TokScan {
    let out = if st.cur.len() >= 3 && !st.out.contains(lower_seq(st.cur)) {
        st.out.push(lower_seq(st.cur))
    } else {
        st.out
    };
    TokScan { cur: seq![], prev: st.prev, out }
}

/// Feeds one character to the scanner (`next` is the character after it).
pub open spec fn tok_step(st: TokScan, ch: char, next: Option<char>) -> TokScan {
    if !is_alnum(ch) {
        TokScan { prev: None, ..tok_flush(st) }
    } else {
        let st2 = match st.prev {
            Some(p) => if is_boundary(p, ch, next) {
                tok_flush(st)
            } else {
                st
            },
            None => st,
        };
        TokScan { cur: st2.cur.push(ch), prev: Some(ch), out: st2.out }
    }
}

/// The scanner state after feeding the first `n` characters of `s`.
pub open spec fn tok_scan(s: Seq<char>, n: int) -> TokScan
    decreases n,
{
    if n <= 0 {
        TokScan { cur: seq![], prev: None, out: seq![] }
    } else {
        tok_step(tok_scan(s, n - 1), s[n - 1], if n < s.len() { Some(s[n]) } else { None })
    }
}

/// The significant tokens of a model filename: the stem split on
/// non-alphanumerics and at camelCase / letter-digit boundaries, lowercased,
/// keeping tokens of at least 3 characters; each token once, in order.
pub open spec fn tokens_spec(name: Seq<char>) -> Seq<Seq<char>> {
    tok_flush(tok_scan(stem_of(name), stem_of(name).len() as int)).out
}

/// A set of filename tokens.
pub struct TokenSet {
    items: Vec<Vec<char>>,
}

impl View for TokenSet {
    type V = Seq<Seq<char>>;

    closed spec fn view(&self) -> Seq<Seq<char>> {
        views(self.items@)
    }
}

impl TokenSet {
    /// `w` is one of the tokens.
    pub fn contains(&self, w: &str) -> (r: bool)
        ensures
            r == self@.contains(w@),
    {
        let wv = chars_of(w);
        self.contains_chars(&wv)
    }

    fn contains_chars(&self, w: &Vec<char>) -> (r: bool)
        ensures
            r == self@.contains(w@),
    {
        let mut i: usize = 0;
        while i < self.items.len()
            invariant
                i <= self.items@.len(),
                forall|j: int| 0 <= j < i ==> self@[j] != w@,
            decreases self.items@.len() - i,
        {
            if chars_eq(&self.items[i], w) {
                assert(self@[i as int] == w@);
                return true;
            }
            i += 1;
        }
        false
    }

    /// The number of tokens.
    pub fn len(&self) -> (n: usize)
        ensures
            n == self@.len(),
    {
        self.items.len()
    }

    /// There are no tokens.
    pub fn is_empty(&self) -> (r: bool)
        ensures
            r == (self@.len() == 0),
    {
        self.items.len() == 0
    }

    /// The number of tokens of `self` that are also in `other`.
    pub fn shared_count(&self, other: &TokenSet) -> (n: usize)
        ensures
            n == shared(self@, other@),
    {
        let mut n: usize = 0;
        let mut i: usize = 0;
        while i < self.items.len()
            invariant
                i <= self.items@.len(),
                n == shared(self@.take(i as int), other@),
                n <= i,
            decreases self.items@.len() - i,
        {
            let hit = other.contains_chars(&self.items[i]);
            proof {
                lemma_shared_push(self@.take(i as int), self@[i as int], other@);
                assert(self@.take(i + 1) =~= self@.take(i as int).push(self@[i as int]));
            }
            if hit {
                n += 1;
            }
            i += 1;
        }
        assert(self@.take(self@.len() as int) =~= self@);
        n
    }
}

/// How many of the tokens `a` are among the tokens `b` (for distinct tokens:
/// the size of the intersection).
pub open spec fn shared(a: Seq<Seq<char>>, b: Seq<Seq<char>>) -> nat {
    a.filter(|t: Seq<char>| b.contains(t)).len()
}

pub proof fn lemma_shared_push(a: Seq<Seq<char>>, t: Seq<char>, b: Seq<Seq<char>>)
    ensures
        shared(a.push(t), b) == shared(a, b) + (if b.contains(t) {
            1nat
        } else {
            0nat
        }),
{
    let f = |x: Seq<char>| b.contains(x);
    assert(a.push(t).drop_last() =~= a);
    reveal_with_fuel(Seq::filter, 1);
}

/// Ends the current token of the scanner (exec side of `tok_flush`).
fn flush(cur: &mut Vec<char>, out: &mut Vec<Vec<char>>)
    ensures
        final(cur)@ == Seq::<char>::empty(),
        views(final(out)@) == tok_flush(TokScan { cur: old(cur)@, prev: None, out: views(old(out)@) }).out,
{
    if cur.len() >= 3 {
        let low = lower_vec(cur);
        let set = TokenSet { items: out.clone() };
        proof {
            assert(set@ == views(old(out)@));
        }
        if !set.contains_chars(&low) {
            proof {
                lemma_views_push(out@, low);
            }
            out.push(low);
        }
    }
    *cur = Vec::new();
}

/// Tokenize a model filename into significant lowercase tokens, splitting on
/// non-alphanumerics AND camelCase / letter-digit boundaries, keeping tokens of
/// length >= 3. Lets us recognize the SAME model under a different filename:
/// "2758FluxAsianUtopian_v51KreaFp8Noclip.safetensors" and
/// "2758_hinaAsianFlux1-krea-dev_v51-fp8_noCLIP.safetensors" share
/// {2758, asian, flux, krea, noclip}.
pub fn tokens(name: &str) -> (t: TokenSet)
    ensures
        t@ == tokens_spec(name@),
        t@.no_duplicates(),
{
    let v = chars_of(name);
    // stem: everything before the last '.'
    let end = match last_index_of_exec(&v, '.') {
        Some(k) => k,
        None => v.len(),
    };
    proof {
        lemma_last_index_of_bound(v@, '.');
    }
    let ghost stem = v@.subrange(0, end as int);
    assert(stem == stem_of(v@)) by {
        lemma_last_index_of_bound(v@, '.');
        if last_index_of(v@, '.') is None {
            assert(stem =~= v@);
        }
    }
    let mut cur: Vec<char> = Vec::new();
    let mut prev: Option<char> = None;
    let mut out: Vec<Vec<char>> = Vec::new();
    let mut i: usize = 0;
    proof {
        assert(views(out@) =~= Seq::<Seq<char>>::empty());
        assert(cur@ =~= Seq::<char>::empty());
    }
    while i < end
        invariant
            end <= v.len(),
            i <= end,
            stem == v@.subrange(0, end as int),
            tok_scan(stem, i as int) == (TokScan { cur: cur@, prev, out: views(out@) }),
            views(out@).no_duplicates(),
        decreases end - i,
    {
        let ch = v[i];
        let next: Option<char> = if i + 1 < end { Some(v[i + 1]) } else { None };
        assert(stem[i as int] == ch);
        assert(next == (if i + 1 < stem.len() { Some(stem[i + 1]) } else { None::<char> }));
        if !ascii_alnum(ch) {
            flush(&mut cur, &mut out);
            prev = None;
        } else {
            match prev {
                Some(p) => {
                    let upper_after = match next {
                        Some(n) => ascii_upper(n),
                        None => false,
                    };
                    let boundary = (ascii_lower(p) && ascii_upper(ch) && !upper_after) || (ascii_alpha(p)
                        && ascii_digit(ch)) || (ascii_digit(p) && ascii_alpha(ch));
                    if boundary {
                        flush(&mut cur, &mut out);
                    }
                },
                None => {},
            }
            cur.push(ch);
            prev = Some(ch);
        }
        i += 1;
    }
    flush(&mut cur, &mut out);
    TokenSet { items: out }
}

/// The number of significant tokens candidate `c` shares with `want`.
pub open spec fn match_score(want: Seq<Seq<char>>, c: Seq<char>) -> nat {
    shared(tokens_spec(c), want)
}

/// Best name match for `wanted` among `candidates` by shared-token count, requiring
/// >= 3 shared significant tokens so a false match is unlikely. Among equal
/// scores the first candidate wins.
pub fn best_match(wanted: &str, candidates: &[String]) -> (r: Option<String>)
    ensures
        r is None <==> (forall|j: int|
            0 <= j < candidates@.len() ==> match_score(tokens_spec(wanted@), #[trigger] candidates@[j]@)
                < 3),
        r matches Some(c) ==> exists|i: int|
            0 <= i < candidates@.len() && c@ == candidates@[i]@ && match_score(
                tokens_spec(wanted@),
                candidates@[i]@,
            ) >= 3 && (forall|j: int|
                0 <= j < candidates@.len() ==> match_score(tokens_spec(wanted@), #[trigger] candidates@[j]@)
                    <= match_score(tokens_spec(wanted@), candidates@[i]@)) && (forall|j: int|
                0 <= j < i ==> match_score(tokens_spec(wanted@), #[trigger] candidates@[j]@)
                    < match_score(tokens_spec(wanted@), candidates@[i]@)),
{
    let want = tokens(wanted);
    let ghost w = tokens_spec(wanted@);
    if want.is_empty() {
        assert forall|j: int| 0 <= j < candidates@.len() implies match_score(
            w,
            #[trigger] candidates@[j]@,
        ) < 3 by {
            assert(tokens_spec(candidates@[j]@).filter(|t: Seq<char>| w.contains(t)).len() == 0)
                by {
                let f = |t: Seq<char>| w.contains(t);
                tokens_spec(candidates@[j]@).lemma_all_neg_filter_empty(f);
            }
        }
        return None;
    }
    let mut best: Option<(usize, usize)> = None;  // (score, index)
    let mut i: usize = 0;
    while i < candidates.len()
        invariant
            i <= candidates@.len(),
            want@ == w,
            best is None ==> (forall|j: int|
                0 <= j < i ==> match_score(w, #[trigger] candidates@[j]@) < 3),
            best matches Some(b) ==> b.1 < i && b.0 == match_score(w, candidates@[b.1 as int]@)
                && b.0 >= 3 && (forall|j: int|
                0 <= j < i ==> match_score(w, #[trigger] candidates@[j]@) <= b.0) && (forall|j: int|
                0 <= j < b.1 ==> match_score(w, #[trigger] candidates@[j]@) < b.0),
        decreases candidates@.len() - i,
    {
        let tc = tokens(candidates[i].as_str());
        let score = tc.shared_count(&want);
        let better = match best {
            Some((s, _)) => score > s,
            None => true,
        };
        if score >= 3 && better {
            best = Some((score, i));
        }
        i += 1;
    }
    match best {
        Some((_, idx)) => Some(candidates[idx].clone()),
        None => None,
    }
}

// ---------------------------------------------------------------------------
// Loader classes
// ---------------------------------------------------------------------------

/// (object_info node, input field, vault/NVMe subdirs) for a loader class:
/// any `*CheckpointLoader*` class and `UNETLoader`.
pub fn loader_info(class_type: &str) -> (r: Option<(&'static str, &'static str, Vec<&'static str>)>)
    ensures
        contains_seq(class_type@, "CheckpointLoader"@) ==> (r matches Some(x) && x.0@
            == "CheckpointLoaderSimple"@ && x.1@ == "ckpt_name"@ && x.2@.len() == 1 && x.2@[0]@
            == "checkpoints"@),
        !contains_seq(class_type@, "CheckpointLoader"@) && class_type@ == "UNETLoader"@ ==> (r matches Some(x)
            && x.0@ == "UNETLoader"@ && x.1@ == "unet_name"@ && x.2@.len() == 2 && x.2@[0]@
            == "diffusion_models"@ && x.2@[1]@ == "unet"@),
        !contains_seq(class_type@, "CheckpointLoader"@) && class_type@ != "UNETLoader"@ ==> r is None,
{
    let ct = chars_of(class_type);
    if contains_str(&ct, "CheckpointLoader") {
        Some(("CheckpointLoaderSimple", "ckpt_name", vec!["checkpoints"]))
    } else if chars_eq(&ct, &chars_of("UNETLoader")) {
        Some(("UNETLoader", "unet_name", vec!["diffusion_models", "unet"]))
    } else {
        None
    }
}


// ---------------------------------------------------------------------------
// Resolving a workflow's model and opening it in ComfyUI
// ---------------------------------------------------------------------------

/// What the installed models say about a workflow's model reference: keep it
/// (`Some(None)`, it is installed under that very name), rename it to the
/// installed file that best matches (`Some(Some(name))`, see
/// [`best_match`]), or look further (`None`).
pub fn installed_choice(wanted: &str, installed: &Vec<String>) -> (r: Option<Option<String>>)
    ensures
        (exists|i: int| 0 <= i < installed@.len() && (#[trigger] installed@[i])@ == wanted@) ==> r == Some(None::<String>),
        !(exists|i: int| 0 <= i < installed@.len() && (#[trigger] installed@[i])@ == wanted@)
            && (exists|i: int| 0 <= i < installed@.len() && (#[trigger] installed@[i])@ == after_last_sep(wanted@))
            ==> (r matches Some(Some(m)) && m@ == after_last_sep(wanted@)),
        !(exists|i: int| 0 <= i < installed@.len() && (#[trigger] installed@[i])@ == wanted@)
            && !(exists|i: int| 0 <= i < installed@.len() && (#[trigger] installed@[i])@ == after_last_sep(wanted@))
            ==> match r {
            Some(Some(m)) => exists|i: int|
                0 <= i < installed@.len() && m@ == installed@[i]@ && match_score(tokens_spec(wanted@), installed@[i]@) >= 3
                    && (forall|j: int| 0 <= j < installed@.len() ==> match_score(tokens_spec(wanted@), #[trigger] installed@[j]@)
                    <= match_score(tokens_spec(wanted@), installed@[i]@))
                    && (forall|j: int| 0 <= j < i ==> match_score(tokens_spec(wanted@), #[trigger] installed@[j]@)
                    < match_score(tokens_spec(wanted@), installed@[i]@)),
            Some(None) => false,
            None => forall|j: int| 0 <= j < installed@.len() ==> match_score(tokens_spec(wanted@), #[trigger] installed@[j]@) < 3,
        },
{
    let wv = chars_of(wanted);
    let mut i: usize = 0;
    while i < installed.len()
        invariant
            i <= installed@.len(),
            wv@ == wanted@,
            forall|j: int| 0 <= j < i ==> (#[trigger] installed@[j])@ != wanted@,
        decreases installed@.len() - i,
    {
        if chars_eq(&chars_of(installed[i].as_str()), &wv) {
            return Some(None);
        }
        i += 1;
    }
    // the file name without the author's folders, matched exactly
    let base = chars_of(base_name(wanted).as_str());
    let mut k: usize = 0;
    while k < installed.len()
        invariant
            k <= installed@.len(),
            base@ == after_last_sep(wanted@),
            forall|j: int| 0 <= j < installed@.len() ==> (#[trigger] installed@[j])@ != wanted@,
            forall|j: int| 0 <= j < k ==> (#[trigger] installed@[j])@ != after_last_sep(wanted@),
        decreases installed@.len() - k,
    {
        if chars_eq(&chars_of(installed[k].as_str()), &base) {
            return Some(Some(installed[k].clone()));
        }
        k += 1;
    }
    match best_match(wanted, installed.as_slice()) {
        Some(m) => Some(Some(m)),
        None => None,
    }
}

/// The extensions of model files looked for in the vault.
pub open spec fn vault_model_ext(e: Seq<char>) -> bool {
    e == "safetensors"@ || e == "ckpt"@ || e == "gguf"@ || e == "sft"@ || e == "pt"@ || e == "pth"@
}

/// `ext` is the extension of a model file the vault search considers.
pub fn is_vault_model_ext(ext: &str) -> (r: bool)
    ensures
        r == vault_model_ext(ext@),
{
    let e = chars_of(ext);
    chars_eq(&e, &chars_of("safetensors")) || chars_eq(&e, &chars_of("ckpt")) || chars_eq(&e, &chars_of("gguf"))
        || chars_eq(&e, &chars_of("sft")) || chars_eq(&e, &chars_of("pt")) || chars_eq(&e, &chars_of("pth"))
}

/// A text percent-encoded as a URL query value.
pub open spec fn enc_spec(s: Seq<char>) -> Seq<char> {
    enc_bytes(vstd::utf8::encode_utf8(s))
}

/// The ComfyUI `/api/view` path of an uploaded image.
pub open spec fn view_path_spec(name: Seq<char>, typ: Seq<char>, subfolder: Seq<char>) -> Seq<char> {
    "/api/view?filename="@ + enc_spec(name) + "&type="@ + enc_spec(typ) + "&subfolder="@ + enc_spec(subfolder)
}

/// The ComfyUI `/api/view` path of an uploaded image, its parts encoded.
pub fn view_path(name: &str, typ: &str, subfolder: &str) -> (r: String)
    ensures
        r@ == view_path_spec(name@, typ@, subfolder@),
{
    let mut v = chars_of("/api/view?filename=");
    crate::text::extend_chars(&mut v, &chars_of(enc(name).as_str()));
    crate::text::extend_str(&mut v, "&type=");
    crate::text::extend_chars(&mut v, &chars_of(enc(typ).as_str()));
    crate::text::extend_str(&mut v, "&subfolder=");
    crate::text::extend_chars(&mut v, &chars_of(enc(subfolder).as_str()));
    assert(v@ =~= view_path_spec(name@, typ@, subfolder@));
    crate::text::string_of(&v)
}

/// The address that opens an uploaded image's workflow in the ComfyUI at
/// `base`: a single `synflow` parameter carrying the view path (the bridge
/// reads the workflow from the file the view path names).
pub open spec fn comfy_open_url_spec(base: Seq<char>, view: Seq<char>) -> Seq<char> {
    base + "/?synflow="@ + enc_spec(view)
}

/// The address that opens an uploaded image's workflow in ComfyUI.
pub fn comfy_open_url(base: &str, view: &str) -> (r: String)
    ensures
        r@ == comfy_open_url_spec(base@, view@),
{
    let mut v = chars_of(base);
    crate::text::extend_str(&mut v, "/?synflow=");
    crate::text::extend_chars(&mut v, &chars_of(enc(view).as_str()));
    assert(v@ =~= comfy_open_url_spec(base@, view@));
    crate::text::string_of(&v)
}

} // verus!
