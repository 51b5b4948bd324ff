//! Text rules of the A1111 `parameters` format: model-name extensions, prompt
//! tidying after inline tags are removed, splitting the settings line, and the
//! mapping of A1111 sampler / schedule labels to ComfyUI names.
use vstd::prelude::*;
use crate::text::{
    chars_of, contains_seq, contains_str, ends_with_seq, ends_with_str, extend_chars,
    find_from, find_from_exec, find_seq, is_ws, is_whitespace, join_seq, join_vecs,
    lemma_find_from_bounds, lemma_views_push, lines_seq, lines_vec, lower_seq, lower_vec,
    string_of, sub_vec, to_lowercase, trim_bounds, trim_char_seq, trim_char_vec, trim_seq,
    trim_start_seq, trim_vec, unicode_lowercase, views, matches_at, index_of_char_from,
    index_of_char_exec, lemma_index_of_char_from, eq_ignore_case, extend_str, find_exec,
    int_text, push_int, str_eq,
};
use crate::lore::lemma_find_in_suffix;

verus! {

// ---------------------------------------------------------------------------
// Model names
// ---------------------------------------------------------------------------

/// The model-file extensions ComfyUI loads.
pub open spec fn model_exts() -> Seq<Seq<char>> {
    seq![".safetensors"@, ".ckpt"@, ".gguf"@, ".sft"@, ".pt"@, ".pth"@, ".bin"@]
}

/// `name` ends (ignoring ASCII case) with a loadable model extension.
pub open spec fn has_model_ext(name: Seq<char>) -> bool {
    exists|i: int| 0 <= i < model_exts().len() && ends_with_seq(lower_seq(name), #[trigger] model_exts()[i])
}

/// Ensure a bare model name carries a loadable extension (A1111 writes `foo`,
/// ComfyUI's dropdown lists `foo.safetensors`). Left as-is if it already has one.
pub fn with_ext(name: &str) -> (r: String)
    ensures
        has_model_ext(name@) ==> r@ == name@,
        !has_model_ext(name@) ==> r@ == name@ + ".safetensors"@,
{
    let low = lower_vec(&chars_of(name));
    let exts = [".safetensors", ".ckpt", ".gguf", ".sft", ".pt", ".pth", ".bin"];
    let mut i: usize = 0;
    while i < 7
        invariant
            i <= 7,
            low@ == lower_seq(name@),
            exts@.len() == 7,
            forall|k: int| 0 <= k < 7 ==> (#[trigger] exts@[k])@ == model_exts()[k],
            forall|k: int| 0 <= k < i ==> !ends_with_seq(low@, #[trigger] model_exts()[k]),
        decreases 7 - i,
    {
        if ends_with_str(&low, exts[i]) {
            return name.to_owned();
        }
        i += 1;
    }
    let mut v = chars_of(name);
    let ext = chars_of(".safetensors");
    extend_chars(&mut v, &ext);
    string_of(&v)
}

// ---------------------------------------------------------------------------
// Tidying a prompt
// ---------------------------------------------------------------------------

/// The first index of a whitespace character of `s` at or after `i`.
pub open spec fn ws_from(s: Seq<char>, i: int) -> int
    decreases s.len() - i,
{
    if i < 0 || i >= s.len() {
        s.len() as int
    } else if is_ws(s[i]) {
        i
    } else {
        ws_from(s, i + 1)
    }
}

/// `str::split_whitespace`: the maximal runs of non-whitespace characters.
pub open spec fn words(s: Seq<char>) -> Seq<Seq<char>>
    decreases s.len(),
{
    let t = trim_start_seq(s);
    if t.len() == 0 {
        seq![]
    } else {
        let e = ws_from(t, 0);
        if 0 < e <= t.len() && t.len() <= s.len() {
            seq![t.subrange(0, e)] + words(t.subrange(e, t.len() as int))
        } else {
            seq![]
        }
    }
}

/// `str::replace(p, q)`: every non-overlapping occurrence of `p`, from the
/// left, replaced by `q`.
pub open spec fn replace_seq(s: Seq<char>, p: Seq<char>, q: Seq<char>) -> Seq<char>
    decreases s.len(),
{
    if p.len() == 0 {
        s
    } else {
        match find_seq(s, p) {
            Some(i) => if 0 <= i && i + p.len() <= s.len() {
                s.subrange(0, i) + q + replace_seq(s.subrange(i + p.len(), s.len() as int), p, q)
            } else {
                s
            },
            None => s,
        }
    }
}

/// One tidied line: whitespace runs collapsed to single spaces, then `" ,"`
/// and `",,"` replaced by `","`.
pub open spec fn tidy_line(line: Seq<char>) -> Seq<char> {
    replace_seq(replace_seq(join_seq(words(line), " "@), " ,"@, ","@), ",,"@, ","@)
}

/// Collapses the doubled spaces / stray commas a removed tag leaves behind,
/// per line, then trims whitespace and commas from the ends.
pub open spec fn tidy_spec(s: Seq<char>) -> Seq<char> {
    trim_seq(
        trim_char_seq(
            trim_seq(join_seq(lines_seq(s).map_values(|l: Seq<char>| tidy_line(l)), "\n"@)),
            ',',
        ),
    )
}

proof fn lemma_ws_from(s: Seq<char>, i: int)
    requires
        0 <= i <= s.len(),
    ensures
        i <= ws_from(s, i) <= s.len(),
        ws_from(s, i) < s.len() ==> is_ws(s[ws_from(s, i)]),
        forall|j: int| i <= j < ws_from(s, i) ==> !is_ws(s[j]),
    decreases s.len() - i,
{
    if i < s.len() && !is_ws(s[i]) {
        lemma_ws_from(s, i + 1);
    }
}

proof fn lemma_trim_start_suffix(s: Seq<char>)
    ensures
        trim_start_seq(s).len() <= s.len(),
        trim_start_seq(s) == s.subrange(s.len() - trim_start_seq(s).len(), s.len() as int),
        trim_start_seq(s).len() > 0 ==> !is_ws(trim_start_seq(s)[0]),
        forall|j: int| 0 <= j < s.len() - trim_start_seq(s).len() ==> is_ws(#[trigger] s[j]),
    decreases s.len(),
{
    if s.len() > 0 && is_ws(s[0]) {
        lemma_trim_start_suffix(s.drop_first());
        let t = trim_start_seq(s.drop_first());
        assert(s.drop_first().subrange(s.len() - 1 - t.len(), s.len() - 1) =~= s.subrange(
            s.len() - t.len(),
            s.len() as int,
        ));
        assert forall|j: int| 0 <= j < s.len() - t.len() implies is_ws(#[trigger] s[j]) by {
            if j > 0 {
                assert(s[j] == s.drop_first()[j - 1]);
            }
        }
    } else {
        assert(s.subrange(0, s.len() as int) =~= s);
    }
}

/// `split_whitespace` on a vector.
fn words_vec(v: &Vec<char>) -> (r: Vec<Vec<char>>)
    ensures
        views(r@) == words(v@),
{
    let mut r: Vec<Vec<char>> = Vec::new();
    let mut pos: usize = 0;
    assert(v@.subrange(0, v@.len() as int) =~= v@);
    while pos < v.len()
        invariant
            pos <= v@.len(),
            words(v@) == views(r@) + words(v@.subrange(pos as int, v@.len() as int)),
        decreases v@.len() - pos,
    {
        let ghost rest = v@.subrange(pos as int, v@.len() as int);
        let mut a = pos;
        while a < v.len() && is_whitespace(v[a])
            invariant
                pos <= a <= v@.len(),
                forall|j: int| pos <= j < a ==> is_ws(#[trigger] v@[j]),
            decreases v@.len() - a,
        {
            a += 1;
        }
        proof {
            lemma_trim_start_suffix(rest);
            let t = trim_start_seq(rest);
            let k = rest.len() - t.len();
            // the whitespace prefix ends exactly where the scan stopped
            if k < a - pos {
                assert(!is_ws(t[0]));
                assert(t[0] == v@[pos + k]);
            }
            if k > a - pos {
                assert(is_ws(rest[a - pos]));
                assert(rest[a - pos] == v@[a as int]);
            }
            assert(k == a - pos);
            assert(t =~= v@.subrange(a as int, v@.len() as int));
        }
        if a == v.len() {
            proof {
                assert(views(r@) + seq![] =~= views(r@));
                assert(v@.subrange(a as int, v@.len() as int) =~= Seq::<char>::empty());
            }
            pos = a;
        } else {
            let mut e = a;
            while e < v.len() && !is_whitespace(v[e])
                invariant
                    a <= e <= v@.len(),
                    forall|j: int| a <= j < e ==> !is_ws(#[trigger] v@[j]),
                decreases v@.len() - e,
            {
                e += 1;
            }
            let word = sub_vec(v, a, e);
            proof {
                let t = v@.subrange(a as int, v@.len() as int);
                lemma_ws_from(t, 0);
                let we = ws_from(t, 0);
                if we < e - a {
                    assert(t[we] == v@[a + we]);
                }
                if we > e - a {
                    assert(t[e - a] == v@[e as int]);
                }
                assert(we == e - a);
                assert(t.subrange(0, we) =~= word@);
                assert(t.subrange(we, t.len() as int) =~= v@.subrange(e as int, v@.len() as int));
                lemma_views_push(r@, word);
                assert(views(r@) + (seq![word@] + words(v@.subrange(e as int, v@.len() as int)))
                    =~= views(r@).push(word@) + words(v@.subrange(e as int, v@.len() as int)));
            }
            r.push(word);
            pos = e;
        }
    }
    proof {
        assert(v@.subrange(pos as int, v@.len() as int) =~= Seq::<char>::empty());
        assert(views(r@) + words(Seq::<char>::empty()) =~= views(r@));
    }
    r
}

/// `str::replace` on a vector.
fn replace_vec(v: &Vec<char>, p: &str, q: &str) -> (r: Vec<char>)
    requires
        p@.len() > 0,
    ensures
        r@ == replace_seq(v@, p@, q@),
{
    let pv = chars_of(p);
    let qv = chars_of(q);
    let mut r: Vec<char> = Vec::new();
    let mut pos: usize = 0;
    assert(v@.subrange(0, v@.len() as int) =~= v@);
    while pos <= v.len()
        invariant
            pos <= v@.len(),
            pv@ == p@,
            qv@ == q@,
            p@.len() > 0,
            replace_seq(v@, p@, q@) == r@ + replace_seq(
                v@.subrange(pos as int, v@.len() as int),
                p@,
                q@,
            ),
        decreases v@.len() + 1 - pos,
    {
        let ghost rest = v@.subrange(pos as int, v@.len() as int);
        match find_from_exec(v, &pv, pos) {
            Some(i) => {
                proof {
                    lemma_find_in_suffix(v@, p@, pos as int);
                    lemma_find_from_bounds(v@, p@, pos as int);
                }
                let head = sub_vec(v, pos, i);
                extend_chars(&mut r, &head);
                extend_chars(&mut r, &qv);
                proof {
                    let k = i - pos;
                    assert(rest.subrange(0, k) =~= head@);
                    assert(rest.subrange(k + p@.len(), rest.len() as int) =~= v@.subrange(
                        i + p@.len(),
                        v@.len() as int,
                    ));
                }
                pos = i + pv.len();
            },
            None => {
                proof {
                    lemma_find_in_suffix(v@, p@, pos as int);
                }
                let tail = sub_vec(v, pos, v.len());
                extend_chars(&mut r, &tail);
                return r;
            },
        }
    }
    r
}

/// One tidied line.
fn tidy_line_vec(line: &Vec<char>) -> (r: Vec<char>)
    ensures
        r@ == tidy_line(line@),
{
    let w = words_vec(line);
    let joined = join_vecs(&w, " ");
    proof {
        reveal_strlit(" ,");
        reveal_strlit(",,");
    }
    let a = replace_vec(&joined, " ,", ",");
    replace_vec(&a, ",,", ",")
}

/// Collapse the doubled spaces / stray commas a removed tag leaves behind, per line.
pub fn tidy(s: &str) -> (r: String)
    ensures
        r@ == tidy_spec(s@),
{
    let v = chars_of(s);
    let lines = lines_vec(&v);
    let mut tl: Vec<Vec<char>> = Vec::new();
    let mut i: usize = 0;
    while i < lines.len()
        invariant
            i <= lines@.len(),
            views(lines@) == lines_seq(s@),
            views(tl@) == lines_seq(s@).take(i as int).map_values(|l: Seq<char>| tidy_line(l)),
        decreases lines@.len() - i,
    {
        let t = tidy_line_vec(&lines[i]);
        proof {
            lemma_views_push(tl@, t);
            assert(views(lines@)[i as int] == lines@[i as int]@);
            assert(lines_seq(s@).take(i + 1).map_values(|l: Seq<char>| tidy_line(l)) =~= lines_seq(
                s@,
            ).take(i as int).map_values(|l: Seq<char>| tidy_line(l)).push(tidy_line(lines@[i as int]@)));
        }
        tl.push(t);
        i += 1;
    }
    proof {
        assert(lines_seq(s@).take(lines@.len() as int) =~= lines_seq(s@));
    }
    let joined = join_vecs(&tl, "\n");
    let a = trim_vec(&joined);
    let b = trim_char_vec(&a, ',');
    let c = trim_vec(&b);
    string_of(&c)
}

// ---------------------------------------------------------------------------
// The settings line
// ---------------------------------------------------------------------------

/// Splitter state: the finished fields, the field being read, and whether the
/// scan is inside a `"…"` value.
pub struct SplitState {
    pub fields: Seq<Seq<char>>,
    pub cur: Seq<char>,
    pub in_quote: bool,
}

/// Feeds one character to the splitter: quotes toggle the quoted state (and
/// are kept), a comma outside quotes ends the field.
pub open spec fn split_step(st: SplitState, ch: char) -> SplitState {
    if ch == '"' {
        SplitState { cur: st.cur.push(ch), in_quote: !st.in_quote, ..st }
    } else if ch == ',' && !st.in_quote {
        SplitState { fields: st.fields.push(st.cur), cur: seq![], ..st }
    } else {
        SplitState { cur: st.cur.push(ch), ..st }
    }
}

/// The splitter state after all of `s`.
pub open spec fn split_scan(s: Seq<char>) -> SplitState
    decreases s.len(),
{
    if s.len() == 0 {
        SplitState { fields: seq![], cur: seq![], in_quote: false }
    } else {
        split_step(split_scan(s.drop_last()), s.last())
    }
}

/// The fields of a settings line: split at commas outside `"…"`; a final
/// field that is only whitespace is dropped.
pub open spec fn split_settings_spec(line: Seq<char>) -> Seq<Seq<char>> {
    let st = split_scan(line);
    if trim_seq(st.cur).len() > 0 {
        st.fields.push(st.cur)
    } else {
        st.fields
    }
}

/// Split an A1111 settings line on commas that are NOT inside a `"…"` value
/// (`Lora hashes: "a: 1, b: 2"` must stay one field).
pub fn split_settings(line: &str) -> (r: Vec<String>)
    ensures
        r@.map_values(|s: String| s@) == split_settings_spec(line@),
{
    let v = chars_of(line);
    let mut fields: Vec<String> = Vec::new();
    let mut cur: Vec<char> = Vec::new();
    let mut in_quote = false;
    let mut i: usize = 0;
    proof {
        assert(v@.take(0) =~= Seq::<char>::empty());
        assert(fields@.map_values(|s: String| s@) =~= Seq::<Seq<char>>::empty());
        assert(cur@ =~= Seq::<char>::empty());
    }
    while i < v.len()
        invariant
            i <= v@.len(),
            v@ == line@,
            split_scan(v@.take(i as int)) == (SplitState {
                fields: fields@.map_values(|s: String| s@),
                cur: cur@,
                in_quote,
            }),
        decreases v@.len() - i,
    {
        let ch = v[i];
        proof {
            assert(v@.take(i + 1).drop_last() =~= v@.take(i as int));
        }
        if ch == '"' {
            in_quote = !in_quote;
            cur.push(ch);
        } else if ch == ',' && !in_quote {
            let f = string_of(&cur);
            let ghost old_f = fields@;
            fields.push(f);
            assert(fields@.map_values(|s: String| s@) =~= old_f.map_values(|s: String| s@).push(
                cur@,
            ));
            cur = Vec::new();
        } else {
            cur.push(ch);
        }
        i += 1;
    }
    proof {
        assert(v@.take(v@.len() as int) =~= v@);
    }
    let (lo, hi) = trim_bounds(&cur);
    if hi > lo {
        let f = string_of(&cur);
        let ghost old_f = fields@;
        fields.push(f);
        assert(fields@.map_values(|s: String| s@) =~= old_f.map_values(|s: String| s@).push(cur@));
    }
    fields
}

// ---------------------------------------------------------------------------
// Sampler and schedule names
// ---------------------------------------------------------------------------

/// The ComfyUI scheduler for a lowercased A1111 `Schedule type` label.
pub open spec fn schedule_for(low: Seq<char>) -> Seq<char> {
    if contains_seq(low, "karras"@) {
        "karras"@
    } else if contains_seq(low, "exponential"@) {
        "exponential"@
    } else if contains_seq(low, "sgm"@) {
        "sgm_uniform"@
    } else if contains_seq(low, "simple"@) {
        "simple"@
    } else if contains_seq(low, "beta"@) {
        "beta"@
    } else if contains_seq(low, "ddim"@) {
        "ddim_uniform"@
    } else {
        "normal"@
    }
}

/// The ComfyUI scheduler for an already lowercased `Schedule type` label.
pub fn schedule_from_lower(low: &str) -> (r: String)
    ensures
        r@ == schedule_for(low@),
{
    let low = chars_of(low);
    let s = if contains_str(&low, "karras") {
        "karras"
    } else if contains_str(&low, "exponential") {
        "exponential"
    } else if contains_str(&low, "sgm") {
        "sgm_uniform"
    } else if contains_str(&low, "simple") {
        "simple"
    } else if contains_str(&low, "beta") {
        "beta"
    } else if contains_str(&low, "ddim") {
        "ddim_uniform"
    } else {
        "normal"
    };
    s.to_owned()
}

/// Map an A1111 `Schedule type` label to a ComfyUI scheduler name (by its
/// Unicode-lowercased text).
pub fn normalize_schedule(a: &str) -> (r: String)
    ensures
        r@ == schedule_for(unicode_lowercase(a@)),
{
    let low = to_lowercase(a);
    schedule_from_lower(low.as_str())
}

/// The scheduler folded into an old-style lowercased sampler label.
pub open spec fn sampler_schedule(low: Seq<char>) -> Seq<char> {
    if contains_seq(low, "karras"@) {
        "karras"@
    } else if contains_seq(low, "exponential"@) {
        "exponential"@
    } else {
        "normal"@
    }
}

/// The ComfyUI sampler for a lowercased A1111 sampler label.
pub open spec fn sampler_for(low: Seq<char>) -> Seq<char> {
    if contains_seq(low, "3m sde"@) || contains_seq(low, "3m_sde"@) {
        "dpmpp_3m_sde"@
    } else if contains_seq(low, "2m sde"@) || contains_seq(low, "2m_sde"@) {
        "dpmpp_2m_sde"@
    } else if contains_seq(low, "2m"@) {
        "dpmpp_2m"@
    } else if contains_seq(low, "2s a"@) || contains_seq(low, "2s_ancestral"@) {
        "dpmpp_2s_ancestral"@
    } else if contains_seq(low, "++ sde"@) || contains_seq(low, "dpmpp_sde"@) || contains_seq(
        low,
        "dpm++ sde"@,
    ) {
        "dpmpp_sde"@
    } else if contains_seq(low, "dpm2"@) || contains_seq(low, "dpm 2"@) {
        "dpm_2"@
    } else if contains_seq(low, "euler a"@) || contains_seq(low, "euler_ancestral"@) {
        "euler_ancestral"@
    } else if contains_seq(low, "euler"@) {
        "euler"@
    } else if contains_seq(low, "lcm"@) {
        "lcm"@
    } else if contains_seq(low, "ddim"@) {
        "ddim"@
    } else if contains_seq(low, "unipc"@) || contains_seq(low, "uni_pc"@) {
        "uni_pc"@
    } else if contains_seq(low, "heun"@) {
        "heun"@
    } else if contains_seq(low, "lms"@) {
        "lms"@
    } else {
        "euler"@
    }
}

proof fn lemma_found(s: Seq<char>, p: Seq<char>, j: int)
    requires
        matches_at(s, p, j),
    ensures
        contains_seq(s, p),
{
    lemma_find_from_bounds(s, p, 0);
}

/// `s` does not contain `p` when it lacks one of `p`'s characters.
proof fn lemma_lacks(s: Seq<char>, p: Seq<char>, k: int)
    requires
        0 <= k < p.len(),
        forall|i: int| 0 <= i < s.len() ==> s[i] != p[k],
    ensures
        !contains_seq(s, p),
{
    lemma_find_from_bounds(s, p, 0);
    if contains_seq(s, p) {
        let j = find_seq(s, p)->0;
        assert(s.subrange(j, j + p.len())[k] == s[j + k]);
    }
}

/// `s` does not contain `p` when two neighbouring characters of `p` never
/// stand side by side in `s`.
proof fn lemma_lacks_pair(s: Seq<char>, p: Seq<char>, k: int)
    requires
        0 <= k < p.len() - 1,
        forall|i: int| 0 <= i < s.len() - 1 ==> !(#[trigger] s[i] == p[k] && s[i + 1] == p[k + 1]),
    ensures
        !contains_seq(s, p),
{
    lemma_find_from_bounds(s, p, 0);
    if contains_seq(s, p) {
        let j = find_seq(s, p)->0;
        assert(s.subrange(j, j + p.len())[k] == s[j + k]);
        assert(s.subrange(j, j + p.len())[k + 1] == s[j + k + 1]);
    }
}

/// The (comfy_sampler, scheduler) pair for an already lowercased sampler label.
pub fn sampler_from_lower(low: &str) -> (r: (String, String))
    ensures
        r.0@ == sampler_for(low@),
        r.1@ == sampler_schedule(low@),
{
    let low = chars_of(low);
    let scheduler = if contains_str(&low, "karras") {
        "karras"
    } else if contains_str(&low, "exponential") {
        "exponential"
    } else {
        "normal"
    };
    let sampler = if contains_str(&low, "3m sde") || contains_str(&low, "3m_sde") {
        "dpmpp_3m_sde"
    } else if contains_str(&low, "2m sde") || contains_str(&low, "2m_sde") {
        "dpmpp_2m_sde"
    } else if contains_str(&low, "2m") {
        "dpmpp_2m"
    } else if contains_str(&low, "2s a") || contains_str(&low, "2s_ancestral") {
        "dpmpp_2s_ancestral"
    } else if contains_str(&low, "++ sde") || contains_str(&low, "dpmpp_sde") || contains_str(
        &low,
        "dpm++ sde",
    ) {
        "dpmpp_sde"
    } else if contains_str(&low, "dpm2") || contains_str(&low, "dpm 2") {
        "dpm_2"
    } else if contains_str(&low, "euler a") || contains_str(&low, "euler_ancestral") {
        "euler_ancestral"
    } else if contains_str(&low, "euler") {
        "euler"
    } else if contains_str(&low, "lcm") {
        "lcm"
    } else if contains_str(&low, "ddim") {
        "ddim"
    } else if contains_str(&low, "unipc") || contains_str(&low, "uni_pc") {
        "uni_pc"
    } else if contains_str(&low, "heun") {
        "heun"
    } else if contains_str(&low, "lms") {
        "lms"
    } else {
        "euler"
    };
    (sampler.to_owned(), scheduler.to_owned())
}

/// Map an A1111 sampler label to a (comfy_sampler, scheduler) pair. Newer A1111
/// splits the schedule into its own field; older builds fold it into the sampler
/// name ("DPM++ 2M Karras"), which this still recovers.
pub fn normalize_sampler(a: &str) -> (r: (String, String))
    ensures
        r.0@ == sampler_for(unicode_lowercase(a@)),
        r.1@ == sampler_schedule(unicode_lowercase(a@)),
{
    let low = to_lowercase(a);
    sampler_from_lower(low.as_str())
}


// ---------------------------------------------------------------------------
// LoRA tags in a prompt
// ---------------------------------------------------------------------------

/// Splitting at `:` — the finished parts and the part being read.
pub open spec fn colon_scan(s: Seq<char>) -> (Seq<Seq<char>>, Seq<char>)
    decreases s.len(),
{
    if s.len() == 0 {
        (seq![], seq![])
    } else {
        let (done, cur) = colon_scan(s.drop_last());
        if s.last() == ':' {
            (done.push(cur), seq![])
        } else {
            (done, cur.push(s.last()))
        }
    }
}

/// The `:`-separated parts of `s` (`str::split(':')`): always at least one.
pub open spec fn colon_parts(s: Seq<char>) -> Seq<Seq<char>> {
    colon_scan(s).0.push(colon_scan(s).1)
}

/// Part `i` of `s`, if there is one.
pub open spec fn colon_part(s: Seq<char>, i: int) -> Option<Seq<char>> {
    if 0 <= i < colon_parts(s).len() {
        Some(colon_parts(s)[i])
    } else {
        None
    }
}

/// A tag body `<kind:…>` names a LoRA (or LyCORIS) when its first part is
/// `lora` or `lyco`, ignoring ASCII case.
pub open spec fn is_lora_kind(inner: Seq<char>) -> bool {
    lower_seq(colon_parts(inner)[0]) == "lora"@ || lower_seq(colon_parts(inner)[0]) == "lyco"@
}

/// An optional part, trimmed.
pub open spec fn trimmed_part(p: Option<Seq<char>>) -> Option<Seq<char>> {
    match p {
        Some(t) => Some(trim_seq(t)),
        None => None,
    }
}

/// The LoRA a tag body `<lora:name:wm[:wc]>` refers to: its name and the
/// texts of its model and clip weights, trimmed, where given.
pub open spec fn lora_tag_spec(inner: Seq<char>) -> (Seq<char>, Option<Seq<char>>, Option<Seq<char>>) {
    (
        trim_seq(match colon_part(inner, 1) {
            Some(n) => n,
            None => seq![],
        }),
        trimmed_part(colon_part(inner, 2)),
        trimmed_part(colon_part(inner, 3)),
    )
}

/// Reading `t` from `pos`: the prompt text kept, and the LoRA tags taken out.
/// A `<…>` whose first part is `lora`/`lyco` is removed (its LoRA kept when it
/// has a name); any other `<…>` stays; a `<` with no `>` after it ends the
/// scan and keeps the rest verbatim.
pub open spec fn lora_scan(t: Seq<char>, pos: int) -> (Seq<char>, Seq<(Seq<char>, Option<Seq<char>>, Option<Seq<char>>)>)
    decreases t.len() - pos,
{
    if pos < 0 || pos > t.len() {
        (seq![], seq![])
    } else {
        match index_of_char_from(t, '<', pos) {
            None => (t.subrange(pos, t.len() as int), seq![]),
            Some(lt) => match index_of_char_from(t, '>', lt + 1) {
                None => (t.subrange(pos, t.len() as int), seq![]),
                Some(gt) => {
                    proof {
                        lemma_index_of_char_from(t, '<', pos);
                        lemma_index_of_char_from(t, '>', lt + 1);
                    }
                    let inner = t.subrange(lt + 1, gt);
                    let rest = lora_scan(t, gt + 1);
                    if is_lora_kind(inner) {
                        let tag = lora_tag_spec(inner);
                        (
                            t.subrange(pos, lt) + rest.0,
                            if tag.0.len() > 0 { seq![tag].add(rest.1) } else { rest.1 },
                        )
                    } else {
                        (t.subrange(pos, lt) + seq!['<'] + inner + seq!['>'] + rest.0, rest.1)
                    }
                },
            },
        }
    }
}

/// A LoRA referenced from a prompt: its name and the texts of its model and
/// clip weights (trimmed) when the tag gives them.
#[derive(Clone, Debug)]
pub struct LoraTag {
    pub name: String,
    pub model_w: Option<String>,
    pub clip_w: Option<String>,
}

/// A tag as plain values.
pub open spec fn lora_tag_view(t: LoraTag) -> (Seq<char>, Option<Seq<char>>, Option<Seq<char>>) {
    (t.name@, crate::paths::opt_chars(t.model_w), crate::paths::opt_chars(t.clip_w))
}

/// The `:`-separated parts of `v`.
fn colon_parts_exec(v: &Vec<char>) -> (r: Vec<Vec<char>>)
    ensures
        views(r@) == colon_parts(v@),
{
    let mut done: Vec<Vec<char>> = Vec::new();
    let mut cur: Vec<char> = Vec::new();
    let mut i: usize = 0;
    while i < v.len()
        invariant
            i <= v@.len(),
            (views(done@), cur@) == colon_scan(v@.take(i as int)),
        decreases v@.len() - i,
    {
        let c = v[i];
        proof {
            assert(v@.take(i + 1).drop_last() =~= v@.take(i as int));
            assert(v@.take(i + 1).last() == c);
        }
        if c == ':' {
            proof {
                lemma_views_push(done@, cur);
            }
            done.push(cur);
            cur = Vec::new();
        } else {
            cur.push(c);
        }
        i += 1;
    }
    assert(v@.take(v@.len() as int) =~= v@);
    proof {
        lemma_views_push(done@, cur);
    }
    done.push(cur);
    done
}

fn opt_trimmed(parts: &Vec<Vec<char>>, i: usize) -> (r: Option<String>)
    ensures
        crate::paths::opt_chars(r) == trimmed_part(if i < views(parts@).len() { Some(views(parts@)[i as int]) } else { None }),
{
    if i < parts.len() {
        Some(string_of(&trim_vec(&parts[i])))
    } else {
        None
    }
}

/// Pulls `<lora:name:wm[:wc]>` (and `<lyco:…>`) tags out of a prompt: the
/// prompt text without them, tidied, and the LoRAs they name, in order.
/// Non-LoRA angle-bracket content is preserved.
pub fn extract_lora_tags(text: &str) -> (r: (String, Vec<LoraTag>))
    ensures
        r.0@ == tidy_spec(lora_scan(text@, 0).0),
        r.1@.map_values(|t: LoraTag| lora_tag_view(t)) == lora_scan(text@, 0).1,
{
    let t = chars_of(text);
    let mut out: Vec<char> = Vec::new();
    let mut tags: Vec<LoraTag> = Vec::new();
    let mut pos: usize = 0;
    let ghost total = lora_scan(t@, 0);
    loop
        invariant_except_break
            pos <= t@.len(),
            t@ == text@,
            total == lora_scan(t@, 0),
            total.0 == out@ + lora_scan(t@, pos as int).0,
            total.1 == tags@.map_values(|x: LoraTag| lora_tag_view(x)) + lora_scan(t@, pos as int).1,
        ensures
            total.0 == out@,
            total.1 == tags@.map_values(|x: LoraTag| lora_tag_view(x)),
        decreases t@.len() - pos,
    {
        let ghost here = lora_scan(t@, pos as int);
        let lt = match index_of_char_exec(&t, '<', pos) {
            Some(k) => k,
            None => {
                let piece = sub_vec(&t, pos, t.len());
                extend_chars(&mut out, &piece);
                proof {
                    assert(tags@.map_values(|x: LoraTag| lora_tag_view(x)) + here.1 =~= tags@.map_values(|x: LoraTag| lora_tag_view(x)));
                }
                break;
            },
        };
        proof {
            lemma_index_of_char_from(t@, '<', pos as int);
        }
        let gt = match index_of_char_exec(&t, '>', lt + 1) {
            Some(k) => k,
            None => {
                let piece = sub_vec(&t, pos, t.len());
                extend_chars(&mut out, &piece);
                proof {
                    assert(tags@.map_values(|x: LoraTag| lora_tag_view(x)) + here.1 =~= tags@.map_values(|x: LoraTag| lora_tag_view(x)));
                }
                break;
            },
        };
        proof {
            lemma_index_of_char_from(t@, '>', lt + 1);
        }
        let inner = sub_vec(&t, lt + 1, gt);
        let parts = colon_parts_exec(&inner);
        assert(views(parts@).len() == parts@.len());
        assert(inner@ == t@.subrange(lt + 1, gt as int));
        assert(parts@[0]@ == colon_parts(inner@)[0]);
        proof {
            reveal_strlit("lora");
            reveal_strlit("lyco");
            assert(lower_seq("lora"@) =~= "lora"@);
            assert(lower_seq("lyco"@) =~= "lyco"@);
        }
        let before = sub_vec(&t, pos, lt);
        let ghost next = lora_scan(t@, gt + 1);
        let ghost old_out = out@;
        let ghost old_tags = tags@.map_values(|x: LoraTag| lora_tag_view(x));
        extend_chars(&mut out, &before);
        let is_lora = eq_ignore_case(&parts[0], &chars_of("lora")) || eq_ignore_case(&parts[0], &chars_of("lyco"));
        assert(is_lora == is_lora_kind(inner@));
        if is_lora {
            let name = if parts.len() > 1 { trim_vec(&parts[1]) } else { Vec::new() };
            if name.len() > 0 {
                let tag = LoraTag { name: string_of(&name), model_w: opt_trimmed(&parts, 2), clip_w: opt_trimmed(&parts, 3) };
                assert(lora_tag_view(tag) == lora_tag_spec(inner@));
                tags.push(tag);
                assert(tags@.map_values(|x: LoraTag| lora_tag_view(x)) =~= old_tags.push(lora_tag_spec(inner@)));
                assert(old_tags.push(lora_tag_spec(inner@)) + next.1 =~= old_tags + (seq![lora_tag_spec(inner@)].add(next.1)));
            } else {
                assert(lora_tag_spec(inner@).0.len() == 0);
                assert(tags@.map_values(|x: LoraTag| lora_tag_view(x)) =~= old_tags);
            }
            assert(out@ + next.0 =~= old_out + (t@.subrange(pos as int, lt as int) + next.0));
        } else {
            out.push('<');
            extend_chars(&mut out, &inner);
            out.push('>');
            assert(tags@.map_values(|x: LoraTag| lora_tag_view(x)) =~= old_tags);
            assert(out@ + next.0 =~= old_out + (t@.subrange(pos as int, lt as int) + seq!['<'] + inner@ + seq!['>'] + next.0));
        }
        assert(here == (if is_lora_kind(inner@) {
            let tag = lora_tag_spec(inner@);
            (
                t@.subrange(pos as int, lt as int) + next.0,
                if tag.0.len() > 0 { seq![tag].add(next.1) } else { next.1 },
            )
        } else {
            (t@.subrange(pos as int, lt as int) + seq!['<'] + inner@ + seq!['>'] + next.0, next.1)
        }));
        pos = gt + 1;
    }
    let s = string_of(&out);
    (tidy(s.as_str()), tags)
}


// ---------------------------------------------------------------------------
// The sections of a parameters text
// ---------------------------------------------------------------------------

/// The index of the last line that contains `Steps:` (the settings line).
pub open spec fn steps_line(lines: Seq<Seq<char>>) -> Option<int>
    decreases lines.len(),
{
    if lines.len() == 0 {
        None
    } else if contains_seq(lines.last(), "Steps:"@) {
        Some(lines.len() - 1)
    } else {
        steps_line(lines.drop_last())
    }
}

/// The prompt block: the lines before the settings line (all of them when
/// there is none), joined with `\n`.
pub open spec fn a1111_body(text: Seq<char>) -> Seq<char> {
    let ls = lines_seq(text);
    let end = match steps_line(ls) {
        Some(i) => i,
        None => ls.len() as int,
    };
    join_seq(ls.take(end), "\n"@)
}

/// The positive and negative prompts of a prompt block, split at the first
/// `Negative prompt:` and trimmed (no negative prompt without the marker).
pub open spec fn a1111_prompts(body: Seq<char>) -> (Seq<char>, Seq<char>) {
    match find_seq(body, "Negative prompt:"@) {
        Some(n) => (trim_seq(body.take(n)), trim_seq(body.skip(n + 16))),
        None => (trim_seq(body), seq![]),
    }
}

/// The settings line of a parameters text, if it has one.
pub open spec fn a1111_settings(text: Seq<char>) -> Option<Seq<char>> {
    match steps_line(lines_seq(text)) {
        Some(i) => Some(lines_seq(text)[i]),
        None => None,
    }
}

proof fn lemma_steps_line_bound(lines: Seq<Seq<char>>)
    ensures
        steps_line(lines) matches Some(i) ==> 0 <= i < lines.len(),
    decreases lines.len(),
{
    if lines.len() > 0 {
        lemma_steps_line_bound(lines.drop_last());
    }
}

/// Splits an A1111 parameters text into its positive prompt, its negative
/// prompt (both trimmed, inline tags still in) and its settings line — the
/// last line that contains `Steps:`.
pub fn a1111_sections(text: &str) -> (r: (String, String, Option<String>))
    ensures
        r.0@ == a1111_prompts(a1111_body(text@)).0,
        r.1@ == a1111_prompts(a1111_body(text@)).1,
        crate::paths::opt_chars(r.2) == a1111_settings(text@),
{
    let v = chars_of(text);
    let lines = lines_vec(&v);
    let ghost ls = lines_seq(text@);
    // the settings line: the last one that mentions `Steps:`
    let mut k: usize = lines.len();
    let mut found = false;
    assert(views(lines@).len() == lines@.len());
    assert(ls.take(lines@.len() as int) =~= ls);
    while k > 0
        invariant_except_break
            !found,
            k <= lines@.len(),
            views(lines@) == ls,
            steps_line(ls) == steps_line(ls.take(k as int)),
        ensures
            views(lines@) == ls,
            k <= lines@.len(),
            found ==> k < lines@.len() && steps_line(ls) == Some(k as int),
            !found ==> steps_line(ls) is None,
        decreases k,
    {
        proof {
            assert(ls.take(k as int).drop_last() =~= ls.take(k - 1));
            assert(ls.take(k as int).last() == lines@[k - 1]@);
        }
        if contains_str(&lines[k - 1], "Steps:") {
            k = k - 1;
            found = true;
            break;
        }
        k = k - 1;
    }
    proof {
        assert(ls.take(lines@.len() as int) =~= ls);
        if !found {
            assert(ls.take(0) =~= Seq::<Seq<char>>::empty());
        }
    }
    let end = if found { k } else { lines.len() };
    let mut head: Vec<Vec<char>> = Vec::new();
    let mut i: usize = 0;
    while i < end
        invariant
            i <= end <= lines@.len(),
            views(lines@) == ls,
            views(head@) == ls.take(i as int),
        decreases end - i,
    {
        let l = sub_vec(&lines[i], 0, lines[i].len());
        proof {
            assert(l@ =~= lines@[i as int]@);
            lemma_views_push(head@, l);
            assert(ls.take(i + 1) =~= ls.take(i as int).push(l@));
        }
        head.push(l);
        i += 1;
    }
    let body = join_vecs(&head, "\n");
    assert(body@ == a1111_body(text@));
    let marker = chars_of("Negative prompt:");
    proof {
        reveal_strlit("Negative prompt:");
    }
    let blen = body.len();
    let (pos, neg) = match find_exec(&body, &marker) {
        Some(n) => {
            proof {
                lemma_find_from_bounds(body@, marker@, 0);
                assert(marker@.len() == 16);
            }
            let a = sub_vec(&body, 0, n);
            let b = sub_vec(&body, n + 16, blen);
            assert(a@ =~= body@.take(n as int));
            assert(b@ =~= body@.skip(n + 16));
            (string_of(&trim_vec(&a)), string_of(&trim_vec(&b)))
        },
        None => (string_of(&trim_vec(&body)), String::new()),
    };
    let settings = if found {
        Some(string_of(&lines[k]))
    } else {
        None
    };
    (pos, neg, settings)
}

/// The key and value of one settings field `Key: value`: the text before the
/// first `:` and the text after it, each trimmed, the value also without
/// surrounding `"` (no value without a `:`).
pub open spec fn setting_kv_spec(kv: Seq<char>) -> (Seq<char>, Seq<char>) {
    match index_of_char_from(kv, ':', 0) {
        Some(i) => (trim_seq(kv.take(i)), trim_seq(trim_char_seq(trim_seq(kv.skip(i + 1)), '"'))),
        None => (trim_seq(kv), seq![]),
    }
}

/// The key and value of one settings field (see [`setting_kv_spec`]).
pub fn setting_kv(kv: &str) -> (r: (String, String))
    ensures
        (r.0@, r.1@) == setting_kv_spec(kv@),
{
    let v = chars_of(kv);
    match index_of_char_exec(&v, ':', 0) {
        Some(i) => {
            proof {
                lemma_index_of_char_from(v@, ':', 0);
            }
            let a = sub_vec(&v, 0, i);
            let b = sub_vec(&v, i + 1, v.len());
            assert(a@ =~= v@.take(i as int));
            assert(b@ =~= v@.skip(i + 1));
            let val = trim_vec(&trim_char_vec(&trim_vec(&b), '"'));
            (string_of(&trim_vec(&a)), string_of(&val))
        },
        None => (string_of(&trim_vec(&v)), String::new()),
    }
}

/// The two numbers of a `W x H` value: the texts before and after the first
/// `x` (up to a second one), trimmed.
pub open spec fn size_spec(val: Seq<char>) -> (Seq<char>, Option<Seq<char>>) {
    match index_of_char_from(val, 'x', 0) {
        Some(i) => (
            trim_seq(val.take(i)),
            Some(trim_seq(crate::project::before_char(val.skip(i + 1), 'x'))),
        ),
        None => (trim_seq(val), None),
    }
}

/// The width and height texts of a `Size` / `Hires resize` value (see
/// [`size_spec`]).
pub fn size_parts(val: &str) -> (r: (String, Option<String>))
    ensures
        (r.0@, crate::paths::opt_chars(r.1)) == size_spec(val@),
{
    let v = chars_of(val);
    match index_of_char_exec(&v, 'x', 0) {
        Some(i) => {
            proof {
                lemma_index_of_char_from(v@, 'x', 0);
            }
            let a = sub_vec(&v, 0, i);
            let b = sub_vec(&v, i + 1, v.len());
            assert(a@ =~= v@.take(i as int));
            assert(b@ =~= v@.skip(i + 1));
            let h = match index_of_char_exec(&b, 'x', 0) {
                Some(j) => {
                    proof {
                        lemma_index_of_char_from(b@, 'x', 0);
                    }
                    sub_vec(&b, 0, j)
                },
                None => b,
            };
            assert(h@ == crate::project::before_char(v@.skip(i + 1), 'x'));
            (string_of(&trim_vec(&a)), Some(string_of(&trim_vec(&h))))
        },
        None => (string_of(&trim_vec(&v)), None),
    }
}


// ---------------------------------------------------------------------------
// Writing a parameters text
// ---------------------------------------------------------------------------

/// A LoRA as the parameters text writes it: its file name and its weights
/// already rendered; the clip weight only when it differs from the model
/// weight.
#[derive(Clone, Debug)]
pub struct LoraText {
    pub name: String,
    pub model_w: String,
    pub clip_w: Option<String>,
}

/// A Hires-fix pass with its fractional numbers rendered.
#[derive(Clone, Debug)]
pub struct HiresText {
    pub upscale: String,
    pub steps: Option<i64>,
    pub denoise: String,
    pub upscaler: Option<String>,
}

/// The recipe both formats encode, with its fractional numbers (weights, CFG
/// scale, denoise, upscale) already rendered as text.
#[derive(Clone, Debug, Default)]
pub struct RecipeText {
    pub positive: String,
    pub negative: String,
    pub steps: Option<i64>,
    pub cfg: Option<String>,
    /// ComfyUI sampler name (euler, dpmpp_2m…)
    pub sampler: Option<String>,
    /// normal | karras | …
    pub scheduler: Option<String>,
    pub seed: Option<i64>,
    pub width: Option<i64>,
    pub height: Option<i64>,
    pub model: Option<String>,
    pub loras: Vec<LoraText>,
    /// A1111 value (2 = skip one layer)
    pub clip_skip: Option<i64>,
    pub vae: Option<String>,
    pub denoise: Option<String>,
    pub hires: Option<HiresText>,
}

/// The inline tag a LoRA is written back as: `<lora:stem:wm>` or
/// `<lora:stem:wm:wc>`, after a space.
pub open spec fn lora_text_spec(l: LoraText) -> Seq<char> {
    " <lora:"@ + crate::comfy::stem_of(l.name@) + ":"@ + l.model_w@ + match l.clip_w {
        Some(c) => ":"@ + c@,
        None => seq![],
    } + ">"@
}

/// The inline tags of a list of LoRAs, in order.
pub open spec fn loras_text_spec(ls: Seq<LoraText>) -> Seq<char>
    decreases ls.len(),
{
    if ls.len() == 0 {
        seq![]
    } else {
        loras_text_spec(ls.drop_last()) + lora_text_spec(ls.last())
    }
}

/// One settings field when the value is there.
pub open spec fn field(v: Option<Seq<char>>) -> Seq<Seq<char>> {
    match v {
        Some(t) => seq![t],
        None => seq![],
    }
}

/// The first settings fields: steps, sampler (with the scheduler unless it
/// is `normal`), CFG scale and seed.
pub open spec fn head_fields(r: RecipeText) -> Seq<Seq<char>> {
    field(match r.steps { Some(s) => Some("Steps: "@ + int_text(s as int)), None => None })
        + field(match r.sampler {
            Some(s) => Some(match r.scheduler {
                Some(sc) => if sc@ != "normal"@ { "Sampler: "@ + s@ + " "@ + sc@ } else { "Sampler: "@ + s@ },
                None => "Sampler: "@ + s@,
            }),
            None => None,
        })
        + field(match r.cfg { Some(c) => Some("CFG scale: "@ + c@), None => None })
        + field(match r.seed { Some(s) => Some("Seed: "@ + int_text(s as int)), None => None })
}

/// The middle settings fields: size (when both sides are known), model, VAE
/// and a clip skip of 2 or more.
pub open spec fn mid_fields(r: RecipeText) -> Seq<Seq<char>> {
    field(match (r.width, r.height) {
        (Some(w), Some(h)) => Some("Size: "@ + int_text(w as int) + "x"@ + int_text(h as int)),
        _ => None,
    })
        + field(match r.model { Some(m) => Some("Model: "@ + m@), None => None })
        + field(match r.vae { Some(v) => Some("VAE: "@ + v@), None => None })
        + field(match r.clip_skip {
            Some(cs) => if cs >= 2 { Some("Clip skip: "@ + int_text(cs as int)) } else { None },
            None => None,
        })
}

/// The last settings fields: with a Hires pass its denoise, scale, steps and
/// upscaler, else the plain denoise.
pub open spec fn tail_fields(r: RecipeText) -> Seq<Seq<char>> {
    match r.hires {
        Some(h) => seq!["Denoising strength: "@ + h.denoise@, "Hires upscale: "@ + h.upscale@]
            + field(match h.steps { Some(s) => Some("Hires steps: "@ + int_text(s as int)), None => None })
            + field(match h.upscaler { Some(u) => Some("Hires upscaler: "@ + u@), None => None }),
        None => field(match r.denoise { Some(d) => Some("Denoising strength: "@ + d@), None => None }),
    }
}

/// The settings fields of a recipe, in the order A1111 writes them.
pub open spec fn a1111_fields(r: RecipeText) -> Seq<Seq<char>> {
    head_fields(r) + mid_fields(r) + tail_fields(r)
}

/// The A1111 parameters text of a recipe: the trimmed positive prompt with
/// its LoRAs as inline tags, the negative prompt line, the settings line and
/// a note that the text was synthesized.
pub open spec fn a1111_text_spec(r: RecipeText) -> Seq<char> {
    trim_seq(r.positive@) + loras_text_spec(r.loras@) + "\n"@ + "Negative prompt: "@ + trim_seq(
        r.negative@,
    ) + "\n"@ + join_seq(a1111_fields(r), ", "@)
        + "\n\n[synthesized from the ComfyUI workflow by Synthetrix]"@
}

fn push_field(fields: &mut Vec<Vec<char>>, f: Option<Vec<char>>)
    ensures
        views(final(fields)@) == views(old(fields)@) + field(match f { Some(v) => Some(v@), None => None }),
{
    match f {
        Some(v) => {
            proof {
                lemma_views_push(fields@, v);
            }
            fields.push(v);
        },
        None => {
            assert(views(fields@) + field(None) =~= views(fields@));
        },
    }
}

fn labelled(label: &str, value: &str) -> (r: Vec<char>)
    ensures
        r@ == label@ + value@,
{
    let mut v = chars_of(label);
    extend_str(&mut v, value);
    v
}

fn labelled_int(label: &str, n: i64) -> (r: Vec<char>)
    ensures
        r@ == label@ + int_text(n as int),
{
    let mut v = chars_of(label);
    push_int(&mut v, n);
    v
}

fn push_head_fields(f: &mut Vec<Vec<char>>, r: &RecipeText)
    ensures
        views(final(f)@) == views(old(f)@) + head_fields(*r),
{
    let ghost g0 = views(f@);
    push_field(f, match r.steps { Some(s) => Some(labelled_int("Steps: ", s)), None => None });
    let sampler = match &r.sampler {
        Some(s) => Some(match &r.scheduler {
            Some(sc) => if !str_eq(sc.as_str(), "normal") {
                let mut v = labelled("Sampler: ", s.as_str());
                extend_str(&mut v, " ");
                extend_str(&mut v, sc.as_str());
                v
            } else {
                labelled("Sampler: ", s.as_str())
            },
            None => labelled("Sampler: ", s.as_str()),
        }),
        None => None,
    };
    push_field(f, sampler);
    push_field(f, match &r.cfg { Some(c) => Some(labelled("CFG scale: ", c.as_str())), None => None });
    push_field(f, match r.seed { Some(s) => Some(labelled_int("Seed: ", s)), None => None });
    assert(views(f@) =~= g0 + head_fields(*r));
}

fn push_mid_fields(f: &mut Vec<Vec<char>>, r: &RecipeText)
    ensures
        views(final(f)@) == views(old(f)@) + mid_fields(*r),
{
    let ghost g0 = views(f@);
    let size = match (r.width, r.height) {
        (Some(w), Some(h)) => {
            let mut v = labelled_int("Size: ", w);
            extend_str(&mut v, "x");
            push_int(&mut v, h);
            Some(v)
        },
        _ => None,
    };
    push_field(f, size);
    push_field(f, match &r.model { Some(m) => Some(labelled("Model: ", m.as_str())), None => None });
    push_field(f, match &r.vae { Some(v) => Some(labelled("VAE: ", v.as_str())), None => None });
    push_field(f, match r.clip_skip {
        Some(cs) => if cs >= 2 { Some(labelled_int("Clip skip: ", cs)) } else { None },
        None => None,
    });
    assert(views(f@) =~= g0 + mid_fields(*r));
}

fn push_tail_fields(f: &mut Vec<Vec<char>>, r: &RecipeText)
    ensures
        views(final(f)@) == views(old(f)@) + tail_fields(*r),
{
    let ghost g0 = views(f@);
    match &r.hires {
        Some(h) => {
            push_field(f, Some(labelled("Denoising strength: ", h.denoise.as_str())));
            push_field(f, Some(labelled("Hires upscale: ", h.upscale.as_str())));
            push_field(f, match h.steps { Some(s) => Some(labelled_int("Hires steps: ", s)), None => None });
            push_field(f, match &h.upscaler { Some(u) => Some(labelled("Hires upscaler: ", u.as_str())), None => None });
        },
        None => {
            push_field(f, match &r.denoise { Some(d) => Some(labelled("Denoising strength: ", d.as_str())), None => None });
        },
    }
    assert(views(f@) =~= g0 + tail_fields(*r));
}

/// The settings fields of a recipe (see [`a1111_fields`]).
fn a1111_fields_exec(r: &RecipeText) -> (f: Vec<Vec<char>>)
    ensures
        views(f@) == a1111_fields(*r),
{
    let mut f: Vec<Vec<char>> = Vec::new();
    assert(views(f@) =~= Seq::<Seq<char>>::empty());
    push_head_fields(&mut f, r);
    push_mid_fields(&mut f, r);
    push_tail_fields(&mut f, r);
    assert(views(f@) =~= a1111_fields(*r));
    f
}

/// The file name without its last extension (all of it without a `.`).
fn stem_vec(v: &Vec<char>) -> (r: Vec<char>)
    ensures
        r@ == crate::comfy::stem_of(v@),
{
    let end = match crate::comfy::last_index_of_exec(v, '.') {
        Some(k) => k,
        None => v.len(),
    };
    proof {
        crate::comfy::lemma_last_index_of_bound(v@, '.');
    }
    let r = sub_vec(v, 0, end);
    proof {
        if crate::comfy::last_index_of(v@, '.') is None {
            assert(r@ =~= v@);
        }
    }
    r
}

/// Writes a recipe as an A1111 parameters text (see [`a1111_text_spec`]).
pub fn format_a1111(r: &RecipeText) -> (t: String)
    ensures
        t@ == a1111_text_spec(*r),
{
    let mut out = trim_vec(&chars_of(r.positive.as_str()));
    let ghost head = out@;
    let mut i: usize = 0;
    while i < r.loras.len()
        invariant
            i <= r.loras@.len(),
            out@ == head + loras_text_spec(r.loras@.take(i as int)),
        decreases r.loras@.len() - i,
    {
        let l = &r.loras[i];
        proof {
            assert(r.loras@.take(i + 1).drop_last() =~= r.loras@.take(i as int));
            assert(r.loras@.take(i + 1).last() == *l);
        }
        extend_str(&mut out, " <lora:");
        let stem = stem_vec(&chars_of(l.name.as_str()));
        extend_chars(&mut out, &stem);
        extend_str(&mut out, ":");
        extend_str(&mut out, l.model_w.as_str());
        match &l.clip_w {
            Some(c) => {
                extend_str(&mut out, ":");
                extend_str(&mut out, c.as_str());
            },
            None => {},
        }
        extend_str(&mut out, ">");
        assert(out@ =~= head + loras_text_spec(r.loras@.take(i + 1)));
        i += 1;
    }
    assert(r.loras@.take(r.loras@.len() as int) =~= r.loras@);
    extend_str(&mut out, "\n");
    extend_str(&mut out, "Negative prompt: ");
    let neg = trim_vec(&chars_of(r.negative.as_str()));
    extend_chars(&mut out, &neg);
    extend_str(&mut out, "\n");
    let fields = a1111_fields_exec(r);
    let joined = join_vecs(&fields, ", ");
    extend_chars(&mut out, &joined);
    extend_str(&mut out, "\n\n[synthesized from the ComfyUI workflow by Synthetrix]");
    assert(out@ =~= a1111_text_spec(*r));
    string_of(&out)
}


// ---------------------------------------------------------------------------
// Written LoRA tags read back
// ---------------------------------------------------------------------------

/// A position shifted by `d`, if there is one.
pub open spec fn shift_opt(o: Option<int>, d: int) -> Option<int> {
    match o {
        Some(k) => Some(k + d),
        None => None,
    }
}

/// No `c` in `s[i..j)`: the search for `c` from `i` is the search from `j`.
proof fn lemma_index_skip(s: Seq<char>, c: char, i: int, j: int)
    requires
        0 <= i <= j <= s.len(),
        forall|k: int| i <= k < j ==> s[k] != c,
    ensures
        index_of_char_from(s, c, i) == index_of_char_from(s, c, j),
    decreases j - i,
{
    if i < j {
        lemma_index_skip(s, c, i + 1, j);
    }
}

/// Searching `x + t` past `x` is searching `t`, shifted.
proof fn lemma_index_shift(x: Seq<char>, t: Seq<char>, c: char, i: int)
    requires
        i >= x.len(),
    ensures
        index_of_char_from(x + t, c, i) == shift_opt(index_of_char_from(t, c, i - x.len()), x.len() as int),
    decreases (x + t).len() - i,
{
    let s = x + t;
    if i < s.len() {
        assert(s[i] == t[i - x.len()]);
        if s[i] != c {
            lemma_index_shift(x, t, c, i + 1);
        }
    }
}

/// Reading `x + t` from a position past `x` is reading `t`.
proof fn lemma_scan_shift(x: Seq<char>, t: Seq<char>, pos: int)
    requires
        pos >= x.len(),
    ensures
        lora_scan(x + t, pos) == lora_scan(t, pos - x.len()),
    decreases (x + t).len() - pos,
{
    let s = x + t;
    let d = x.len() as int;
    if pos <= s.len() {
        lemma_index_shift(x, t, '<', pos);
        lemma_index_of_char_from(s, '<', pos);
        lemma_index_of_char_from(t, '<', pos - d);
        match index_of_char_from(t, '<', pos - d) {
            None => {
                assert(s.subrange(pos, s.len() as int) =~= t.subrange(pos - d, t.len() as int));
            },
            Some(lt0) => {
                let lt = lt0 + d;
                lemma_index_shift(x, t, '>', lt + 1);
                lemma_index_of_char_from(s, '>', lt + 1);
                lemma_index_of_char_from(t, '>', lt0 + 1);
                match index_of_char_from(t, '>', lt0 + 1) {
                    None => {
                        assert(s.subrange(pos, s.len() as int) =~= t.subrange(pos - d, t.len() as int));
                    },
                    Some(gt0) => {
                        let gt = gt0 + d;
                        lemma_scan_shift(x, t, gt + 1);
                        assert(s.subrange(lt + 1, gt) =~= t.subrange(lt0 + 1, gt0));
                        assert(s.subrange(pos, lt) =~= t.subrange(pos - d, lt0));
                    },
                }
            },
        }
    }
}

/// A `<`-free prefix is kept as it is, in front of what the rest gives.
proof fn lemma_scan_plain_prefix(x: Seq<char>, t: Seq<char>)
    requires
        forall|k: int| 0 <= k < x.len() ==> x[k] != '<',
    ensures
        lora_scan(x + t, 0) == (x + lora_scan(t, 0).0, lora_scan(t, 0).1),
{
    let s = x + t;
    let d = x.len() as int;
    lemma_index_skip(s, '<', 0, d);
    lemma_index_shift(x, t, '<', d);
    lemma_index_of_char_from(t, '<', 0);
    match index_of_char_from(t, '<', 0) {
        None => {
            assert(s.subrange(0, s.len() as int) =~= x + t.subrange(0, t.len() as int));
        },
        Some(lt0) => {
            let lt = lt0 + d;
            lemma_index_shift(x, t, '>', lt + 1);
            lemma_index_of_char_from(t, '>', lt0 + 1);
            match index_of_char_from(t, '>', lt0 + 1) {
                None => {
                    assert(s.subrange(0, s.len() as int) =~= x + t.subrange(0, t.len() as int));
                },
                Some(gt0) => {
                    let gt = gt0 + d;
                    lemma_scan_shift(x, t, gt + 1);
                    assert(s.subrange(lt + 1, gt) =~= t.subrange(lt0 + 1, gt0));
                    assert(s.subrange(0, lt) =~= x + t.subrange(0, lt0));
                    let rest = lora_scan(t, gt0 + 1);
                    assert(s.subrange(0, lt) + rest.0 =~= x + (t.subrange(0, lt0) + rest.0));
                    assert(s.subrange(0, lt) + seq!['<'] + s.subrange(lt + 1, gt) + seq!['>'] + rest.0
                        =~= x + (t.subrange(0, lt0) + seq!['<'] + t.subrange(lt0 + 1, gt0) + seq!['>'] + rest.0));
                },
            }
        },
    }
}

/// `s` has no `:`.
pub open spec fn colon_free(s: Seq<char>) -> bool {
    forall|k: int| 0 <= k < s.len() ==> s[k] != ':'
}

proof fn lemma_colon_scan_plain(a: Seq<char>)
    requires
        colon_free(a),
    ensures
        colon_scan(a) == (Seq::<Seq<char>>::empty(), a),
    decreases a.len(),
{
    if a.len() > 0 {
        lemma_colon_scan_plain(a.drop_last());
        assert(a.drop_last().push(a.last()) =~= a);
    }
}

proof fn lemma_colon_scan_join(a: Seq<char>, b: Seq<char>)
    ensures
        colon_scan(a + seq![':'] + b) == (colon_parts(a) + colon_scan(b).0, colon_scan(b).1),
    decreases b.len(),
{
    let s = a + seq![':'] + b;
    if b.len() == 0 {
        assert(s.drop_last() =~= a);
        assert(colon_parts(a) + Seq::<Seq<char>>::empty() =~= colon_parts(a));
    } else {
        lemma_colon_scan_join(a, b.drop_last());
        assert(s.drop_last() =~= a + seq![':'] + b.drop_last());
        assert(s.last() == b.last());
        let (d0, c0) = colon_scan(b.drop_last());
        if b.last() == ':' {
            assert((colon_parts(a) + d0).push(c0) =~= colon_parts(a) + d0.push(c0));
        }
    }
}

/// The `:`-parts of `a:b` are those of `a` followed by those of `b`.
proof fn lemma_colon_parts_join(a: Seq<char>, b: Seq<char>)
    ensures
        colon_parts(a + seq![':'] + b) == colon_parts(a) + colon_parts(b),
{
    lemma_colon_scan_join(a, b);
    assert((colon_parts(a) + colon_scan(b).0).push(colon_scan(b).1) =~= colon_parts(a) + colon_parts(b));
}

/// A piece of tag text has no `<`, `>` or `:` and no surrounding whitespace.
pub open spec fn plain_piece(t: Seq<char>) -> bool {
    &&& forall|k: int| 0 <= k < t.len() ==> t[k] != '<' && t[k] != '>' && t[k] != ':'
    &&& trim_seq(t) == t
}

/// A LoRA that reads back from its written tag: a non-empty plain name stem
/// and plain weight texts.
pub open spec fn plain_lora(l: LoraText) -> bool {
    &&& crate::comfy::stem_of(l.name@).len() > 0
    &&& plain_piece(crate::comfy::stem_of(l.name@))
    &&& plain_piece(l.model_w@)
    &&& (l.clip_w matches Some(c) ==> plain_piece(c@))
}

/// What reading back a written LoRA gives: its name stem and weight texts.
pub open spec fn read_back(l: LoraText) -> (Seq<char>, Option<Seq<char>>, Option<Seq<char>>) {
    (crate::comfy::stem_of(l.name@), Some(l.model_w@), crate::paths::opt_chars(l.clip_w))
}

/// `n` spaces.
pub open spec fn spaces(n: nat) -> Seq<char>
    decreases n,
{
    if n == 0 {
        seq![]
    } else {
        seq![' '] + spaces((n - 1) as nat)
    }
}

proof fn lemma_loras_text_front(ls: Seq<LoraText>)
    requires
        ls.len() > 0,
    ensures
        loras_text_spec(ls) == lora_text_spec(ls[0]) + loras_text_spec(ls.skip(1)),
    decreases ls.len(),
{
    if ls.len() == 1 {
        assert(ls.drop_last() =~= Seq::<LoraText>::empty());
        assert(ls.skip(1) =~= Seq::<LoraText>::empty());
        assert(loras_text_spec(ls.drop_last()) =~= Seq::<char>::empty());
        assert(ls.last() == ls[0]);
        assert(loras_text_spec(ls) =~= lora_text_spec(ls[0]));
    } else {
        lemma_loras_text_front(ls.drop_last());
        assert(ls.drop_last().skip(1) =~= ls.skip(1).drop_last());
        assert(ls.skip(1).last() == ls.last());
        assert(loras_text_spec(ls) =~= lora_text_spec(ls[0]) + loras_text_spec(ls.skip(1)));
    }
}

/// The clip-weight part of a written tag (`:wc`, or nothing).
pub open spec fn clip_part(l: LoraText) -> Seq<char> {
    match l.clip_w {
        Some(c) => ":"@ + c@,
        None => seq![],
    }
}

/// The body of a written tag, between its `<` and `>`.
pub open spec fn tag_inner(l: LoraText) -> Seq<char> {
    "lora"@ + seq![':'] + (crate::comfy::stem_of(l.name@) + seq![':'] + (l.model_w@ + clip_part(l)))
}

/// A written tag is a space, `<`, its body and `>`.
proof fn lemma_tag_shape(l: LoraText)
    ensures
        lora_text_spec(l) == seq![' ', '<'] + tag_inner(l) + seq!['>'],
{
    reveal_strlit(" <lora:");
    reveal_strlit(":");
    reveal_strlit(">");
    reveal_strlit("lora");
    assert(" <lora:"@ =~= seq![' ', '<'] + "lora"@ + seq![':']);
    assert(lora_text_spec(l) =~= seq![' ', '<'] + tag_inner(l) + seq!['>']);
}

/// The body of a written tag of a plain LoRA has no `>`.
proof fn lemma_tag_inner_no_gt(l: LoraText)
    requires
        plain_lora(l),
    ensures
        forall|k: int| 0 <= k < tag_inner(l).len() ==> tag_inner(l)[k] != '>',
{
    reveal_strlit("lora");
    reveal_strlit(":");
    let st = crate::comfy::stem_of(l.name@);
    let mw = l.model_w@;
    let cp = clip_part(l);
    let inner = tag_inner(l);
    assert forall|j: int| 0 <= j < inner.len() implies inner[j] != '>' by {
        if j < 5 {
        } else if j < 5 + st.len() {
            assert(inner[j] == st[j - 5]);
        } else if j == 5 + st.len() {
        } else {
            let q = j - 6 - st.len();
            assert(inner[j] == (mw + cp)[q]);
            if q < mw.len() {
                assert((mw + cp)[q] == mw[q]);
            } else {
                match l.clip_w {
                    Some(c) => {
                        assert(cp =~= seq![':'] + c@);
                        if q > mw.len() {
                            assert((mw + cp)[q] == c@[q - mw.len() - 1]);
                        }
                    },
                    None => {},
                }
            }
        }
    }
}

/// The body of a written tag names a LoRA and reads back as it.
proof fn lemma_tag_inner_reads_back(l: LoraText)
    requires
        plain_lora(l),
    ensures
        is_lora_kind(tag_inner(l)),
        lora_tag_spec(tag_inner(l)) == read_back(l),
{
    reveal_strlit("lora");
    reveal_strlit(":");
    let st = crate::comfy::stem_of(l.name@);
    let mw = l.model_w@;
    let cp = clip_part(l);
    let inner = tag_inner(l);
    lemma_colon_parts_join("lora"@, st + seq![':'] + (mw + cp));
    lemma_colon_parts_join(st, mw + cp);
    assert(colon_free("lora"@));
    lemma_colon_scan_plain("lora"@);
    lemma_colon_scan_plain(st);
    assert(colon_parts("lora"@) =~= seq!["lora"@]);
    assert(colon_parts(st) =~= seq![st]);
    match l.clip_w {
        Some(c) => {
            assert(mw + cp =~= mw + seq![':'] + c@);
            lemma_colon_parts_join(mw, c@);
            lemma_colon_scan_plain(mw);
            lemma_colon_scan_plain(c@);
            assert(colon_parts(mw) =~= seq![mw]);
            assert(colon_parts(c@) =~= seq![c@]);
            assert(colon_parts(inner) =~= seq!["lora"@, st, mw, c@]);
        },
        None => {
            assert(mw + cp =~= mw);
            lemma_colon_scan_plain(mw);
            assert(colon_parts(mw) =~= seq![mw]);
            assert(colon_parts(inner) =~= seq!["lora"@, st, mw]);
        },
    }
    assert(lower_seq("lora"@) =~= "lora"@);
}

/// One written tag in front of `z` reads back as its LoRA, leaving a space.
proof fn lemma_scan_one_tag(l: LoraText, z: Seq<char>)
    requires
        plain_lora(l),
    ensures
        lora_scan(lora_text_spec(l) + z, 0) == (seq![' '] + lora_scan(z, 0).0, seq![read_back(l)] + lora_scan(z, 0).1),
{
    let tag = lora_text_spec(l);
    let inner = tag_inner(l);
    lemma_tag_shape(l);
    lemma_tag_inner_no_gt(l);
    lemma_tag_inner_reads_back(l);
    let y = tag + z;
    let n = tag.len() as int;
    assert(y[0] == ' ' && y[1] == '<');
    lemma_index_skip(y, '<', 0, 1);
    assert forall|k: int| 2 <= k < n - 1 implies y[k] != '>' by {
        assert(y[k] == inner[k - 2]);
    }
    assert(y[n - 1] == '>');
    lemma_index_skip(y, '>', 2, n - 1);
    assert(index_of_char_from(y, '<', 0) == Some(1int));
    assert(index_of_char_from(y, '>', 2) == Some(n - 1));
    assert(y.subrange(2, n - 1) =~= inner);
    lemma_scan_shift(tag, z, n);
    assert(y.subrange(0, 1) =~= seq![' ']);
}

/// Writing LoRAs as inline tags after a prompt and pulling the tags back out
/// gives back each LoRA's name (without its extension) and weight texts, in
/// order, and leaves the prompt followed by one space per tag — when the
/// prompt has no `<` and the names and weights are plain text (no `<`, `>`,
/// `:` or surrounding whitespace; names not empty).
pub proof fn law_lora_tags_read_back(p: Seq<char>, ls: Seq<LoraText>)
    requires
        forall|k: int| 0 <= k < p.len() ==> p[k] != '<',
        forall|i: int| 0 <= i < ls.len() ==> plain_lora(#[trigger] ls[i]),
    ensures
        lora_scan(p + loras_text_spec(ls), 0) == (p + spaces(ls.len()), ls.map_values(|l: LoraText| read_back(l))),
    decreases ls.len(),
{
    lemma_scan_plain_prefix(p, loras_text_spec(ls));
    if ls.len() == 0 {
        assert(loras_text_spec(ls) =~= Seq::<char>::empty());
        assert(p + Seq::<char>::empty() =~= p);
        assert(ls.map_values(|l: LoraText| read_back(l)) =~= Seq::<(Seq<char>, Option<Seq<char>>, Option<Seq<char>>)>::empty());
    } else {
        let rest = ls.skip(1);
        assert forall|i: int| 0 <= i < rest.len() implies plain_lora(#[trigger] rest[i]) by {
            assert(rest[i] == ls[i + 1]);
        }
        law_lora_tags_read_back(Seq::<char>::empty(), rest);
        assert(Seq::<char>::empty() + loras_text_spec(rest) =~= loras_text_spec(rest));
        lemma_loras_text_front(ls);
        assert(plain_lora(ls[0]));
        lemma_scan_one_tag(ls[0], loras_text_spec(rest));
        let back = ls.map_values(|l: LoraText| read_back(l));
        assert(back =~= seq![read_back(ls[0])] + rest.map_values(|l: LoraText| read_back(l)));
        assert(spaces(ls.len()) =~= seq![' '] + spaces(rest.len()));
        assert(p + (seq![' '] + (Seq::<char>::empty() + spaces(rest.len()))) =~= p + spaces(ls.len()));
    }
}


/// The ComfyUI sampler names the mapping produces, other than `dpm_2`
/// (which does not contain `dpm2` or `dpm 2`, so the original too reads it
/// as plain Euler).
pub open spec fn comfy_sampler_names() -> Seq<Seq<char>> {
    seq!["dpmpp_3m_sde"@, "dpmpp_2m_sde"@, "dpmpp_2m"@, "dpmpp_2s_ancestral"@, "dpmpp_sde"@, "euler_ancestral"@, "euler"@, "lcm"@, "ddim"@, "uni_pc"@, "heun"@, "lms"@]
}

proof fn lemma_keeps_dpmpp_3m_sde()
    ensures
        sampler_for("dpmpp_3m_sde"@) == "dpmpp_3m_sde"@,
        sampler_schedule("dpmpp_3m_sde"@) == "normal"@,
{
    reveal_strlit("3m_sde");
    reveal_strlit("dpmpp_3m_sde");
    reveal_strlit("exponential");
    reveal_strlit("karras");
    reveal_strlit("normal");
    let n = "dpmpp_3m_sde"@;
    assert(n.subrange(6, 12) =~= "3m_sde"@);
    lemma_found(n, "3m_sde"@, 6);
    lemma_lacks(n, "karras"@, 0);
    lemma_lacks(n, "exponential"@, 1);
}

proof fn lemma_keeps_dpmpp_2m_sde()
    ensures
        sampler_for("dpmpp_2m_sde"@) == "dpmpp_2m_sde"@,
        sampler_schedule("dpmpp_2m_sde"@) == "normal"@,
{
    reveal_strlit("2m_sde");
    reveal_strlit("3m sde");
    reveal_strlit("3m_sde");
    reveal_strlit("dpmpp_2m_sde");
    reveal_strlit("exponential");
    reveal_strlit("karras");
    reveal_strlit("normal");
    let n = "dpmpp_2m_sde"@;
    lemma_lacks(n, "3m sde"@, 0);
    lemma_lacks(n, "3m_sde"@, 0);
    assert(n.subrange(6, 12) =~= "2m_sde"@);
    lemma_found(n, "2m_sde"@, 6);
    lemma_lacks(n, "karras"@, 0);
    lemma_lacks(n, "exponential"@, 1);
}

proof fn lemma_keeps_dpmpp_2m()
    ensures
        sampler_for("dpmpp_2m"@) == "dpmpp_2m"@,
        sampler_schedule("dpmpp_2m"@) == "normal"@,
{
    reveal_strlit("2m");
    reveal_strlit("2m sde");
    reveal_strlit("2m_sde");
    reveal_strlit("3m sde");
    reveal_strlit("3m_sde");
    reveal_strlit("dpmpp_2m");
    reveal_strlit("exponential");
    reveal_strlit("karras");
    reveal_strlit("normal");
    let n = "dpmpp_2m"@;
    lemma_lacks(n, "3m sde"@, 0);
    lemma_lacks(n, "3m_sde"@, 0);
    lemma_lacks(n, "2m sde"@, 2);
    lemma_lacks(n, "2m_sde"@, 3);
    assert(n.subrange(6, 8) =~= "2m"@);
    lemma_found(n, "2m"@, 6);
    lemma_lacks(n, "karras"@, 0);
    lemma_lacks(n, "exponential"@, 1);
}

proof fn lemma_keeps_dpmpp_2s_ancestral()
    ensures
        sampler_for("dpmpp_2s_ancestral"@) == "dpmpp_2s_ancestral"@,
        sampler_schedule("dpmpp_2s_ancestral"@) == "normal"@,
{
    reveal_strlit("2m");
    reveal_strlit("2m sde");
    reveal_strlit("2m_sde");
    reveal_strlit("2s_ancestral");
    reveal_strlit("3m sde");
    reveal_strlit("3m_sde");
    reveal_strlit("dpmpp_2s_ancestral");
    reveal_strlit("exponential");
    reveal_strlit("karras");
    reveal_strlit("normal");
    let n = "dpmpp_2s_ancestral"@;
    lemma_lacks(n, "3m sde"@, 0);
    lemma_lacks(n, "3m_sde"@, 0);
    lemma_lacks(n, "2m sde"@, 2);
    lemma_lacks_pair(n, "2m_sde"@, 0);
    lemma_lacks_pair(n, "2m"@, 0);
    assert(n.subrange(6, 18) =~= "2s_ancestral"@);
    lemma_found(n, "2s_ancestral"@, 6);
    lemma_lacks(n, "karras"@, 0);
    lemma_lacks(n, "exponential"@, 1);
}

proof fn lemma_keeps_dpmpp_sde()
    ensures
        sampler_for("dpmpp_sde"@) == "dpmpp_sde"@,
        sampler_schedule("dpmpp_sde"@) == "normal"@,
{
    reveal_strlit("2m");
    reveal_strlit("2m sde");
    reveal_strlit("2m_sde");
    reveal_strlit("2s a");
    reveal_strlit("2s_ancestral");
    reveal_strlit("3m sde");
    reveal_strlit("3m_sde");
    reveal_strlit("dpmpp_sde");
    reveal_strlit("exponential");
    reveal_strlit("karras");
    reveal_strlit("normal");
    let n = "dpmpp_sde"@;
    lemma_lacks(n, "3m sde"@, 0);
    lemma_lacks(n, "3m_sde"@, 0);
    lemma_lacks(n, "2m sde"@, 0);
    lemma_lacks(n, "2m_sde"@, 0);
    lemma_lacks(n, "2m"@, 0);
    lemma_lacks(n, "2s a"@, 0);
    lemma_lacks(n, "2s_ancestral"@, 0);
    assert(n.subrange(0, 9) =~= "dpmpp_sde"@);
    lemma_found(n, "dpmpp_sde"@, 0);
    lemma_lacks(n, "karras"@, 0);
    lemma_lacks(n, "exponential"@, 1);
}

proof fn lemma_keeps_euler_ancestral()
    ensures
        sampler_for("euler_ancestral"@) == "euler_ancestral"@,
        sampler_schedule("euler_ancestral"@) == "normal"@,
{
    reveal_strlit("++ sde");
    reveal_strlit("2m");
    reveal_strlit("2m sde");
    reveal_strlit("2m_sde");
    reveal_strlit("2s a");
    reveal_strlit("2s_ancestral");
    reveal_strlit("3m sde");
    reveal_strlit("3m_sde");
    reveal_strlit("dpm 2");
    reveal_strlit("dpm++ sde");
    reveal_strlit("dpm2");
    reveal_strlit("dpmpp_sde");
    reveal_strlit("euler_ancestral");
    reveal_strlit("exponential");
    reveal_strlit("karras");
    reveal_strlit("normal");
    let n = "euler_ancestral"@;
    lemma_lacks(n, "3m sde"@, 0);
    lemma_lacks(n, "3m_sde"@, 0);
    lemma_lacks(n, "2m sde"@, 0);
    lemma_lacks(n, "2m_sde"@, 0);
    lemma_lacks(n, "2m"@, 0);
    lemma_lacks(n, "2s a"@, 0);
    lemma_lacks(n, "2s_ancestral"@, 0);
    lemma_lacks(n, "++ sde"@, 0);
    lemma_lacks(n, "dpmpp_sde"@, 0);
    lemma_lacks(n, "dpm++ sde"@, 0);
    lemma_lacks(n, "dpm2"@, 0);
    lemma_lacks(n, "dpm 2"@, 0);
    assert(n.subrange(0, 15) =~= "euler_ancestral"@);
    lemma_found(n, "euler_ancestral"@, 0);
    lemma_lacks(n, "karras"@, 0);
    lemma_lacks(n, "exponential"@, 1);
}

proof fn lemma_keeps_euler()
    ensures
        sampler_for("euler"@) == "euler"@,
        sampler_schedule("euler"@) == "normal"@,
{
    reveal_strlit("++ sde");
    reveal_strlit("2m");
    reveal_strlit("2m sde");
    reveal_strlit("2m_sde");
    reveal_strlit("2s a");
    reveal_strlit("2s_ancestral");
    reveal_strlit("3m sde");
    reveal_strlit("3m_sde");
    reveal_strlit("dpm 2");
    reveal_strlit("dpm++ sde");
    reveal_strlit("dpm2");
    reveal_strlit("dpmpp_sde");
    reveal_strlit("euler");
    reveal_strlit("euler a");
    reveal_strlit("euler_ancestral");
    reveal_strlit("exponential");
    reveal_strlit("karras");
    reveal_strlit("normal");
    let n = "euler"@;
    lemma_lacks(n, "3m sde"@, 0);
    lemma_lacks(n, "3m_sde"@, 0);
    lemma_lacks(n, "2m sde"@, 0);
    lemma_lacks(n, "2m_sde"@, 0);
    lemma_lacks(n, "2m"@, 0);
    lemma_lacks(n, "2s a"@, 0);
    lemma_lacks(n, "2s_ancestral"@, 0);
    lemma_lacks(n, "++ sde"@, 0);
    lemma_lacks(n, "dpmpp_sde"@, 0);
    lemma_lacks(n, "dpm++ sde"@, 0);
    lemma_lacks(n, "dpm2"@, 0);
    lemma_lacks(n, "dpm 2"@, 0);
    lemma_lacks(n, "euler a"@, 5);
    lemma_lacks(n, "euler_ancestral"@, 5);
    assert(n.subrange(0, 5) =~= "euler"@);
    lemma_found(n, "euler"@, 0);
    lemma_lacks(n, "karras"@, 0);
    lemma_lacks(n, "exponential"@, 1);
}

proof fn lemma_keeps_lcm()
    ensures
        sampler_for("lcm"@) == "lcm"@,
        sampler_schedule("lcm"@) == "normal"@,
{
    reveal_strlit("++ sde");
    reveal_strlit("2m");
    reveal_strlit("2m sde");
    reveal_strlit("2m_sde");
    reveal_strlit("2s a");
    reveal_strlit("2s_ancestral");
    reveal_strlit("3m sde");
    reveal_strlit("3m_sde");
    reveal_strlit("dpm 2");
    reveal_strlit("dpm++ sde");
    reveal_strlit("dpm2");
    reveal_strlit("dpmpp_sde");
    reveal_strlit("euler");
    reveal_strlit("euler a");
    reveal_strlit("euler_ancestral");
    reveal_strlit("exponential");
    reveal_strlit("karras");
    reveal_strlit("lcm");
    reveal_strlit("normal");
    let n = "lcm"@;
    lemma_lacks(n, "3m sde"@, 0);
    lemma_lacks(n, "3m_sde"@, 0);
    lemma_lacks(n, "2m sde"@, 0);
    lemma_lacks(n, "2m_sde"@, 0);
    lemma_lacks(n, "2m"@, 0);
    lemma_lacks(n, "2s a"@, 0);
    lemma_lacks(n, "2s_ancestral"@, 0);
    lemma_lacks(n, "++ sde"@, 0);
    lemma_lacks(n, "dpmpp_sde"@, 0);
    lemma_lacks(n, "dpm++ sde"@, 0);
    lemma_lacks(n, "dpm2"@, 0);
    lemma_lacks(n, "dpm 2"@, 0);
    lemma_lacks(n, "euler a"@, 0);
    lemma_lacks(n, "euler_ancestral"@, 0);
    lemma_lacks(n, "euler"@, 0);
    assert(n.subrange(0, 3) =~= "lcm"@);
    lemma_found(n, "lcm"@, 0);
    lemma_lacks(n, "karras"@, 0);
    lemma_lacks(n, "exponential"@, 1);
}

proof fn lemma_keeps_ddim()
    ensures
        sampler_for("ddim"@) == "ddim"@,
        sampler_schedule("ddim"@) == "normal"@,
{
    reveal_strlit("++ sde");
    reveal_strlit("2m");
    reveal_strlit("2m sde");
    reveal_strlit("2m_sde");
    reveal_strlit("2s a");
    reveal_strlit("2s_ancestral");
    reveal_strlit("3m sde");
    reveal_strlit("3m_sde");
    reveal_strlit("ddim");
    reveal_strlit("dpm 2");
    reveal_strlit("dpm++ sde");
    reveal_strlit("dpm2");
    reveal_strlit("dpmpp_sde");
    reveal_strlit("euler");
    reveal_strlit("euler a");
    reveal_strlit("euler_ancestral");
    reveal_strlit("exponential");
    reveal_strlit("karras");
    reveal_strlit("lcm");
    reveal_strlit("normal");
    let n = "ddim"@;
    lemma_lacks(n, "3m sde"@, 0);
    lemma_lacks(n, "3m_sde"@, 0);
    lemma_lacks(n, "2m sde"@, 0);
    lemma_lacks(n, "2m_sde"@, 0);
    lemma_lacks(n, "2m"@, 0);
    lemma_lacks(n, "2s a"@, 0);
    lemma_lacks(n, "2s_ancestral"@, 0);
    lemma_lacks(n, "++ sde"@, 0);
    lemma_lacks(n, "dpmpp_sde"@, 1);
    lemma_lacks(n, "dpm++ sde"@, 1);
    lemma_lacks(n, "dpm2"@, 1);
    lemma_lacks(n, "dpm 2"@, 1);
    lemma_lacks(n, "euler a"@, 0);
    lemma_lacks(n, "euler_ancestral"@, 0);
    lemma_lacks(n, "euler"@, 0);
    lemma_lacks(n, "lcm"@, 0);
    assert(n.subrange(0, 4) =~= "ddim"@);
    lemma_found(n, "ddim"@, 0);
    lemma_lacks(n, "karras"@, 0);
    lemma_lacks(n, "exponential"@, 1);
}

proof fn lemma_keeps_uni_pc()
    ensures
        sampler_for("uni_pc"@) == "uni_pc"@,
        sampler_schedule("uni_pc"@) == "normal"@,
{
    reveal_strlit("++ sde");
    reveal_strlit("2m");
    reveal_strlit("2m sde");
    reveal_strlit("2m_sde");
    reveal_strlit("2s a");
    reveal_strlit("2s_ancestral");
    reveal_strlit("3m sde");
    reveal_strlit("3m_sde");
    reveal_strlit("ddim");
    reveal_strlit("dpm 2");
    reveal_strlit("dpm++ sde");
    reveal_strlit("dpm2");
    reveal_strlit("dpmpp_sde");
    reveal_strlit("euler");
    reveal_strlit("euler a");
    reveal_strlit("euler_ancestral");
    reveal_strlit("exponential");
    reveal_strlit("karras");
    reveal_strlit("lcm");
    reveal_strlit("normal");
    reveal_strlit("uni_pc");
    let n = "uni_pc"@;
    lemma_lacks(n, "3m sde"@, 0);
    lemma_lacks(n, "3m_sde"@, 0);
    lemma_lacks(n, "2m sde"@, 0);
    lemma_lacks(n, "2m_sde"@, 0);
    lemma_lacks(n, "2m"@, 0);
    lemma_lacks(n, "2s a"@, 0);
    lemma_lacks(n, "2s_ancestral"@, 0);
    lemma_lacks(n, "++ sde"@, 0);
    lemma_lacks(n, "dpmpp_sde"@, 0);
    lemma_lacks(n, "dpm++ sde"@, 0);
    lemma_lacks(n, "dpm2"@, 0);
    lemma_lacks(n, "dpm 2"@, 0);
    lemma_lacks(n, "euler a"@, 0);
    lemma_lacks(n, "euler_ancestral"@, 0);
    lemma_lacks(n, "euler"@, 0);
    lemma_lacks(n, "lcm"@, 0);
    lemma_lacks(n, "ddim"@, 0);
    assert(n.subrange(0, 6) =~= "uni_pc"@);
    lemma_found(n, "uni_pc"@, 0);
    lemma_lacks(n, "karras"@, 0);
    lemma_lacks(n, "exponential"@, 1);
}

proof fn lemma_keeps_heun()
    ensures
        sampler_for("heun"@) == "heun"@,
        sampler_schedule("heun"@) == "normal"@,
{
    reveal_strlit("++ sde");
    reveal_strlit("2m");
    reveal_strlit("2m sde");
    reveal_strlit("2m_sde");
    reveal_strlit("2s a");
    reveal_strlit("2s_ancestral");
    reveal_strlit("3m sde");
    reveal_strlit("3m_sde");
    reveal_strlit("ddim");
    reveal_strlit("dpm 2");
    reveal_strlit("dpm++ sde");
    reveal_strlit("dpm2");
    reveal_strlit("dpmpp_sde");
    reveal_strlit("euler");
    reveal_strlit("euler a");
    reveal_strlit("euler_ancestral");
    reveal_strlit("exponential");
    reveal_strlit("heun");
    reveal_strlit("karras");
    reveal_strlit("lcm");
    reveal_strlit("normal");
    reveal_strlit("uni_pc");
    reveal_strlit("unipc");
    let n = "heun"@;
    lemma_lacks(n, "3m sde"@, 0);
    lemma_lacks(n, "3m_sde"@, 0);
    lemma_lacks(n, "2m sde"@, 0);
    lemma_lacks(n, "2m_sde"@, 0);
    lemma_lacks(n, "2m"@, 0);
    lemma_lacks(n, "2s a"@, 0);
    lemma_lacks(n, "2s_ancestral"@, 0);
    lemma_lacks(n, "++ sde"@, 0);
    lemma_lacks(n, "dpmpp_sde"@, 0);
    lemma_lacks(n, "dpm++ sde"@, 0);
    lemma_lacks(n, "dpm2"@, 0);
    lemma_lacks(n, "dpm 2"@, 0);
    lemma_lacks(n, "euler a"@, 2);
    lemma_lacks(n, "euler_ancestral"@, 2);
    lemma_lacks(n, "euler"@, 2);
    lemma_lacks(n, "lcm"@, 0);
    lemma_lacks(n, "ddim"@, 0);
    lemma_lacks(n, "unipc"@, 2);
    lemma_lacks(n, "uni_pc"@, 2);
    assert(n.subrange(0, 4) =~= "heun"@);
    lemma_found(n, "heun"@, 0);
    lemma_lacks(n, "karras"@, 0);
    lemma_lacks(n, "exponential"@, 1);
}

proof fn lemma_keeps_lms()
    ensures
        sampler_for("lms"@) == "lms"@,
        sampler_schedule("lms"@) == "normal"@,
{
    reveal_strlit("++ sde");
    reveal_strlit("2m");
    reveal_strlit("2m sde");
    reveal_strlit("2m_sde");
    reveal_strlit("2s a");
    reveal_strlit("2s_ancestral");
    reveal_strlit("3m sde");
    reveal_strlit("3m_sde");
    reveal_strlit("ddim");
    reveal_strlit("dpm 2");
    reveal_strlit("dpm++ sde");
    reveal_strlit("dpm2");
    reveal_strlit("dpmpp_sde");
    reveal_strlit("euler");
    reveal_strlit("euler a");
    reveal_strlit("euler_ancestral");
    reveal_strlit("exponential");
    reveal_strlit("heun");
    reveal_strlit("karras");
    reveal_strlit("lcm");
    reveal_strlit("lms");
    reveal_strlit("normal");
    reveal_strlit("uni_pc");
    reveal_strlit("unipc");
    let n = "lms"@;
    lemma_lacks(n, "3m sde"@, 0);
    lemma_lacks(n, "3m_sde"@, 0);
    lemma_lacks(n, "2m sde"@, 0);
    lemma_lacks(n, "2m_sde"@, 0);
    lemma_lacks(n, "2m"@, 0);
    lemma_lacks(n, "2s a"@, 0);
    lemma_lacks(n, "2s_ancestral"@, 0);
    lemma_lacks(n, "++ sde"@, 0);
    lemma_lacks(n, "dpmpp_sde"@, 0);
    lemma_lacks(n, "dpm++ sde"@, 0);
    lemma_lacks(n, "dpm2"@, 0);
    lemma_lacks(n, "dpm 2"@, 0);
    lemma_lacks(n, "euler a"@, 0);
    lemma_lacks(n, "euler_ancestral"@, 0);
    lemma_lacks(n, "euler"@, 0);
    lemma_lacks(n, "lcm"@, 1);
    lemma_lacks(n, "ddim"@, 0);
    lemma_lacks(n, "unipc"@, 0);
    lemma_lacks(n, "uni_pc"@, 0);
    lemma_lacks(n, "heun"@, 0);
    assert(n.subrange(0, 3) =~= "lms"@);
    lemma_found(n, "lms"@, 0);
    lemma_lacks(n, "karras"@, 0);
    lemma_lacks(n, "exponential"@, 1);
}

/// A label that already is a ComfyUI sampler name keeps it, with the
/// `normal` scheduler: `sampler_for(n) == n` for each such name `n`.
pub proof fn law_comfy_sampler_names_kept()
    ensures
        forall|i: int| 0 <= i < comfy_sampler_names().len() ==> sampler_for(#[trigger] comfy_sampler_names()[i])
            == comfy_sampler_names()[i] && sampler_schedule(comfy_sampler_names()[i]) == "normal"@,
{
    lemma_keeps_dpmpp_3m_sde();
    lemma_keeps_dpmpp_2m_sde();
    lemma_keeps_dpmpp_2m();
    lemma_keeps_dpmpp_2s_ancestral();
    lemma_keeps_dpmpp_sde();
    lemma_keeps_euler_ancestral();
    lemma_keeps_euler();
    lemma_keeps_lcm();
    lemma_keeps_ddim();
    lemma_keeps_uni_pc();
    lemma_keeps_heun();
    lemma_keeps_lms();
    let names = comfy_sampler_names();
    assert forall|i: int| 0 <= i < names.len() implies sampler_for(#[trigger] names[i]) == names[i]
        && sampler_schedule(names[i]) == "normal"@ by {
    }
}

} // verus!
