//! The state behind the app's tabs and the small rules its forms apply:
//! optional text inputs, the asset-kind filter, the catalogue status badge,
//! and the prompt lint.
use vstd::prelude::*;
use crate::text::{
    chars_of, sub_vec, contains_seq, contains_str, extend_chars, extend_str, join_seq, join_vecs, string_of,
    to_lowercase, trim_seq, trim_str, trim_vec, unicode_lowercase, views, lemma_views_push, str_eq,
};
use crate::lore::{byte_len, byte_len_vec, LoreEntry};
use crate::project::PromptRow;

verus! {

/// The app's tabs.
#[derive(PartialEq, Eq, Structural, Clone, Copy, Debug)]
pub enum Tab {
    Dashboard,
    Forge,
    Assets,
    Prompts,
    Lore,
    Pipelines,
    Runtime,
    Releases,
    Fetcher,
    Picker,
    Manifest,
    Settings,
}

/// Prompt matrix tab state: filter/import inputs + the row being edited.
#[derive(Default)]
pub struct PromptsUi {
    pub filter: String,
    pub import_entity: String,
    /// id == 0 => new
    pub edit: PromptRow,
    pub editing: bool,
}

/// Release authority tab state: cut name + expanded manifest view.
#[derive(Default)]
pub struct ReleasesUi {
    pub name: String,
    /// release id whose manifest is shown
    pub expanded: Option<i64>,
}

/// Composite pipelines tab state: chosen build + notion/entity inputs.
#[derive(Default)]
pub struct PipelinesUi {
    /// pipeline def name
    pub selected: String,
    pub entity: String,
    pub prompt: String,
    pub model: String,
}

/// Lore subsystem tab state: filter chips + free-text search + open reader.
#[derive(Default)]
pub struct LoreUi {
    /// None = all kinds
    pub kind: Option<String>,
    pub search: String,
    /// The entry currently open in the reader (id + full body text).
    pub open: Option<(LoreEntry, String)>,
}

/// Asset Manager tab inputs.
#[derive(Default)]
pub struct AssetsUi {
    /// 0 All, 1 image, 2 video, 3 audio, 4 mesh, 5 other
    pub kind_idx: usize,
    pub entity: String,
    /// engine placement topic (Characters/Props/…)
    pub topic: String,
}

/// Per-model cover thumbnail state (resolved against the on-disk cache).
#[derive(Clone, Debug)]
pub enum CoverState {
    Requested,
    Ready(String),
    Missing,
}

/// An optional text input: the trimmed text, or nothing when it is blank.
pub fn non_empty(s: &str) -> (r: Option<String>)
    ensures
        trim_seq(s@).len() == 0 ==> r is None,
        trim_seq(s@).len() > 0 ==> (r matches Some(t) && t@ == trim_seq(s@)),
{
    let t = trim_str(s);
    if t.as_str().is_empty() {
        None
    } else {
        Some(t)
    }
}

/// The asset kinds the Asset Manager filters by, in the order of its list.
pub open spec fn asset_kinds() -> Seq<Seq<char>> {
    seq!["All"@, "image"@, "video"@, "audio"@, "mesh"@, "other"@]
}

/// The kind filter for the selected list entry: none for `All`, else the kind.
pub fn asset_kind_filter(kind_idx: usize) -> (r: Option<String>)
    requires
        kind_idx < 6,
    ensures
        kind_idx == 0 ==> r is None,
        kind_idx > 0 ==> (r matches Some(k) && k@ == asset_kinds()[kind_idx as int]),
{
    if kind_idx == 0 {
        None
    } else if kind_idx == 1 {
        Some("image".to_owned())
    } else if kind_idx == 2 {
        Some("video".to_owned())
    } else if kind_idx == 3 {
        Some("audio".to_owned())
    } else if kind_idx == 4 {
        Some("mesh".to_owned())
    } else {
        Some("other".to_owned())
    }
}

/// The catalogue badge text for a file's status.
pub open spec fn badge_spec(status: Seq<char>, locked: bool) -> Seq<char> {
    if status == "promoted"@ {
        if locked {
            "🔒 ACTIVE"@
        } else {
            "● ACTIVE"@
        }
    } else if status == "downloaded"@ {
        "▼ DOWNLOADED"@
    } else {
        "○ listed"@
    }
}

/// The catalogue badge text for a file's status (promoted files are active,
/// with a lock when pinned).
pub fn badge_label(status: &str, locked: bool) -> (r: &'static str)
    ensures
        r@ == badge_spec(status@, locked),
{
    if str_eq(status, "promoted") {
        if locked {
            "🔒 ACTIVE"
        } else {
            "● ACTIVE"
        }
    } else if str_eq(status, "downloaded") {
        "▼ DOWNLOADED"
    } else {
        "○ listed"
    }
}

// ---------------------------------------------------------------------------
// Prompt lint
// ---------------------------------------------------------------------------

/// Brand terms whose naming bleeds another IP into a prompt.
pub open spec fn bleed_terms() -> Seq<Seq<char>> {
    seq![
        "warhammer"@, "40k"@, "primaris"@, "space marine"@, "adeptus"@, "halo"@, "spartan"@,
        "master chief"@, "star wars"@, "stormtrooper"@, "jedi"@, "sith"@, "gundam"@,
        "mandalorian"@, "witcher"@,
    ]
}

/// The bleed terms found in the lowercased prompt, in list order.
pub open spec fn bleed_hits(low: Seq<char>) -> Seq<Seq<char>> {
    bleed_terms().filter(|t: Seq<char>| contains_seq(low, t))
}

/// The lint for a prompt given its lowercased text: naming a brand comes
/// first, then a prompt under 8 bytes (trimmed) is too short.
pub open spec fn lint_spec(body: Seq<char>, low: Seq<char>) -> Option<Seq<char>> {
    let hits = bleed_hits(low);
    if hits.len() > 0 {
        Some("IP-bleed risk: "@ + join_seq(hits, ", "@)
            + " — anchor positively (describe the look) instead of naming the brand"@)
    } else if byte_len(trim_seq(body)) < 8 {
        Some("very short — add subject + style anchors"@)
    } else {
        None
    }
}

/// The lint for a prompt whose lowercased text is `low` (see [`lint_spec`]).
pub fn lint_lowered(body: &str, low: &str) -> (r: Option<String>)
    ensures
        match r {
            Some(m) => lint_spec(body@, low@) == Some(m@),
            None => lint_spec(body@, low@) is None,
        },
{
    let terms = [
        "warhammer", "40k", "primaris", "space marine", "adeptus", "halo", "spartan",
        "master chief", "star wars", "stormtrooper", "jedi", "sith", "gundam", "mandalorian",
        "witcher",
    ];
    let lv = chars_of(low);
    let mut hits: Vec<Vec<char>> = Vec::new();
    let mut i: usize = 0;
    while i < 15
        invariant
            i <= 15,
            lv@ == low@,
            terms@.len() == 15,
            forall|k: int| 0 <= k < 15 ==> (#[trigger] terms@[k])@ == bleed_terms()[k],
            views(hits@) == bleed_terms().take(i as int).filter(|t: Seq<char>| contains_seq(low@, t)),
        decreases 15 - i,
    {
        proof {
            assert(bleed_terms().take(i + 1).drop_last() =~= bleed_terms().take(i as int));
            reveal(Seq::filter);
        }
        if contains_str(&lv, terms[i]) {
            let t = chars_of(terms[i]);
            proof {
                lemma_views_push(hits@, t);
            }
            hits.push(t);
        }
        i += 1;
    }
    proof {
        assert(bleed_terms().take(15) =~= bleed_terms());
    }
    if hits.len() > 0 {
        let mut m = chars_of("IP-bleed risk: ");
        let j = join_vecs(&hits, ", ");
        extend_chars(&mut m, &j);
        extend_str(&mut m, " — anchor positively (describe the look) instead of naming the brand");
        return Some(string_of(&m));
    }
    let t = trim_vec(&chars_of(body));
    if byte_len_vec(&t) < 8 {
        Some("very short — add subject + style anchors".to_owned())
    } else {
        None
    }
}

/// Positive-anchoring lint: flag IP-bleed brand terms + too-short prompts
/// (brand terms are looked for in the Unicode-lowercased prompt).
pub fn prompt_lint(body: &str) -> (r: Option<String>)
    ensures
        match r {
            Some(m) => lint_spec(body@, unicode_lowercase(body@)) == Some(m@),
            None => lint_spec(body@, unicode_lowercase(body@)) is None,
        },
{
    let low = to_lowercase(body);
    lint_lowered(body, low.as_str())
}


// ---------------------------------------------------------------------------
// The model info overlay
// ---------------------------------------------------------------------------

pub open spec fn is_bracket(c: char) -> bool {
    c == '[' || c == ']'
}

pub open spec fn strip_brackets_front(s: Seq<char>) -> Seq<char>
    decreases s.len(),
{
    if s.len() > 0 && is_bracket(s[0]) {
        strip_brackets_front(s.drop_first())
    } else {
        s
    }
}

pub open spec fn strip_brackets_back(s: Seq<char>) -> Seq<char>
    decreases s.len(),
{
    if s.len() > 0 && is_bracket(s.last()) {
        strip_brackets_back(s.drop_last())
    } else {
        s
    }
}

/// What one character of the stored list becomes on screen: quotes vanish,
/// a comma gets a space after it.
pub open spec fn shown_char(c: char) -> Seq<char> {
    if c == '"' {
        seq![]
    } else if c == ',' {
        seq![',', ' ']
    } else {
        seq![c]
    }
}

pub open spec fn shown_chars(s: Seq<char>) -> Seq<char>
    decreases s.len(),
{
    if s.len() == 0 {
        seq![]
    } else {
        shown_chars(s.drop_last()) + shown_char(s.last())
    }
}

/// The trigger words as listed: the stored JSON-ish list with its brackets
/// trimmed from both ends, its quotes removed and `, ` between words.
pub open spec fn trigger_words_spec(stored: Seq<char>) -> Seq<char> {
    shown_chars(strip_brackets_back(strip_brackets_front(stored)))
}

/// The text of a model's info overlay: its trigger words, or a note that it
/// has none when nothing but blanks is left.
pub open spec fn trigger_info_spec(stored: Seq<char>) -> Seq<char> {
    if trim_seq(trigger_words_spec(stored)).len() == 0 {
        "(this model has no trigger words)"@
    } else {
        trigger_words_spec(stored)
    }
}

/// The info overlay text for a model whose trained words are `stored`
/// (for example `["a","b"]` shows as `a, b`).
pub fn trigger_info(stored: &str) -> (r: String)
    ensures
        r@ == trigger_info_spec(stored@),
{
    let v = chars_of(stored);
    let n = v.len();
    let mut lo: usize = 0;
    assert(v@.skip(0) =~= v@);
    while lo < n && (v[lo] == '[' || v[lo] == ']')
        invariant
            lo <= n == v.len(),
            strip_brackets_front(v@) == strip_brackets_front(v@.skip(lo as int)),
        decreases n - lo,
    {
        assert(v@.skip(lo as int).drop_first() =~= v@.skip(lo + 1));
        lo += 1;
    }
    assert(strip_brackets_front(v@) == v@.skip(lo as int));
    assert(v@.skip(lo as int) =~= v@.subrange(lo as int, n as int));
    let mut hi: usize = n;
    while hi > lo && (v[hi - 1] == '[' || v[hi - 1] == ']')
        invariant
            lo <= hi <= n == v.len(),
            strip_brackets_back(v@.subrange(lo as int, n as int)) == strip_brackets_back(
                v@.subrange(lo as int, hi as int),
            ),
        decreases hi,
    {
        assert(v@.subrange(lo as int, hi as int).drop_last() =~= v@.subrange(lo as int, hi - 1));
        hi -= 1;
    }
    let core = sub_vec(&v, lo, hi);
    let mut out: Vec<char> = Vec::new();
    let mut i: usize = 0;
    while i < core.len()
        invariant
            i <= core@.len(),
            out@ == shown_chars(core@.take(i as int)),
        decreases core@.len() - i,
    {
        let c = core[i];
        assert(core@.take(i + 1).drop_last() =~= core@.take(i as int));
        if c == '"' {
        } else if c == ',' {
            out.push(',');
            out.push(' ');
        } else {
            out.push(c);
        }
        assert(out@ =~= shown_chars(core@.take(i + 1)));
        i += 1;
    }
    assert(core@.take(core@.len() as int) =~= core@);
    let t = trim_vec(&out);
    if t.len() == 0 {
        "(this model has no trigger words)".to_owned()
    } else {
        string_of(&out)
    }
}

} // verus!
