//! Per-IP project workspace records, the media classifier of the asset vault,
//! and the `prompts.md` importer of the prompt matrix.
use vstd::prelude::*;
use crate::text::{
    chars_of, chars_eq, contains_seq, contains_str, lines_seq, lines_vec, lower_seq, lower_vec,
    starts_with_seq, starts_with_str, string_of, string_of_range, sub_vec, trim_bounds, trim_seq,
    trim_vec, to_lowercase, unicode_lowercase, index_of_char_from, index_of_char_exec,
    lemma_index_of_char_from, extend_chars, views,
};
use crate::paths;

verus! {

/// Row counts for the dashboard.
#[derive(Clone, Copy, Default, Debug)]
pub struct ProjectStats {
    pub jobs: i64,
    pub assets: i64,
    pub prompts: i64,
    pub lore: i64,
}

/// A generation job of the queue.
#[derive(Clone)]
pub struct JobRow {
    pub id: i64,
    pub kind: String,
    pub status: String,
    pub backend: String,
    pub entity: String,
    pub prompt: String,
    pub output_path: Option<String>,
    pub detail: Option<String>,
    pub created_at: String,
}

/// An asset of the IP's digital vault.
#[derive(Clone)]
pub struct AssetRow {
    pub id: i64,
    pub kind: String,
    pub name: String,
    pub entity: String,
    pub media_type: String,
    pub path: String,
    pub engine_path: Option<String>,
    pub created_at: String,
}

/// A prompt of the prompt storage matrix.
#[derive(Clone, Default)]
pub struct PromptRow {
    pub id: i64,
    pub entity: String,
    pub slot: String,  // e.g. "Full Body Photoreal"
    pub stage: String,  // "2d" | "video" | "voice" | "3d"
    pub backend: String,
    pub model: String,
    pub body: String,
    pub params: String,
    pub notes: String,
    pub updated_at: String,
}

/// A composite pipeline run.
#[derive(Clone, Default)]
pub struct PipelineRun {
    pub id: i64,
    pub name: String,
    pub entity: String,
    pub notion: String,
    pub status: String,
    /// JSON array of stage states: [{kind,backend,status,detail,asset_id}].
    pub stages: String,
    pub detail: String,
    pub updated_at: String,
}

/// A release (freeze or ship-cut) of the IP.
#[derive(Clone, Default)]
pub struct ReleaseRow {
    pub id: i64,
    pub name: String,
    pub kind: String,  // "freeze" | "shipcut"
    pub manifest: String,
    pub created_at: String,
}

// ---------------------------------------------------------------------------
// Media classification
// ---------------------------------------------------------------------------

/// (kind, media type) for a lowercase file extension. `kind` is the coarse
/// bucket of the Asset Manager filters; the media type is a MIME-ish string.
pub open spec fn media_for_ext(e: Seq<char>) -> (Seq<char>, Seq<char>) {
    if e == "png"@ {
        ("image"@, "image/png"@)
    } else if e == "jpg"@ || e == "jpeg"@ {
        ("image"@, "image/jpeg"@)
    } else if e == "webp"@ {
        ("image"@, "image/webp"@)
    } else if e == "gif"@ {
        ("image"@, "image/gif"@)
    } else if e == "mp4"@ || e == "mov"@ || e == "webm"@ || e == "mkv"@ {
        ("video"@, "video/"@ + e)
    } else if e == "wav"@ {
        ("audio"@, "audio/wav"@)
    } else if e == "mp3"@ {
        ("audio"@, "audio/mpeg"@)
    } else if e == "flac"@ || e == "ogg"@ || e == "aac"@ || e == "m4a"@ {
        ("audio"@, "audio/"@ + e)
    } else if e == "glb"@ || e == "gltf"@ {
        ("mesh"@, "model/gltf-binary"@)
    } else if e == "fbx"@ || e == "obj"@ || e == "usdz"@ || e == "usd"@ || e == "ply"@ || e
        == "stl"@ {
        ("mesh"@, "model/"@ + e)
    } else {
        ("other"@, "application/octet-stream"@)
    }
}

fn is_one_of(v: &Vec<char>, a: &str) -> (r: bool)
    ensures
        r == (v@ == a@),
{
    let av = chars_of(a);
    chars_eq(v, &av)
}

/// The string "`prefix``e`".
fn concat(prefix: &str, e: &Vec<char>) -> (r: String)
    ensures
        r@ == prefix@ + e@,
{
    let mut v = chars_of(prefix);
    extend_chars(&mut v, e);
    string_of(&v)
}

/// Classify a file by its extension (compared without ASCII case):
/// (kind, media_type).
pub fn media_type_for_ext(ext: &str) -> (r: (&'static str, String))
    ensures
        (r.0@, r.1@) == media_for_ext(lower_seq(ext@)),
{
    let e = lower_vec(&chars_of(ext));
    if is_one_of(&e, "png") {
        ("image", "image/png".to_owned())
    } else if is_one_of(&e, "jpg") || is_one_of(&e, "jpeg") {
        ("image", "image/jpeg".to_owned())
    } else if is_one_of(&e, "webp") {
        ("image", "image/webp".to_owned())
    } else if is_one_of(&e, "gif") {
        ("image", "image/gif".to_owned())
    } else if is_one_of(&e, "mp4") || is_one_of(&e, "mov") || is_one_of(&e, "webm") || is_one_of(
        &e,
        "mkv",
    ) {
        ("video", concat("video/", &e))
    } else if is_one_of(&e, "wav") {
        ("audio", "audio/wav".to_owned())
    } else if is_one_of(&e, "mp3") {
        ("audio", "audio/mpeg".to_owned())
    } else if is_one_of(&e, "flac") || is_one_of(&e, "ogg") || is_one_of(&e, "aac") || is_one_of(
        &e,
        "m4a",
    ) {
        ("audio", concat("audio/", &e))
    } else if is_one_of(&e, "glb") || is_one_of(&e, "gltf") {
        ("mesh", "model/gltf-binary".to_owned())
    } else if is_one_of(&e, "fbx") || is_one_of(&e, "obj") || is_one_of(&e, "usdz") || is_one_of(
        &e,
        "usd",
    ) || is_one_of(&e, "ply") || is_one_of(&e, "stl") {
        ("mesh", concat("model/", &e))
    } else {
        ("other", "application/octet-stream".to_owned())
    }
}

/// An optional extension, the empty one when absent.
pub open spec fn ext_or_empty(e: Option<Seq<char>>) -> Seq<char> {
    match e {
        Some(x) => x,
        None => Seq::<char>::empty(),
    }
}

/// Classify a file by extension: (kind, media_type). kind is a coarse bucket
/// used for the Asset Manager filters; media_type is a MIME-ish string. A file
/// without a (UTF-8) extension is classified by the empty extension.
pub fn media_type_for(path: &str) -> (r: (&'static str, String))
    ensures
        exists|e: Seq<char>| (r.0@, r.1@) == media_for_ext(lower_seq(e)),
        paths::plain_name(path@) ==> r.0@ == media_for_ext(
            lower_seq(ext_or_empty(paths::name_extension(path@))),
        ).0 && r.1@ == media_for_ext(lower_seq(ext_or_empty(paths::name_extension(path@)))).1,
        paths::in_folder(path@) ==> (r.0@, r.1@) == media_for_ext(
            lower_seq(ext_or_empty(paths::name_extension(paths::path_tail(path@)))),
        ),
{
    let ext = paths::extension(path);
    let es: String = match ext {
        Some(e) => e,
        None => String::new(),
    };
    assert(paths::plain_name(path@) ==> es@ == ext_or_empty(paths::name_extension(path@)));
    assert(paths::in_folder(path@) ==> es@ == ext_or_empty(paths::name_extension(paths::path_tail(path@))));
    media_type_for_ext(es.as_str())
}

// ---------------------------------------------------------------------------
// prompts.md import
// ---------------------------------------------------------------------------

/// A parsed prompt: (entity, slot, stage, backend, model, body); the other
/// fields of the row are empty and its id is 0.
pub struct PromptSpec {
    pub entity: Seq<char>,
    pub slot: Seq<char>,
    pub stage: Seq<char>,
    pub backend: Seq<char>,
    pub model: Seq<char>,
    pub body: Seq<char>,
}

/// A prompt row as plain values.
pub open spec fn prompt_view(p: PromptRow) -> PromptSpec {
    PromptSpec {
        entity: p.entity@,
        slot: p.slot@,
        stage: p.stage@,
        backend: p.backend@,
        model: p.model@,
        body: p.body@,
    }
}

/// A prompt row as `parse_prompts_md` makes it: id 0, empty params/notes/date.
pub open spec fn fresh_row(p: PromptRow) -> bool {
    p.id == 0 && p.params@.len() == 0 && p.notes@.len() == 0 && p.updated_at@.len() == 0
}

/// Importer state: the section's backend and stage, the prompt being read and
/// its body so far, and the finished prompts.
pub struct PmState {
    pub backend: Seq<char>,
    pub stage: Seq<char>,
    pub cur: Option<PromptSpec>,
    pub body: Seq<char>,
    pub out: Seq<PromptSpec>,
}

/// Closes the current prompt: its body is the trimmed text read so far; it is
/// kept when it has a body or a model.
pub open spec fn pm_flush(st: PmState) -> PmState {
    let out = match st.cur {
        Some(p) => {
            let q = PromptSpec { body: trim_seq(st.body), ..p };
            if q.body.len() > 0 || q.model.len() > 0 {
                st.out.push(q)
            } else {
                st.out
            }
        },
        None => st.out,
    };
    PmState { backend: st.backend, stage: st.stage, cur: None, body: seq![], out }
}

/// The backend a `## ` heading selects (by its lowercased text).
pub open spec fn heading_backend(hl: Seq<char>) -> Seq<char> {
    if contains_seq(hl, "openart"@) {
        "openart"@
    } else if contains_seq(hl, "elevenlabs"@) || contains_seq(hl, "voice"@) {
        "elevenlabs"@
    } else if contains_seq(hl, "tripo"@) {
        "tripo"@
    } else if contains_seq(hl, "comfy"@) {
        "comfy_local"@
    } else {
        ""@
    }
}

/// The stage a `## ` heading selects (by its lowercased text).
pub open spec fn heading_stage(hl: Seq<char>) -> Seq<char> {
    if contains_seq(hl, "voice"@) || contains_seq(hl, "elevenlabs"@) {
        "voice"@
    } else if contains_seq(hl, "video"@) {
        "video"@
    } else if contains_seq(hl, "3d"@) || contains_seq(hl, "tripo"@) {
        "3d"@
    } else {
        "2d"@
    }
}

/// The (backend, stage) a `## ` heading selects, given its lowercased text.
pub fn heading_tags(hl: &str) -> (r: (String, String))
    ensures
        r.0@ == heading_backend(hl@),
        r.1@ == heading_stage(hl@),
{
    let hl = chars_of(hl);
    let backend = if contains_str(&hl, "openart") {
        "openart"
    } else if contains_str(&hl, "elevenlabs") || contains_str(&hl, "voice") {
        "elevenlabs"
    } else if contains_str(&hl, "tripo") {
        "tripo"
    } else if contains_str(&hl, "comfy") {
        "comfy_local"
    } else {
        ""
    };
    let stage = if contains_str(&hl, "voice") || contains_str(&hl, "elevenlabs") {
        "voice"
    } else if contains_str(&hl, "video") {
        "video"
    } else if contains_str(&hl, "3d") || contains_str(&hl, "tripo") {
        "3d"
    } else {
        "2d"
    };
    (backend.to_owned(), stage.to_owned())
}

/// `s` up to its first `c` (all of it if it has none).
pub open spec fn before_char(s: Seq<char>, c: char) -> Seq<char> {
    match index_of_char_from(s, c, 0) {
        Some(i) => s.subrange(0, i),
        None => s,
    }
}

/// Feeds one line of `prompts.md` to the importer.
pub open spec fn pm_step(entity: Seq<char>, st: PmState, line: Seq<char>) -> PmState {
    let t = trim_seq(line);
    if starts_with_seq(t, "## "@) {
        let f = pm_flush(st);
        let hl = unicode_lowercase(t.subrange(3, t.len() as int));
        PmState { backend: heading_backend(hl), stage: heading_stage(hl), ..f }
    } else if starts_with_seq(t, "### "@) {
        let f = pm_flush(st);
        PmState {
            cur: Some(
                PromptSpec {
                    entity,
                    slot: trim_seq(t.subrange(4, t.len() as int)),
                    stage: f.stage,
                    backend: f.backend,
                    model: seq![],
                    body: seq![],
                },
            ),
            ..f
        }
    } else if starts_with_seq(t, "**Model:**"@) {
        match st.cur {
            Some(p) => PmState {
                cur: Some(
                    PromptSpec {
                        model: trim_seq(before_char(t.subrange(10, t.len() as int), '|')),
                        ..p
                    },
                ),
                ..st
            },
            None => st,
        }
    } else if st.cur is Some && !starts_with_seq(t, "**"@) && !starts_with_seq(t, "#"@) {
        PmState { body: st.body + line + seq!['\n'], ..st }
    } else {
        st
    }
}

/// The lowercased text of a `## ` heading line.
pub open spec fn heading_text(line: Seq<char>) -> Seq<char> {
    let t = trim_seq(line);
    unicode_lowercase(t.subrange(3, t.len() as int))
}

/// A heading text that names 3D and none of voice, ElevenLabs and video.
pub open spec fn names_3d(hl: Seq<char>) -> bool {
    contains_seq(hl, "3d"@) && !contains_seq(hl, "voice"@) && !contains_seq(hl, "elevenlabs"@)
        && !contains_seq(hl, "video"@)
}

/// A heading whose text names 3D (and not voice, ElevenLabs or video)
/// selects stage `3d`.
pub proof fn law_3d_heading_stage(hl: Seq<char>)
    requires
        names_3d(hl),
    ensures
        heading_stage(hl) == "3d"@,
{
}

/// Under a `## ` heading that names 3D (and not voice, ElevenLabs or video),
/// the prompt a following `### ` line starts is in stage `3d`.
pub proof fn law_3d_heading_prompts(entity: Seq<char>, st: PmState, heading: Seq<char>, slot_line: Seq<char>)
    requires
        starts_with_seq(trim_seq(heading), "## "@),
        names_3d(heading_text(heading)),
        starts_with_seq(trim_seq(slot_line), "### "@),
    ensures
        pm_step(entity, pm_step(entity, st, heading), slot_line).cur matches Some(p) && p.stage == "3d"@,
{
    reveal_strlit("## ");
    reveal_strlit("### ");
    let t = trim_seq(slot_line);
    assert(!starts_with_seq(t, "## "@)) by {
        if starts_with_seq(t, "## "@) {
            assert(t.subrange(0, 3)[2] == t.subrange(0, 4)[2]);
        }
    }
    let s1 = pm_step(entity, st, heading);
    assert(s1.stage == "3d"@);
    assert(pm_flush(s1).stage == "3d"@);
}

/// The importer state after the given lines.
pub open spec fn pm_scan(entity: Seq<char>, lines: Seq<Seq<char>>) -> PmState
    decreases lines.len(),
{
    if lines.len() == 0 {
        PmState { backend: seq![], stage: seq![], cur: None, body: seq![], out: seq![] }
    } else {
        pm_step(entity, pm_scan(entity, lines.drop_last()), lines.last())
    }
}

/// The prompts `parse_prompts_md` reads from `text`.
pub open spec fn prompts_spec(entity: Seq<char>, text: Seq<char>) -> Seq<PromptSpec> {
    pm_flush(pm_scan(entity, lines_seq(text))).out
}

/// The exec form of a prompt being read.
struct Cur {
    slot: Vec<char>,
    stage: Vec<char>,
    backend: Vec<char>,
    model: Vec<char>,
}

spec fn cur_view(entity: Seq<char>, c: Option<Cur>) -> Option<PromptSpec> {
    match c {
        Some(c) => Some(
            PromptSpec {
                entity,
                slot: c.slot@,
                stage: c.stage@,
                backend: c.backend@,
                model: c.model@,
                body: seq![],
            },
        ),
        None => None,
    }
}

pub open spec fn rows_view(out: Seq<PromptRow>) -> Seq<PromptSpec> {
    out.map_values(|p: PromptRow| prompt_view(p))
}

/// Closes the current prompt (exec side of `pm_flush`).
fn close_prompt(entity: &str, cur: Option<Cur>, body: &Vec<char>, out: &mut Vec<PromptRow>)
    requires
        forall|i: int| 0 <= i < old(out)@.len() ==> fresh_row(#[trigger] old(out)@[i]),
    ensures
        rows_view(final(out)@) == pm_flush(
            PmState {
                backend: seq![],
                stage: seq![],
                cur: cur_view(entity@, cur),
                body: body@,
                out: rows_view(old(out)@),
            },
        ).out,
        forall|i: int| 0 <= i < final(out)@.len() ==> fresh_row(#[trigger] final(out)@[i]),
{
    match cur {
        Some(c) => {
            let b = trim_vec(body);
            if b.len() > 0 || c.model.len() > 0 {
                let row = PromptRow {
                    id: 0,
                    entity: entity.to_owned(),
                    slot: string_of(&c.slot),
                    stage: string_of(&c.stage),
                    backend: string_of(&c.backend),
                    model: string_of(&c.model),
                    body: string_of(&b),
                    params: String::new(),
                    notes: String::new(),
                    updated_at: String::new(),
                };
                let ghost old_out = out@;
                out.push(row);
                assert(rows_view(out@) =~= rows_view(old_out).push(prompt_view(row)));
            }
        },
        None => {},
    }
}

/// Parse a per-entity `prompts.md` into prompt rows. Heuristic: `## <section>`
/// sets backend/stage context ("OpenArt … (Stage 2)" → openart/2d, "ElevenLabs"
/// → elevenlabs/voice, "Tripo" → tripo/3d); each `### <slot>` starts a prompt
/// whose body is the following prose, with a `**Model:** X` line pulled out.
pub fn parse_prompts_md(entity: &str, text: &str) -> (r: Vec<PromptRow>)
    ensures
        rows_view(r@) == prompts_spec(entity@, text@),
        forall|i: int| 0 <= i < r@.len() ==> fresh_row(#[trigger] r@[i]),
{
    let tv = chars_of(text);
    let lines = lines_vec(&tv);
    let ghost ls = lines_seq(text@);
    let mut out: Vec<PromptRow> = Vec::new();
    let mut backend: Vec<char> = Vec::new();
    let mut stage: Vec<char> = Vec::new();
    let mut cur: Option<Cur> = None;
    let mut body: Vec<char> = Vec::new();
    let mut i: usize = 0;
    proof {
        reveal_strlit("## ");
        reveal_strlit("### ");
        reveal_strlit("**Model:**");
        assert(ls.take(0) =~= Seq::<Seq<char>>::empty());
        assert(rows_view(out@) =~= Seq::<PromptSpec>::empty());
    }
    while i < lines.len()
        invariant
            views(lines@) == ls,
            ls == lines_seq(text@),
            i <= lines@.len(),
            pm_scan(entity@, ls.take(i as int)) == (PmState {
                backend: backend@,
                stage: stage@,
                cur: cur_view(entity@, cur),
                body: body@,
                out: rows_view(out@),
            }),
            cur is None ==> body@.len() == 0,
            forall|k: int| 0 <= k < out@.len() ==> fresh_row(#[trigger] out@[k]),
        decreases lines@.len() - i,
    {
        let line = &lines[i];
        proof {
            assert(ls.take(i + 1).drop_last() =~= ls.take(i as int));
            assert(ls.take(i + 1).last() == line@);
            assert(views(lines@)[i as int] == line@);
        }
        proof {
            reveal_strlit("## ");
            reveal_strlit("### ");
            reveal_strlit("**Model:**");
            reveal_strlit("");
        }
        let (lo, hi) = trim_bounds(line);
        let t = sub_vec(line, lo, hi);
        if starts_with_str(&t, "## ") {
            close_prompt(entity, cur, &body, &mut out);
            cur = None;
            body = Vec::new();
            let h = string_of_range(&t, 3, t.len());
            let hl = to_lowercase(h.as_str());
            let (b, g) = heading_tags(hl.as_str());
            backend = chars_of(b.as_str());
            stage = chars_of(g.as_str());
            proof {
                assert(backend@ == heading_backend(unicode_lowercase(t@.subrange(3, t@.len() as int))));
                assert(stage@ == heading_stage(unicode_lowercase(t@.subrange(3, t@.len() as int))));
                assert(body@ =~= Seq::<char>::empty());
            }
        } else if starts_with_str(&t, "### ") {
            close_prompt(entity, cur, &body, &mut out);
            body = Vec::new();
            let s = sub_vec(&t, 4, t.len());
            cur = Some(
                Cur {
                    slot: trim_vec(&s),
                    stage: sub_vec(&stage, 0, stage.len()),
                    backend: sub_vec(&backend, 0, backend.len()),
                    model: Vec::new(),
                },
            );
            proof {
                assert(stage@.subrange(0, stage@.len() as int) =~= stage@);
                assert(backend@.subrange(0, backend@.len() as int) =~= backend@);
                assert(body@ =~= Seq::<char>::empty());
            }
        } else if starts_with_str(&t, "**Model:**") {
            match cur {
                Some(c) => {
                    let m = sub_vec(&t, 10, t.len());
                    let end = match index_of_char_exec(&m, '|', 0) {
                        Some(k) => {
                            proof {
                                lemma_index_of_char_from(m@, '|', 0);
                            }
                            k
                        },
                        None => m.len(),
                    };
                    let first = sub_vec(&m, 0, end);
                    proof {
                        if index_of_char_from(m@, '|', 0) is None {
                            assert(first@ =~= m@);
                        }
                    }
                    cur = Some(Cur { model: trim_vec(&first), ..c });
                },
                None => {},
            }
        } else if cur.is_some() && !starts_with_str(&t, "**") && !starts_with_str(&t, "#") {
            let ghost b0 = body@;
            extend_chars(&mut body, line);
            body.push('\n');
            proof {
                assert(body@ =~= b0 + line@ + seq!['\n']);
            }
        }
        i += 1;
    }
    proof {
        assert(ls.take(lines@.len() as int) =~= ls);
    }
    close_prompt(entity, cur, &body, &mut out);
    out
}

} // verus!
