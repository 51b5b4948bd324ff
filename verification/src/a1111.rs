//! Reading an A1111 `parameters` text: its prompts, the LoRA tags in them,
//! and what its settings line says. Fractional settings (CFG scale, denoising
//! strength, hires upscale) are kept as their text; their number is read
//! where they are used.
use vstd::prelude::*;
use crate::text::{str_eq, unicode_lowercase};
use crate::paths::opt_chars;
use crate::version::{parse_i64, parse_i64_spec};
use crate::convert::{
    a1111_prompts, a1111_body, a1111_settings, a1111_sections, extract_lora_tags, normalize_sampler,
    normalize_schedule, sampler_for, sampler_schedule, schedule_for, setting_kv, setting_kv_spec,
    size_parts, size_spec, split_settings, split_settings_spec, tidy_spec, lora_scan, lora_tag_view,
    with_ext, has_model_ext, LoraTag,
};

verus! {

/// What the settings line says.
#[derive(Clone, Debug, Default)]
pub struct A1111Settings {
    pub steps: Option<i64>,
    /// the text of the last `CFG scale`
    pub cfg: Option<String>,
    pub seed: Option<i64>,
    /// the ComfyUI sampler name
    pub sampler: Option<String>,
    pub scheduler: Option<String>,
    pub width: Option<i64>,
    pub height: Option<i64>,
    pub model: Option<String>,
    /// the `Model hash` (AutoV2) the checkpoint is named by
    pub model_hash: Option<String>,
    pub vae: Option<String>,
    pub clip_skip: Option<i64>,
    /// the text of the last `Denoising strength`
    pub denoise: Option<String>,
    /// the text of the last `Hires upscale`
    pub hires_upscale: Option<String>,
    pub hires_steps: Option<i64>,
    pub hires_upscaler: Option<String>,
    pub hires_resize: Option<(i64, i64)>,
}

/// The settings as plain values.
pub struct SettingsView {
    pub steps: Option<i64>,
    pub cfg: Option<Seq<char>>,
    pub seed: Option<i64>,
    pub sampler: Option<Seq<char>>,
    pub scheduler: Option<Seq<char>>,
    pub width: Option<i64>,
    pub height: Option<i64>,
    pub model: Option<Seq<char>>,
    pub model_hash: Option<Seq<char>>,
    pub vae: Option<Seq<char>>,
    pub clip_skip: Option<i64>,
    pub denoise: Option<Seq<char>>,
    pub hires_upscale: Option<Seq<char>>,
    pub hires_steps: Option<i64>,
    pub hires_upscaler: Option<Seq<char>>,
    pub hires_resize: Option<(i64, i64)>,
}

pub open spec fn settings_view(s: A1111Settings) -> SettingsView {
    SettingsView {
        steps: s.steps,
        cfg: opt_chars(s.cfg),
        seed: s.seed,
        sampler: opt_chars(s.sampler),
        scheduler: opt_chars(s.scheduler),
        width: s.width,
        height: s.height,
        model: opt_chars(s.model),
        model_hash: opt_chars(s.model_hash),
        vae: opt_chars(s.vae),
        clip_skip: s.clip_skip,
        denoise: opt_chars(s.denoise),
        hires_upscale: opt_chars(s.hires_upscale),
        hires_steps: s.hires_steps,
        hires_upscaler: opt_chars(s.hires_upscaler),
        hires_resize: s.hires_resize,
    }
}

pub open spec fn no_settings() -> SettingsView {
    SettingsView {
        steps: None,
        cfg: None,
        seed: None,
        sampler: None,
        scheduler: None,
        width: None,
        height: None,
        model: None,
        model_hash: None,
        vae: None,
        clip_skip: None,
        denoise: None,
        hires_upscale: None,
        hires_steps: None,
        hires_upscaler: None,
        hires_resize: None,
    }
}

pub open spec fn with_ext_text(name: Seq<char>) -> Seq<char> {
    if has_model_ext(name) {
        name
    } else {
        name + ".safetensors"@
    }
}

/// The width and height of a `Size` / `Hires resize` value.
pub open spec fn size_pair(val: Seq<char>) -> (Option<i64>, Option<i64>) {
    let (w, h) = size_spec(val);
    (parse_i64_spec(w), match h {
        Some(h) => parse_i64_spec(h),
        None => None,
    })
}

/// What one `key: value` field changes. The sampler sets the scheduler only
/// when none is set yet; `Schedule type` always does; a later field of the
/// same key wins.
pub open spec fn setting_step(st: SettingsView, key: Seq<char>, val: Seq<char>) -> SettingsView {
    if key == "Steps"@ {
        SettingsView { steps: parse_i64_spec(val), ..st }
    } else if key == "CFG scale"@ {
        SettingsView { cfg: Some(val), ..st }
    } else if key == "Seed"@ {
        SettingsView { seed: parse_i64_spec(val), ..st }
    } else if key == "Sampler"@ {
        let low = unicode_lowercase(val);
        SettingsView {
            sampler: Some(sampler_for(low)),
            scheduler: if st.scheduler is Some { st.scheduler } else { Some(sampler_schedule(low)) },
            ..st
        }
    } else if key == "Schedule type"@ {
        SettingsView { scheduler: Some(schedule_for(unicode_lowercase(val))), ..st }
    } else if key == "Size"@ {
        SettingsView { width: size_pair(val).0, height: size_pair(val).1, ..st }
    } else if key == "Model"@ {
        SettingsView { model: Some(with_ext_text(val)), ..st }
    } else if key == "Model hash"@ {
        SettingsView { model_hash: Some(val), ..st }
    } else if key == "VAE"@ {
        SettingsView { vae: Some(with_ext_text(val)), ..st }
    } else if key == "Clip skip"@ {
        SettingsView { clip_skip: parse_i64_spec(val), ..st }
    } else if key == "Denoising strength"@ {
        SettingsView { denoise: Some(val), ..st }
    } else if key == "Hires upscale"@ {
        SettingsView { hires_upscale: Some(val), ..st }
    } else if key == "Hires steps"@ {
        SettingsView { hires_steps: parse_i64_spec(val), ..st }
    } else if key == "Hires upscaler"@ {
        SettingsView { hires_upscaler: Some(val), ..st }
    } else if key == "Hires resize"@ {
        match size_pair(val) {
            (Some(w), Some(h)) => SettingsView { hires_resize: Some((w, h)), ..st },
            _ => st,
        }
    } else {
        st
    }
}

/// The settings said by the fields, in order.
pub open spec fn settings_fold(fields: Seq<Seq<char>>) -> SettingsView
    decreases fields.len(),
{
    if fields.len() == 0 {
        no_settings()
    } else {
        let (k, v) = setting_kv_spec(fields.last());
        setting_step(settings_fold(fields.drop_last()), k, v)
    }
}

/// The settings said by a settings line.
pub open spec fn settings_spec(line: Seq<char>) -> SettingsView {
    settings_fold(split_settings_spec(line))
}

fn with_ext_opt(val: &str) -> (r: Option<String>)
    ensures
        opt_chars(r) == Some(with_ext_text(val@)),
{
    Some(with_ext(val))
}

fn size_pair_exec(val: &str) -> (r: (Option<i64>, Option<i64>))
    ensures
        r == size_pair(val@),
{
    let (w, h) = size_parts(val);
    let hv = match &h {
        Some(h) => parse_i64(h.as_str()),
        None => None,
    };
    (parse_i64(w.as_str()), hv)
}

/// One field applied to the settings read so far.
fn apply_setting(st: &mut A1111Settings, key: &str, val: &str)
    ensures
        settings_view(*final(st)) == setting_step(settings_view(*old(st)), key@, val@),
{
    if str_eq(key, "Steps") {
        st.steps = parse_i64(val);
    } else if str_eq(key, "CFG scale") {
        st.cfg = Some(val.to_owned());
    } else if str_eq(key, "Seed") {
        st.seed = parse_i64(val);
    } else if str_eq(key, "Sampler") {
        let (s, sc) = normalize_sampler(val);
        st.sampler = Some(s);
        if st.scheduler.is_none() {
            st.scheduler = Some(sc);
        }
    } else if str_eq(key, "Schedule type") {
        st.scheduler = Some(normalize_schedule(val));
    } else if str_eq(key, "Size") {
        let (w, h) = size_pair_exec(val);
        st.width = w;
        st.height = h;
    } else if str_eq(key, "Model") {
        st.model = with_ext_opt(val);
    } else if str_eq(key, "Model hash") {
        st.model_hash = Some(val.to_owned());
    } else if str_eq(key, "VAE") {
        st.vae = with_ext_opt(val);
    } else if str_eq(key, "Clip skip") {
        st.clip_skip = parse_i64(val);
    } else if str_eq(key, "Denoising strength") {
        st.denoise = Some(val.to_owned());
    } else if str_eq(key, "Hires upscale") {
        st.hires_upscale = Some(val.to_owned());
    } else if str_eq(key, "Hires steps") {
        st.hires_steps = parse_i64(val);
    } else if str_eq(key, "Hires upscaler") {
        st.hires_upscaler = Some(val.to_owned());
    } else if str_eq(key, "Hires resize") {
        if let (Some(w), Some(h)) = size_pair_exec(val) {
            st.hires_resize = Some((w, h));
        }
    }
}

fn empty_settings() -> (r: A1111Settings)
    ensures
        settings_view(r) == no_settings(),
{
    A1111Settings {
        steps: None,
        cfg: None,
        seed: None,
        sampler: None,
        scheduler: None,
        width: None,
        height: None,
        model: None,
        model_hash: None,
        vae: None,
        clip_skip: None,
        denoise: None,
        hires_upscale: None,
        hires_steps: None,
        hires_upscaler: None,
        hires_resize: None,
    }
}

/// The checkpoint a settings line names: its `Model` (with a model-file
/// extension), else the sentinel `hash:<autov2>` for its `Model hash`, which
/// the model resolver looks up in the catalogue.
pub open spec fn model_ref_spec(v: SettingsView) -> Option<Seq<char>> {
    match v.model {
        Some(m) => Some(m),
        None => match v.model_hash {
            Some(h) => Some("hash:"@ + h),
            None => None,
        },
    }
}

/// The checkpoint reference of the settings (see [`model_ref_spec`]).
pub fn model_ref(s: &A1111Settings) -> (r: Option<String>)
    ensures
        opt_chars(r) == model_ref_spec(settings_view(*s)),
{
    match &s.model {
        Some(m) => Some(m.clone()),
        None => match &s.model_hash {
            Some(h) => {
                let mut v = crate::text::chars_of("hash:");
                crate::text::extend_str(&mut v, h.as_str());
                Some(crate::text::string_of(&v))
            },
            None => None,
        },
    }
}

/// What a settings line says (`Steps: 20, Sampler: Euler a, …`).
pub fn read_settings(line: &str) -> (r: A1111Settings)
    ensures
        settings_view(r) == settings_spec(line@),
{
    let fields = split_settings(line);
    let ghost fs = fields@.map_values(|s: String| s@);
    let mut st = empty_settings();
    let mut i: usize = 0;
    while i < fields.len()
        invariant
            i <= fields@.len(),
            fs == fields@.map_values(|s: String| s@),
            settings_view(st) == settings_fold(fs.take(i as int)),
        decreases fields@.len() - i,
    {
        let (k, v) = setting_kv(fields[i].as_str());
        assert(fs.take(i + 1).drop_last() =~= fs.take(i as int));
        assert(fs.take(i + 1).last() == fields@[i as int]@);
        apply_setting(&mut st, k.as_str(), v.as_str());
        i += 1;
    }
    assert(fs.take(fields@.len() as int) =~= fs);
    st
}

/// A parameters text read: its prompts without their LoRA tags, the tags of
/// the positive prompt then those of the negative one, and its settings.
pub struct A1111Text {
    pub positive: String,
    pub negative: String,
    pub loras: Vec<LoraTag>,
    pub settings: A1111Settings,
}

/// Read a parameters text: prompts, LoRA tags and settings (all empty when
/// it has no settings line).
pub fn parse_a1111(text: &str) -> (r: A1111Text)
    ensures
        ({
            let (pos, neg) = a1111_prompts(a1111_body(text@));
            &&& r.positive@ == tidy_spec(lora_scan(pos, 0).0)
            &&& r.negative@ == tidy_spec(lora_scan(neg, 0).0)
            &&& r.loras@.map_values(|t: LoraTag| lora_tag_view(t)) == lora_scan(pos, 0).1 + lora_scan(neg, 0).1
            &&& settings_view(r.settings) == (match a1111_settings(text@) {
                Some(line) => settings_spec(line),
                None => no_settings(),
            })
        }),
{
    let (pos, neg, line) = a1111_sections(text);
    let (p, mut tags) = extract_lora_tags(pos.as_str());
    let (n, mut ntags) = extract_lora_tags(neg.as_str());
    let ghost (t0, t1) = (tags@, ntags@);
    tags.append(&mut ntags);
    assert(tags@.map_values(|t: LoraTag| lora_tag_view(t)) =~= t0.map_values(|t: LoraTag| lora_tag_view(t))
        + t1.map_values(|t: LoraTag| lora_tag_view(t)));
    let settings = match &line {
        Some(l) => read_settings(l.as_str()),
        None => empty_settings(),
    };
    A1111Text { positive: p, negative: n, loras: tags, settings }
}

} // verus!
