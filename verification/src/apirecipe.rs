//! A ComfyUI workflow as plain graph values: the generation settings read
//! out of a workflow in API format
//! (`{ id: { class_type, inputs: { name: literal | [source_id, slot] } } }`)
//! or in UI (litegraph) format (`{ nodes: [...], links: [...] }`), and the
//! API-format workflow a recipe becomes.
//!
//! A graph comes in as `ApiGraph` / `UiGraph`: the nodes, and each node's
//! inputs, in the order the JSON lists them, numbers already rendered as the
//! parameters text writes them. A built workflow goes out as `WfNode`s whose
//! fractional numbers are given by their decimal text.
use vstd::prelude::*;
use crate::text::{
    int_text, chars_of, contains_seq, contains_str, starts_with_seq, starts_with_str, str_eq, decimal_digits,
    push_decimal, string_of,
};
use crate::paths::opt_chars;
use crate::convert::{has_model_ext, with_ext, HiresText, LoraText, RecipeText};

verus! {

/// One input value of a node.
#[derive(Clone, Debug)]
pub enum ApiInput {
    /// a string literal
    Text(String),
    /// a number: its value when it is a whole number that fits an `i64`,
    /// and its decimal rendering as a setting (`7.5`, `7`) and as a LoRA
    /// weight (`0.8`, `1`)
    Number { whole: Option<i64>, shown: String, weight: String },
    /// a link `[source_id, slot, ..]` to another node's output
    Link(String),
    /// anything else (an object, a bool, a short or malformed array, null)
    Other,
}

/// One node: its id, its `class_type` when that is a string, and its inputs
/// when they form an object.
#[derive(Clone, Debug)]
pub struct ApiNode {
    pub id: String,
    pub class_type: Option<String>,
    pub inputs: Option<Vec<(String, ApiInput)>>,
}

/// A workflow in API format, its nodes in the order of their ids.
#[derive(Clone, Debug)]
pub struct ApiGraph {
    pub nodes: Vec<ApiNode>,
}

// ---------------------------------------------------------------------------
// Lookups
// ---------------------------------------------------------------------------

/// The value of the input called `name` (the first, should two share it).
pub open spec fn input_of(ins: Seq<(String, ApiInput)>, name: Seq<char>) -> Option<ApiInput>
    decreases ins.len(),
{
    if ins.len() == 0 {
        None
    } else if ins[0].0@ == name {
        Some(ins[0].1)
    } else {
        input_of(ins.drop_first(), name)
    }
}

/// The node with the given id (the first, should two share it).
pub open spec fn node_of(nodes: Seq<ApiNode>, id: Seq<char>) -> Option<ApiNode>
    decreases nodes.len(),
{
    if nodes.len() == 0 {
        None
    } else if nodes[0].id@ == id {
        Some(nodes[0])
    } else {
        node_of(nodes.drop_first(), id)
    }
}

/// The source id of the first input that is a link.
pub open spec fn first_link(ins: Seq<(String, ApiInput)>) -> Option<Seq<char>>
    decreases ins.len(),
{
    if ins.len() == 0 {
        None
    } else {
        match ins[0].1 {
            ApiInput::Link(s) => Some(s@),
            _ => first_link(ins.drop_first()),
        }
    }
}

pub open spec fn text_in(x: Option<ApiInput>) -> Option<Seq<char>> {
    match x {
        Some(ApiInput::Text(t)) => Some(t@),
        _ => None,
    }
}

pub open spec fn int_in(x: Option<ApiInput>) -> Option<i64> {
    match x {
        Some(ApiInput::Number { whole, .. }) => whole,
        _ => None,
    }
}

pub open spec fn shown_in(x: Option<ApiInput>) -> Option<Seq<char>> {
    match x {
        Some(ApiInput::Number { shown, .. }) => Some(shown@),
        _ => None,
    }
}

pub open spec fn weight_in(x: Option<ApiInput>) -> Option<Seq<char>> {
    match x {
        Some(ApiInput::Number { weight, .. }) => Some(weight@),
        _ => None,
    }
}

pub open spec fn link_in(x: Option<ApiInput>) -> Option<Seq<char>> {
    match x {
        Some(ApiInput::Link(s)) => Some(s@),
        _ => None,
    }
}

/// Where the input called `name` stands.
fn find_input(ins: &Vec<(String, ApiInput)>, name: &str) -> (r: Option<usize>)
    ensures
        match r {
            Some(j) => j < ins@.len() && input_of(ins@, name@) == Some(ins@[j as int].1),
            None => input_of(ins@, name@) is None,
        },
{
    let n = ins.len();
    let mut i: usize = 0;
    assert(ins@.skip(0) =~= ins@);
    while i < n
        invariant
            i <= n == ins@.len(),
            input_of(ins@, name@) == input_of(ins@.skip(i as int), name@),
        decreases n - i,
    {
        if str_eq(ins[i].0.as_str(), name) {
            return Some(i);
        }
        assert(ins@.skip(i as int).drop_first() =~= ins@.skip(i + 1));
        i += 1;
    }
    None
}

/// Where the node with the given id stands.
fn find_node(nodes: &Vec<ApiNode>, id: &str) -> (r: Option<usize>)
    ensures
        match r {
            Some(j) => j < nodes@.len() && node_of(nodes@, id@) == Some(nodes@[j as int]),
            None => node_of(nodes@, id@) is None,
        },
{
    let n = nodes.len();
    let mut i: usize = 0;
    assert(nodes@.skip(0) =~= nodes@);
    while i < n
        invariant
            i <= n == nodes@.len(),
            node_of(nodes@, id@) == node_of(nodes@.skip(i as int), id@),
        decreases n - i,
    {
        if str_eq(nodes[i].id.as_str(), id) {
            return Some(i);
        }
        assert(nodes@.skip(i as int).drop_first() =~= nodes@.skip(i + 1));
        i += 1;
    }
    None
}

/// The source of the first link among the inputs.
fn find_first_link(ins: &Vec<(String, ApiInput)>) -> (r: Option<String>)
    ensures
        opt_chars(r) == first_link(ins@),
{
    let n = ins.len();
    let mut i: usize = 0;
    assert(ins@.skip(0) =~= ins@);
    while i < n
        invariant
            i <= n == ins@.len(),
            first_link(ins@) == first_link(ins@.skip(i as int)),
        decreases n - i,
    {
        if let ApiInput::Link(s) = &ins[i].1 {
            return Some(s.clone());
        }
        assert(ins@.skip(i as int).drop_first() =~= ins@.skip(i + 1));
        i += 1;
    }
    None
}

fn get_text(ins: &Vec<(String, ApiInput)>, name: &str) -> (r: Option<String>)
    ensures
        opt_chars(r) == text_in(input_of(ins@, name@)),
{
    match find_input(ins, name) {
        Some(j) => match &ins[j].1 {
            ApiInput::Text(t) => Some(t.clone()),
            _ => None,
        },
        None => None,
    }
}

fn get_int(ins: &Vec<(String, ApiInput)>, name: &str) -> (r: Option<i64>)
    ensures
        r == int_in(input_of(ins@, name@)),
{
    match find_input(ins, name) {
        Some(j) => match &ins[j].1 {
            ApiInput::Number { whole, .. } => *whole,
            _ => None,
        },
        None => None,
    }
}

fn get_shown(ins: &Vec<(String, ApiInput)>, name: &str) -> (r: Option<String>)
    ensures
        opt_chars(r) == shown_in(input_of(ins@, name@)),
{
    match find_input(ins, name) {
        Some(j) => match &ins[j].1 {
            ApiInput::Number { shown, .. } => Some(shown.clone()),
            _ => None,
        },
        None => None,
    }
}

fn get_weight(ins: &Vec<(String, ApiInput)>, name: &str) -> (r: Option<String>)
    ensures
        opt_chars(r) == weight_in(input_of(ins@, name@)),
{
    match find_input(ins, name) {
        Some(j) => match &ins[j].1 {
            ApiInput::Number { weight, .. } => Some(weight.clone()),
            _ => None,
        },
        None => None,
    }
}

fn get_link(ins: &Vec<(String, ApiInput)>, name: &str) -> (r: Option<String>)
    ensures
        opt_chars(r) == link_in(input_of(ins@, name@)),
{
    match find_input(ins, name) {
        Some(j) => match &ins[j].1 {
            ApiInput::Link(s) => Some(s.clone()),
            _ => None,
        },
        None => None,
    }
}

// ---------------------------------------------------------------------------
// Prompt text
// ---------------------------------------------------------------------------

/// The inputs of the node with the given id.
pub open spec fn inputs_of(nodes: Seq<ApiNode>, id: Seq<char>) -> Option<Seq<(String, ApiInput)>> {
    match node_of(nodes, id) {
        Some(n) => match n.inputs {
            Some(v) => Some(v@),
            None => None,
        },
        None => None,
    }
}

/// The prompt text reached from node `cur`: its `text` input when that is a
/// string, else the same search from the source of its first link, at most
/// `fuel` nodes deep (a text encoder wrapped once or twice).
pub open spec fn text_hops(nodes: Seq<ApiNode>, cur: Seq<char>, fuel: nat) -> Option<Seq<char>>
    decreases fuel,
{
    if fuel == 0 {
        None
    } else {
        match inputs_of(nodes, cur) {
            None => None,
            Some(ins) => match text_in(input_of(ins, "text"@)) {
                Some(t) => Some(t),
                None => match first_link(ins) {
                    None => None,
                    Some(next) => text_hops(nodes, next, (fuel - 1) as nat),
                },
            },
        }
    }
}

/// The prompt text of a text-encoder node, following up to two wrapper hops.
fn text_of(nodes: &Vec<ApiNode>, start: &str) -> (r: Option<String>)
    ensures
        opt_chars(r) == text_hops(nodes@, start@, 3),
{
    let mut cur: String = start.to_owned();
    let mut k: usize = 0;
    while k < 3
        invariant
            k <= 3,
            text_hops(nodes@, start@, 3) == text_hops(nodes@, cur@, (3 - k) as nat),
        decreases 3 - k,
    {
        let j = match find_node(nodes, cur.as_str()) {
            Some(j) => j,
            None => return None,
        };
        let ins = match &nodes[j].inputs {
            Some(v) => v,
            None => return None,
        };
        if let Some(t) = get_text(ins, "text") {
            return Some(t);
        }
        match find_first_link(ins) {
            Some(next) => {
                cur = next;
            },
            None => return None,
        }
        k += 1;
    }
    None
}

// ---------------------------------------------------------------------------
// The settings of a workflow
// ---------------------------------------------------------------------------

/// The class of the node with the given id.
pub open spec fn class_of(nodes: Seq<ApiNode>, id: Seq<char>) -> Option<Seq<char>> {
    match node_of(nodes, id) {
        Some(n) => opt_chars(n.class_type),
        None => None,
    }
}

pub open spec fn is_sampler_class(c: Option<Seq<char>>) -> bool {
    c matches Some(c) && contains_seq(c, "KSampler"@)
}

/// The id of the first node, in `order`, whose class names a KSampler.
pub open spec fn sampler_id(all: Seq<ApiNode>, order: Seq<ApiNode>) -> Option<Seq<char>>
    decreases order.len(),
{
    if order.len() == 0 {
        None
    } else if is_sampler_class(class_of(all, order[0].id@)) {
        Some(order[0].id@)
    } else {
        sampler_id(all, order.drop_first())
    }
}

/// The inputs of the workflow's sampler.
pub open spec fn sampler_inputs(nodes: Seq<ApiNode>) -> Option<Seq<(String, ApiInput)>> {
    match sampler_id(nodes, nodes) {
        Some(id) => inputs_of(nodes, id),
        None => None,
    }
}

/// The seed: the `seed` input, or `noise_seed` when there is no `seed`.
pub open spec fn seed_spec(ins: Seq<(String, ApiInput)>) -> Option<i64> {
    match input_of(ins, "seed"@) {
        Some(v) => int_in(Some(v)),
        None => int_in(input_of(ins, "noise_seed"@)),
    }
}

/// The prompt wired into the sampler's input `name` (empty when it cannot be
/// traced to a text).
pub open spec fn prompt_spec(nodes: Seq<ApiNode>, ins: Seq<(String, ApiInput)>, name: Seq<char>) -> Seq<char> {
    match link_in(input_of(ins, name)) {
        Some(src) => match text_hops(nodes, src, 3) {
            Some(t) => t,
            None => seq![],
        },
        None => seq![],
    }
}

/// A LoRA as plain values.
pub struct LoraView {
    pub name: Seq<char>,
    pub model_w: Seq<char>,
    pub clip_w: Option<Seq<char>>,
}

pub open spec fn lora_view(l: LoraText) -> LoraView {
    LoraView { name: l.name@, model_w: l.model_w@, clip_w: opt_chars(l.clip_w) }
}

/// What the loader nodes contribute, as plain values.
pub struct LoaderState {
    pub model: Option<Seq<char>>,
    pub loras: Seq<LoraView>,
    pub vae: Option<Seq<char>>,
    pub clip_skip: Option<i64>,
    pub width: Option<i64>,
    pub height: Option<i64>,
}

/// A weight, `1` when the input gives none.
pub open spec fn weight_or_one(w: Option<Seq<char>>) -> Seq<char> {
    match w {
        Some(w) => w,
        None => "1"@,
    }
}

pub open spec fn abs_i64(n: i64) -> i64 {
    if n < 0 {
        (-n) as i64
    } else {
        n
    }
}

/// What one node of class `c` with inputs `ins` changes. Checkpoint and UNet
/// loaders name the model (the first one wins), each LoRA loader adds a LoRA
/// (weights `1` when absent; the clip weight only when it is rendered
/// differently), the VAE and clip-skip nodes set theirs (the last one wins),
/// and the first empty latent gives the size.
pub open spec fn loader_step(st: LoaderState, c: Option<Seq<char>>, ins: Option<Seq<(String, ApiInput)>>) -> LoaderState {
    match (c, ins) {
        (Some(c), Some(ins)) => if contains_seq(c, "CheckpointLoader"@) {
            LoaderState {
                model: if st.model is Some { st.model } else { text_in(input_of(ins, "ckpt_name"@)) },
                ..st
            }
        } else if c == "UNETLoader"@ {
            LoaderState {
                model: if st.model is Some { st.model } else { text_in(input_of(ins, "unet_name"@)) },
                ..st
            }
        } else if c == "LoraLoader"@ || c == "LoraLoaderModelOnly"@ {
            match text_in(input_of(ins, "lora_name"@)) {
                Some(name) => {
                    let m = weight_or_one(weight_in(input_of(ins, "strength_model"@)));
                    let w = weight_or_one(weight_in(input_of(ins, "strength_clip"@)));
                    LoaderState {
                        loras: st.loras.push(LoraView { name, model_w: m, clip_w: if m == w { None } else { Some(w) } }),
                        ..st
                    }
                },
                None => st,
            }
        } else if c == "VAELoader"@ {
            LoaderState { vae: text_in(input_of(ins, "vae_name"@)), ..st }
        } else if c == "CLIPSetLastLayer"@ {
            LoaderState {
                clip_skip: match int_in(input_of(ins, "stop_at_clip_layer"@)) {
                    Some(n) => Some(abs_i64(n)),
                    None => None,
                },
                ..st
            }
        } else if starts_with_seq(c, "Empty"@) && contains_seq(c, "Latent"@) {
            LoaderState {
                width: if st.width is Some { st.width } else { int_in(input_of(ins, "width"@)) },
                height: if st.height is Some { st.height } else { int_in(input_of(ins, "height"@)) },
                ..st
            }
        } else {
            st
        },
        _ => st,
    }
}

pub open spec fn no_loaders() -> LoaderState {
    LoaderState { model: None, loras: seq![], vae: None, clip_skip: None, width: None, height: None }
}

/// The loader nodes' contributions, the nodes of `order` taken in turn.
pub open spec fn loader_fold(all: Seq<ApiNode>, order: Seq<ApiNode>) -> LoaderState
    decreases order.len(),
{
    if order.len() == 0 {
        no_loaders()
    } else {
        let id = order.last().id@;
        loader_step(loader_fold(all, order.drop_last()), class_of(all, id), inputs_of(all, id))
    }
}

/// No clip-skip node asks for the one layer count whose magnitude an `i64`
/// cannot hold.
pub open spec fn clip_layers_fit(nodes: Seq<ApiNode>) -> bool {
    forall|id: Seq<char>|
        class_of(nodes, id) == Some("CLIPSetLastLayer"@) && #[trigger] inputs_of(nodes, id) is Some
            ==> int_in(input_of(inputs_of(nodes, id)->0, "stop_at_clip_layer"@)) != Some(i64::MIN)
}

/// The class of the node with the given id.
fn class_at(nodes: &Vec<ApiNode>, id: &str) -> (r: Option<String>)
    ensures
        opt_chars(r) == class_of(nodes@, id@),
{
    match find_node(nodes, id) {
        Some(j) => nodes[j].class_type.clone(),
        None => None,
    }
}

fn weight_or_one_exec(w: Option<String>) -> (r: String)
    ensures
        r@ == weight_or_one(opt_chars(w)),
{
    match w {
        Some(w) => w,
        None => "1".to_owned(),
    }
}

/// The settings an API-format workflow encodes, as the parameters text
/// takes them: the first KSampler's seed, steps, CFG scale, sampler,
/// scheduler and the prompts wired into it, and what the loader nodes say
/// of the model, LoRAs, VAE, clip skip and size.
pub fn recipe_from_api(g: &ApiGraph) -> (r: RecipeText)
    requires
        clip_layers_fit(g.nodes@),
    ensures
        match sampler_inputs(g.nodes@) {
            Some(ins) => {
                &&& r.seed == seed_spec(ins)
                &&& r.steps == int_in(input_of(ins, "steps"@))
                &&& opt_chars(r.cfg) == shown_in(input_of(ins, "cfg"@))
                &&& opt_chars(r.sampler) == text_in(input_of(ins, "sampler_name"@))
                &&& opt_chars(r.scheduler) == text_in(input_of(ins, "scheduler"@))
                &&& r.positive@ == prompt_spec(g.nodes@, ins, "positive"@)
                &&& r.negative@ == prompt_spec(g.nodes@, ins, "negative"@)
            },
            None => {
                &&& r.seed is None && r.steps is None && r.cfg is None
                &&& r.sampler is None && r.scheduler is None
                &&& r.positive@ == Seq::<char>::empty() && r.negative@ == Seq::<char>::empty()
            },
        },
        (LoaderState {
            model: opt_chars(r.model),
            loras: r.loras@.map_values(|l: LoraText| lora_view(l)),
            vae: opt_chars(r.vae),
            clip_skip: r.clip_skip,
            width: r.width,
            height: r.height,
        }) == loader_fold(g.nodes@, g.nodes@),
        r.denoise is None,
        r.hires is None,
{
    let nodes = &g.nodes;
    let n = nodes.len();
    // the sampler
    let mut seed: Option<i64> = None;
    let mut steps: Option<i64> = None;
    let mut cfg: Option<String> = None;
    let mut sampler: Option<String> = None;
    let mut scheduler: Option<String> = None;
    let mut positive = String::new();
    let mut negative = String::new();
    let mut i: usize = 0;
    assert(nodes@.skip(0) =~= nodes@);
    let mut sid: Option<usize> = None;
    while i < n
        invariant_except_break
            i <= n,
            sid is None,
            sampler_id(nodes@, nodes@) == sampler_id(nodes@, nodes@.skip(i as int)),
        invariant
            n == nodes@.len(),
        ensures
            match sid {
                Some(k) => k < n && sampler_id(nodes@, nodes@) == Some(nodes@[k as int].id@),
                None => sampler_id(nodes@, nodes@) is None,
            },
        decreases n - i,
    {
        let c = class_at(nodes, nodes[i].id.as_str());
        let hit = match &c {
            Some(c) => contains_str(&chars_of(c.as_str()), "KSampler"),
            None => false,
        };
        if hit {
            assert(nodes@.skip(i as int)[0] == nodes@[i as int]);
            sid = Some(i);
            break;
        }
        assert(nodes@.skip(i as int).drop_first() =~= nodes@.skip(i + 1));
        i += 1;
    }
    if let Some(k) = sid {
        if let Some(j) = find_node(nodes, nodes[k].id.as_str()) {
            if let Some(ins) = &nodes[j].inputs {
                seed = match find_input(ins, "seed") {
                    Some(_) => get_int(ins, "seed"),
                    None => get_int(ins, "noise_seed"),
                };
                steps = get_int(ins, "steps");
                cfg = get_shown(ins, "cfg");
                sampler = get_text(ins, "sampler_name");
                scheduler = get_text(ins, "scheduler");
                if let Some(src) = get_link(ins, "positive") {
                    positive = match text_of(nodes, src.as_str()) {
                        Some(t) => t,
                        None => String::new(),
                    };
                }
                if let Some(src) = get_link(ins, "negative") {
                    negative = match text_of(nodes, src.as_str()) {
                        Some(t) => t,
                        None => String::new(),
                    };
                }
            }
        }
    }
    // the loaders
    let mut model: Option<String> = None;
    let mut loras: Vec<LoraText> = Vec::new();
    let mut vae: Option<String> = None;
    let mut clip_skip: Option<i64> = None;
    let mut width: Option<i64> = None;
    let mut height: Option<i64> = None;
    let mut i: usize = 0;
    assert(loras@.map_values(|l: LoraText| lora_view(l)) =~= Seq::<LoraView>::empty());
    assert(nodes@.take(0) =~= Seq::<ApiNode>::empty());
    while i < n
        invariant
            i <= n == nodes@.len(),
            clip_layers_fit(nodes@),
            (LoaderState {
                model: opt_chars(model),
                loras: loras@.map_values(|l: LoraText| lora_view(l)),
                vae: opt_chars(vae),
                clip_skip,
                width,
                height,
            }) == loader_fold(nodes@, nodes@.take(i as int)),
        decreases n - i,
    {
        let ghost before = LoaderState {
            model: opt_chars(model),
            loras: loras@.map_values(|l: LoraText| lora_view(l)),
            vae: opt_chars(vae),
            clip_skip,
            width,
            height,
        };
        let id = nodes[i].id.as_str();
        assert(nodes@.take(i + 1).drop_last() =~= nodes@.take(i as int));
        assert(nodes@.take(i + 1).last() == nodes@[i as int]);
        let c = class_at(nodes, id);
        let jo = find_node(nodes, id);
        if let (Some(c), Some(j)) = (&c, jo) {
            if let Some(ins) = &nodes[j].inputs {
                assert(inputs_of(nodes@, id@) == Some(ins@));
                let cv = chars_of(c.as_str());
                if contains_str(&cv, "CheckpointLoader") {
                    if model.is_none() {
                        model = get_text(ins, "ckpt_name");
                    }
                } else if str_eq(c.as_str(), "UNETLoader") {
                    if model.is_none() {
                        model = get_text(ins, "unet_name");
                    }
                } else if str_eq(c.as_str(), "LoraLoader") || str_eq(c.as_str(), "LoraLoaderModelOnly") {
                    if let Some(name) = get_text(ins, "lora_name") {
                        let m = weight_or_one_exec(get_weight(ins, "strength_model"));
                        let w = weight_or_one_exec(get_weight(ins, "strength_clip"));
                        let same = str_eq(m.as_str(), w.as_str());
                        let l = LoraText { name, model_w: m, clip_w: if same { None } else { Some(w) } };
                        let ghost lv = lora_view(l);
                        loras.push(l);
                        assert(loras@.map_values(|l: LoraText| lora_view(l)) =~= before.loras.push(lv));
                    }
                } else if str_eq(c.as_str(), "VAELoader") {
                    vae = get_text(ins, "vae_name");
                } else if str_eq(c.as_str(), "CLIPSetLastLayer") {
                    clip_skip = match get_int(ins, "stop_at_clip_layer") {
                        Some(x) => {
                            assert(class_of(nodes@, id@) == Some("CLIPSetLastLayer"@));
                            assert(inputs_of(nodes@, id@) is Some);
                            Some(if x < 0 { -x } else { x })
                        },
                        None => None,
                    };
                } else if starts_with_str(&cv, "Empty") && contains_str(&cv, "Latent") {
                    if width.is_none() {
                        width = get_int(ins, "width");
                    }
                    if height.is_none() {
                        height = get_int(ins, "height");
                    }
                }
            }
        }
        i += 1;
    }
    assert(nodes@.take(n as int) =~= nodes@);
    RecipeText {
        positive,
        negative,
        steps,
        cfg,
        sampler,
        scheduler,
        seed,
        width,
        height,
        model,
        loras,
        clip_skip,
        vae,
        denoise: None,
        hires: None,
    }
}

// ---------------------------------------------------------------------------
// The UI (litegraph) format
// ---------------------------------------------------------------------------

/// One node of a workflow in UI format: its id when that is an integer, its
/// `type` (empty when missing) and its `widgets_values` (none when missing).
#[derive(Clone, Debug)]
pub struct UiNode {
    pub id: Option<i64>,
    pub node_type: String,
    pub widgets: Vec<ApiInput>,
}

/// A link `[link_id, from_node, from_slot, to_node, to_slot, type]`: the
/// source node, the target node and the target slot, each when it is an
/// integer (none of them for a link of fewer than five entries).
#[derive(Clone, Copy, Debug)]
pub struct UiLink {
    pub from: Option<i64>,
    pub to: Option<i64>,
    pub to_slot: Option<i64>,
}

/// A workflow in UI format: its nodes in order, and its links when the
/// workflow has a `links` array.
#[derive(Clone, Debug)]
pub struct UiGraph {
    pub nodes: Vec<UiNode>,
    pub links: Option<Vec<UiLink>>,
}

/// The kinds of node the recipe reads, by their type.
#[derive(Clone, Copy, Debug)]
pub enum UiKind {
    Sampler,
    Checkpoint,
    Vae,
    ClipSkip,
    Latent,
}

pub open spec fn ui_kind_is(k: UiKind, t: Seq<char>) -> bool {
    match k {
        UiKind::Sampler => contains_seq(t, "KSampler"@),
        UiKind::Checkpoint => contains_seq(t, "CheckpointLoader"@),
        UiKind::Vae => t == "VAELoader"@,
        UiKind::ClipSkip => t == "CLIPSetLastLayer"@,
        UiKind::Latent => starts_with_seq(t, "Empty"@) && contains_seq(t, "Latent"@),
    }
}

fn ui_kind_exec(k: UiKind, t: &str) -> (r: bool)
    ensures
        r == ui_kind_is(k, t@),
{
    let v = chars_of(t);
    match k {
        UiKind::Sampler => contains_str(&v, "KSampler"),
        UiKind::Checkpoint => contains_str(&v, "CheckpointLoader"),
        UiKind::Vae => str_eq(t, "VAELoader"),
        UiKind::ClipSkip => str_eq(t, "CLIPSetLastLayer"),
        UiKind::Latent => starts_with_str(&v, "Empty") && contains_str(&v, "Latent"),
    }
}

/// The first node of the given kind.
pub open spec fn first_of(nodes: Seq<UiNode>, k: UiKind) -> Option<UiNode>
    decreases nodes.len(),
{
    if nodes.len() == 0 {
        None
    } else if ui_kind_is(k, nodes[0].node_type@) {
        Some(nodes[0])
    } else {
        first_of(nodes.drop_first(), k)
    }
}

fn find_first_of(nodes: &Vec<UiNode>, k: UiKind) -> (r: Option<usize>)
    ensures
        match r {
            Some(j) => j < nodes@.len() && first_of(nodes@, k) == Some(nodes@[j as int]),
            None => first_of(nodes@, k) is None,
        },
{
    let n = nodes.len();
    let mut i: usize = 0;
    assert(nodes@.skip(0) =~= nodes@);
    while i < n
        invariant
            i <= n == nodes@.len(),
            first_of(nodes@, k) == first_of(nodes@.skip(i as int), k),
        decreases n - i,
    {
        if ui_kind_exec(k, nodes[i].node_type.as_str()) {
            return Some(i);
        }
        assert(nodes@.skip(i as int).drop_first() =~= nodes@.skip(i + 1));
        i += 1;
    }
    None
}

/// Widget `i` of a node.
pub open spec fn widget(ws: Seq<ApiInput>, i: int) -> Option<ApiInput> {
    if 0 <= i < ws.len() {
        Some(ws[i])
    } else {
        None
    }
}

fn widget_text(ws: &Vec<ApiInput>, i: usize) -> (r: Option<String>)
    ensures
        opt_chars(r) == text_in(widget(ws@, i as int)),
{
    if i < ws.len() {
        match &ws[i] {
            ApiInput::Text(t) => Some(t.clone()),
            _ => None,
        }
    } else {
        None
    }
}

fn widget_int(ws: &Vec<ApiInput>, i: usize) -> (r: Option<i64>)
    ensures
        r == int_in(widget(ws@, i as int)),
{
    if i < ws.len() {
        match &ws[i] {
            ApiInput::Number { whole, .. } => *whole,
            _ => None,
        }
    } else {
        None
    }
}

fn widget_shown(ws: &Vec<ApiInput>, i: usize) -> (r: Option<String>)
    ensures
        opt_chars(r) == shown_in(widget(ws@, i as int)),
{
    if i < ws.len() {
        match &ws[i] {
            ApiInput::Number { shown, .. } => Some(shown.clone()),
            _ => None,
        }
    } else {
        None
    }
}

fn widget_weight(ws: &Vec<ApiInput>, i: usize) -> (r: Option<String>)
    ensures
        opt_chars(r) == weight_in(widget(ws@, i as int)),
{
    if i < ws.len() {
        match &ws[i] {
            ApiInput::Number { weight, .. } => Some(weight.clone()),
            _ => None,
        }
    } else {
        None
    }
}

pub open spec fn is_lora_type(t: Seq<char>) -> bool {
    t == "LoraLoader"@ || t == "LoraLoaderModelOnly"@
}

/// The LoRAs of the LoRA-loader nodes that name one, in order: widget 0 is
/// the name, 1 and 2 the model and clip weights (`1` when absent).
pub open spec fn ui_loras(nodes: Seq<UiNode>) -> Seq<LoraView>
    decreases nodes.len(),
{
    if nodes.len() == 0 {
        seq![]
    } else {
        let n = nodes.last();
        let ws = n.widgets@;
        let before = ui_loras(nodes.drop_last());
        if is_lora_type(n.node_type@) {
            match text_in(widget(ws, 0)) {
                Some(name) => {
                    let m = weight_or_one(weight_in(widget(ws, 1)));
                    let w = weight_or_one(weight_in(widget(ws, 2)));
                    before.push(LoraView { name, model_w: m, clip_w: if m == w { None } else { Some(w) } })
                },
                None => before,
            }
        } else {
            before
        }
    }
}

pub open spec fn is_encoder(n: UiNode) -> bool {
    contains_seq(n.node_type@, "CLIPTextEncode"@)
}

/// The texts of the text-encoder nodes whose first widget is a string.
pub open spec fn encoder_texts(nodes: Seq<UiNode>) -> Seq<Seq<char>>
    decreases nodes.len(),
{
    if nodes.len() == 0 {
        seq![]
    } else {
        let before = encoder_texts(nodes.drop_last());
        if is_encoder(nodes.last()) {
            match text_in(widget(nodes.last().widgets@, 0)) {
                Some(t) => before.push(t),
                None => before,
            }
        } else {
            before
        }
    }
}

/// The first text-encoder node with the given id.
pub open spec fn encoder_with_id(nodes: Seq<UiNode>, id: i64) -> Option<UiNode>
    decreases nodes.len(),
{
    if nodes.len() == 0 {
        None
    } else if nodes[0].id == Some(id) && is_encoder(nodes[0]) {
        Some(nodes[0])
    } else {
        encoder_with_id(nodes.drop_first(), id)
    }
}

/// The source node of the first link into slot `slot` of node `to` that
/// names its source.
pub open spec fn source_into(links: Seq<UiLink>, to: i64, slot: i64) -> Option<i64>
    decreases links.len(),
{
    if links.len() == 0 {
        None
    } else if links[0].to == Some(to) && links[0].to_slot == Some(slot) && links[0].from is Some {
        links[0].from
    } else {
        source_into(links.drop_first(), to, slot)
    }
}

/// The prompt linked into slot `slot` of the sampler (1 positive, 2
/// negative): the text of the encoder node the link comes from.
pub open spec fn ui_linked_prompt(g_nodes: Seq<UiNode>, links: Option<Seq<UiLink>>, slot: i64) -> Option<Seq<char>> {
    match (first_of(g_nodes, UiKind::Sampler), links) {
        (Some(k), Some(ls)) => match k.id {
            Some(kid) => match source_into(ls, kid, slot) {
                Some(src) => match encoder_with_id(g_nodes, src) {
                    Some(e) => text_in(widget(e.widgets@, 0)),
                    None => None,
                },
                None => None,
            },
            None => None,
        },
        _ => None,
    }
}

pub open spec fn or_empty(t: Option<Seq<char>>) -> Seq<char> {
    match t {
        Some(t) => t,
        None => seq![],
    }
}

pub open spec fn nth_or_empty(ts: Seq<Seq<char>>, i: int) -> Seq<char> {
    if 0 <= i < ts.len() {
        ts[i]
    } else {
        seq![]
    }
}

/// The prompts of a UI workflow: those linked into the sampler; when the
/// positive one is empty, the first two encoder texts in order stand in
/// (the second only when the negative one is empty too).
pub open spec fn ui_prompts(nodes: Seq<UiNode>, links: Option<Seq<UiLink>>) -> (Seq<char>, Seq<char>) {
    let p = or_empty(ui_linked_prompt(nodes, links, 1));
    let n = or_empty(ui_linked_prompt(nodes, links, 2));
    if p.len() == 0 {
        let ts = encoder_texts(nodes);
        (nth_or_empty(ts, 0), if n.len() == 0 { nth_or_empty(ts, 1) } else { n })
    } else {
        (p, n)
    }
}

pub open spec fn opt_links(l: Option<Vec<UiLink>>) -> Option<Seq<UiLink>> {
    match l {
        Some(v) => Some(v@),
        None => None,
    }
}

/// The first clip-skip node does not ask for `i64::MIN` layers.
pub open spec fn ui_clip_fits(nodes: Seq<UiNode>) -> bool {
    first_of(nodes, UiKind::ClipSkip) matches Some(n) ==> int_in(widget(n.widgets@, 0)) != Some(i64::MIN)
}

fn find_encoder_with_id(nodes: &Vec<UiNode>, id: i64) -> (r: Option<usize>)
    ensures
        match r {
            Some(j) => j < nodes@.len() && encoder_with_id(nodes@, id) == Some(nodes@[j as int]),
            None => encoder_with_id(nodes@, id) is None,
        },
{
    let n = nodes.len();
    let mut i: usize = 0;
    assert(nodes@.skip(0) =~= nodes@);
    while i < n
        invariant
            i <= n == nodes@.len(),
            encoder_with_id(nodes@, id) == encoder_with_id(nodes@.skip(i as int), id),
        decreases n - i,
    {
        if nodes[i].id == Some(id) && contains_str(&chars_of(nodes[i].node_type.as_str()), "CLIPTextEncode") {
            return Some(i);
        }
        assert(nodes@.skip(i as int).drop_first() =~= nodes@.skip(i + 1));
        i += 1;
    }
    None
}

fn find_source_into(links: &Vec<UiLink>, to: i64, slot: i64) -> (r: Option<i64>)
    ensures
        r == source_into(links@, to, slot),
{
    let n = links.len();
    let mut i: usize = 0;
    assert(links@.skip(0) =~= links@);
    while i < n
        invariant
            i <= n == links@.len(),
            source_into(links@, to, slot) == source_into(links@.skip(i as int), to, slot),
        decreases n - i,
    {
        let l = links[i];
        if l.to == Some(to) && l.to_slot == Some(slot) && l.from.is_some() {
            return l.from;
        }
        assert(links@.skip(i as int).drop_first() =~= links@.skip(i + 1));
        i += 1;
    }
    None
}

fn linked_prompt(g: &UiGraph, sampler: Option<usize>, slot: i64) -> (r: Option<String>)
    requires
        match sampler {
            Some(j) => j < g.nodes@.len() && first_of(g.nodes@, UiKind::Sampler) == Some(g.nodes@[j as int]),
            None => first_of(g.nodes@, UiKind::Sampler) is None,
        },
    ensures
        opt_chars(r) == ui_linked_prompt(g.nodes@, opt_links(g.links), slot),
{
    let j = match sampler {
        Some(j) => j,
        None => return None,
    };
    let links = match &g.links {
        Some(ls) => ls,
        None => return None,
    };
    let kid = match g.nodes[j].id {
        Some(kid) => kid,
        None => return None,
    };
    let src = match find_source_into(links, kid, slot) {
        Some(s) => s,
        None => return None,
    };
    match find_encoder_with_id(&g.nodes, src) {
        Some(e) => widget_text(&g.nodes[e].widgets, 0),
        None => None,
    }
}

/// The settings a UI-format workflow encodes: the first KSampler's widgets
/// (seed, steps, CFG scale, sampler, scheduler at 0, 2, 3, 4, 5), the first
/// checkpoint loader's model, every LoRA loader's LoRA, the first VAE
/// loader's VAE, the first clip-skip node's layer count (its magnitude), the
/// first empty latent's size, and the prompts (see `ui_prompts`).
pub fn recipe_from_ui(g: &UiGraph) -> (r: RecipeText)
    requires
        ui_clip_fits(g.nodes@),
    ensures
        ({
            let nodes = g.nodes@;
            &&& match first_of(nodes, UiKind::Sampler) {
                Some(k) => {
                    let ws = k.widgets@;
                    &&& r.seed == int_in(widget(ws, 0))
                    &&& r.steps == int_in(widget(ws, 2))
                    &&& opt_chars(r.cfg) == shown_in(widget(ws, 3))
                    &&& opt_chars(r.sampler) == text_in(widget(ws, 4))
                    &&& opt_chars(r.scheduler) == text_in(widget(ws, 5))
                },
                None => r.seed is None && r.steps is None && r.cfg is None && r.sampler is None && r.scheduler is None,
            }
            &&& opt_chars(r.model) == (match first_of(nodes, UiKind::Checkpoint) {
                Some(c) => text_in(widget(c.widgets@, 0)),
                None => None,
            })
            &&& r.loras@.map_values(|l: LoraText| lora_view(l)) == ui_loras(nodes)
            &&& opt_chars(r.vae) == (match first_of(nodes, UiKind::Vae) {
                Some(v) => text_in(widget(v.widgets@, 0)),
                None => None,
            })
            &&& r.clip_skip == (match first_of(nodes, UiKind::ClipSkip) {
                Some(c) => match int_in(widget(c.widgets@, 0)) {
                    Some(n) => Some(abs_i64(n)),
                    None => None,
                },
                None => None,
            })
            &&& (r.width, r.height) == (match first_of(nodes, UiKind::Latent) {
                Some(l) => (int_in(widget(l.widgets@, 0)), int_in(widget(l.widgets@, 1))),
                None => (None, None),
            })
            &&& (r.positive@, r.negative@) == ui_prompts(nodes, opt_links(g.links))
            &&& r.denoise is None
            &&& r.hires is None
        }),
{
    let nodes = &g.nodes;
    let n = nodes.len();
    let ks = find_first_of(nodes, UiKind::Sampler);
    let (seed, steps, cfg, sampler, scheduler) = match ks {
        Some(k) => {
            let ws = &nodes[k].widgets;
            (widget_int(ws, 0), widget_int(ws, 2), widget_shown(ws, 3), widget_text(ws, 4), widget_text(ws, 5))
        },
        None => (None, None, None, None, None),
    };
    let model = match find_first_of(nodes, UiKind::Checkpoint) {
        Some(c) => widget_text(&nodes[c].widgets, 0),
        None => None,
    };
    let mut loras: Vec<LoraText> = Vec::new();
    let mut texts: Vec<String> = Vec::new();
    let mut i: usize = 0;
    assert(loras@.map_values(|l: LoraText| lora_view(l)) =~= Seq::<LoraView>::empty());
    assert(texts@.map_values(|t: String| t@) =~= Seq::<Seq<char>>::empty());
    assert(nodes@.take(0) =~= Seq::<UiNode>::empty());
    while i < n
        invariant
            i <= n == nodes@.len(),
            loras@.map_values(|l: LoraText| lora_view(l)) == ui_loras(nodes@.take(i as int)),
            texts@.map_values(|t: String| t@) == encoder_texts(nodes@.take(i as int)),
        decreases n - i,
    {
        assert(nodes@.take(i + 1).drop_last() =~= nodes@.take(i as int));
        assert(nodes@.take(i + 1).last() == nodes@[i as int]);
        let ghost lv0 = loras@.map_values(|l: LoraText| lora_view(l));
        let ghost tv0 = texts@.map_values(|t: String| t@);
        let nd = &nodes[i];
        let t = nd.node_type.as_str();
        if str_eq(t, "LoraLoader") || str_eq(t, "LoraLoaderModelOnly") {
            if let Some(name) = widget_text(&nd.widgets, 0) {
                let m = weight_or_one_exec(widget_weight(&nd.widgets, 1));
                let w = weight_or_one_exec(widget_weight(&nd.widgets, 2));
                let same = str_eq(m.as_str(), w.as_str());
                let l = LoraText { name, model_w: m, clip_w: if same { None } else { Some(w) } };
                let ghost lv = lora_view(l);
                loras.push(l);
                assert(loras@.map_values(|l: LoraText| lora_view(l)) =~= lv0.push(lv));
            }
        }
        if contains_str(&chars_of(t), "CLIPTextEncode") {
            if let Some(x) = widget_text(&nd.widgets, 0) {
                let ghost xv = x@;
                texts.push(x);
                assert(texts@.map_values(|t: String| t@) =~= tv0.push(xv));
            }
        }
        i += 1;
    }
    assert(nodes@.take(n as int) =~= nodes@);
    let vae = match find_first_of(nodes, UiKind::Vae) {
        Some(v) => widget_text(&nodes[v].widgets, 0),
        None => None,
    };
    let clip_skip = match find_first_of(nodes, UiKind::ClipSkip) {
        Some(c) => match widget_int(&nodes[c].widgets, 0) {
            Some(x) => Some(if x < 0 { -x } else { x }),
            None => None,
        },
        None => None,
    };
    let (width, height) = match find_first_of(nodes, UiKind::Latent) {
        Some(l) => (widget_int(&nodes[l].widgets, 0), widget_int(&nodes[l].widgets, 1)),
        None => (None, None),
    };
    let mut positive = match linked_prompt(g, ks, 1) {
        Some(p) => p,
        None => String::new(),
    };
    let mut negative = match linked_prompt(g, ks, 2) {
        Some(p) => p,
        None => String::new(),
    };
    if positive.as_str().is_empty() {
        positive = if texts.len() > 0 { texts[0].clone() } else { String::new() };
        assert(texts.len() > 0 ==> texts@.map_values(|t: String| t@)[0] == texts@[0]@);
        if negative.as_str().is_empty() {
            negative = if texts.len() > 1 { texts[1].clone() } else { String::new() };
            assert(texts.len() > 1 ==> texts@.map_values(|t: String| t@)[1] == texts@[1]@);
        }
    }
    RecipeText {
        positive,
        negative,
        steps,
        cfg,
        sampler,
        scheduler,
        seed,
        width,
        height,
        model,
        loras,
        clip_skip,
        vae,
        denoise: None,
        hires: None,
    }
}

// ---------------------------------------------------------------------------
// Building an API-format workflow from a recipe
// ---------------------------------------------------------------------------

/// One input value of a node to write.
#[derive(Clone, Debug)]
pub enum WfValue {
    Text(String),
    Int(i64),
    /// a fractional number, given by its decimal text
    Float(String),
    /// a link to output `slot` of node `id`
    Link(String, u64),
}

/// One node to write: `id: { class_type, inputs }`.
#[derive(Clone, Debug)]
pub struct WfNode {
    pub id: String,
    pub class_type: String,
    pub inputs: Vec<(String, WfValue)>,
}

/// A value as plain values.
pub enum ValView {
    Text(Seq<char>),
    Int(i64),
    Float(Seq<char>),
    Link(Seq<char>, u64),
}

pub open spec fn val_view(v: WfValue) -> ValView {
    match v {
        WfValue::Text(t) => ValView::Text(t@),
        WfValue::Int(n) => ValView::Int(n),
        WfValue::Float(t) => ValView::Float(t@),
        WfValue::Link(id, slot) => ValView::Link(id@, slot),
    }
}

/// A node as plain values.
pub struct NodeView {
    pub id: Seq<char>,
    pub class_type: Seq<char>,
    pub inputs: Seq<(Seq<char>, ValView)>,
}

pub open spec fn node_view(n: WfNode) -> NodeView {
    NodeView {
        id: n.id@,
        class_type: n.class_type@,
        inputs: n.inputs@.map_values(|p: (String, WfValue)| (p.0@, val_view(p.1))),
    }
}

pub open spec fn with_ext_spec(name: Seq<char>) -> Seq<char> {
    if has_model_ext(name) {
        name
    } else {
        name + ".safetensors"@
    }
}

pub open spec fn or_text(o: Option<String>, d: Seq<char>) -> Seq<char> {
    match o {
        Some(t) => t@,
        None => d,
    }
}

/// The id of the `k`-th node added after the fixed ones.
pub open spec fn extra_id(k: nat) -> Seq<char> {
    decimal_digits(100 + k)
}

/// The `k`-th LoRA loader of the chain, fed by the one before it (the first
/// by the checkpoint `4`).
pub open spec fn lora_node(l: LoraText, k: nat) -> NodeView {
    let prev = if k == 0 { "4"@ } else { extra_id((k - 1) as nat) };
    NodeView {
        id: extra_id(k),
        class_type: "LoraLoader"@,
        inputs: seq![
            ("lora_name"@, ValView::Text(with_ext_spec(l.name@))),
            ("strength_model"@, ValView::Float(l.model_w@)),
            ("strength_clip"@, ValView::Float(or_text(l.clip_w, l.model_w@))),
            ("model"@, ValView::Link(prev, 0)),
            ("clip"@, ValView::Link(prev, 1)),
        ],
    }
}

/// The clip-skip count when it skips anything (2 or more).
pub open spec fn skip_count(r: RecipeText) -> Option<i64> {
    match r.clip_skip {
        Some(n) => if n >= 2 { Some(n) } else { None },
        None => None,
    }
}

/// The node that model and clip come from after the LoRA chain.
pub open spec fn chain_end(r: RecipeText) -> Seq<char> {
    if r.loras@.len() == 0 { "4"@ } else { extra_id((r.loras@.len() - 1) as nat) }
}

/// How many nodes were added before the VAE loader, and before the hires pass.
pub open spec fn after_skip(r: RecipeText) -> nat {
    r.loras@.len() + if skip_count(r) is Some { 1nat } else { 0nat }
}

pub open spec fn after_vae(r: RecipeText) -> nat {
    after_skip(r) + if r.vae is Some { 1nat } else { 0nat }
}

pub open spec fn clip_source(r: RecipeText) -> (Seq<char>, u64) {
    if skip_count(r) is Some {
        (extra_id(r.loras@.len()), 0)
    } else {
        (chain_end(r), 1)
    }
}

pub open spec fn vae_source(r: RecipeText) -> (Seq<char>, u64) {
    if r.vae is Some {
        (extra_id(after_skip(r)), 0)
    } else {
        ("4"@, 2)
    }
}

pub open spec fn latent_source(r: RecipeText) -> (Seq<char>, u64) {
    if r.hires is Some {
        (extra_id(after_vae(r) + 1), 0)
    } else {
        ("3"@, 0)
    }
}

/// The sampler and scheduler of the first pass: the recipe's sampler with
/// its scheduler (`normal` when none), else `euler` / `normal`.
pub open spec fn first_pass_sampler(r: RecipeText) -> (Seq<char>, Seq<char>) {
    match r.sampler {
        Some(s) => (s@, or_text(r.scheduler, "normal"@)),
        None => ("euler"@, "normal"@),
    }
}

pub open spec fn ksampler_inputs(
    r: RecipeText,
    steps: i64,
    sampler: Seq<char>,
    scheduler: Seq<char>,
    denoise: Seq<char>,
    latent: Seq<char>,
) -> Seq<(Seq<char>, ValView)> {
    seq![
        ("seed"@, ValView::Int(match r.seed { Some(n) => n, None => 0 })),
        ("steps"@, ValView::Int(steps)),
        ("cfg"@, ValView::Float(or_text(r.cfg, "7"@))),
        ("sampler_name"@, ValView::Text(sampler)),
        ("scheduler"@, ValView::Text(scheduler)),
        ("denoise"@, ValView::Float(denoise)),
        ("model"@, ValView::Link(chain_end(r), 0)),
        ("positive"@, ValView::Link("6"@, 0)),
        ("negative"@, ValView::Link("7"@, 0)),
        ("latent_image"@, ValView::Link(latent, 0)),
    ]
}

pub open spec fn steps_or_20(o: Option<i64>) -> i64 {
    match o {
        Some(n) => n,
        None => 20,
    }
}

pub open spec fn head_spec(r: RecipeText) -> Seq<NodeView> {
    seq![NodeView {
        id: "4"@,
        class_type: "CheckpointLoaderSimple"@,
        inputs: seq![("ckpt_name"@, ValView::Text(or_text(r.model, "model.safetensors"@)))],
    }] + Seq::new(r.loras@.len(), |k: int| lora_node(r.loras@[k], k as nat))
}

pub open spec fn skip_spec(r: RecipeText) -> Seq<NodeView> {
    match skip_count(r) {
        Some(n) => seq![NodeView {
            id: extra_id(r.loras@.len()),
            class_type: "CLIPSetLastLayer"@,
            inputs: seq![
                ("stop_at_clip_layer"@, ValView::Int((-n) as i64)),
                ("clip"@, ValView::Link(chain_end(r), 1)),
            ],
        }],
        None => seq![],
    }
}

pub open spec fn vae_spec(r: RecipeText) -> Seq<NodeView> {
    match r.vae {
        Some(v) => seq![NodeView {
            id: extra_id(after_skip(r)),
            class_type: "VAELoader"@,
            inputs: seq![("vae_name"@, ValView::Text(v@))],
        }],
        None => seq![],
    }
}

pub open spec fn middle_spec(r: RecipeText) -> Seq<NodeView> {
    let (clip_id, clip_slot) = clip_source(r);
    let (s1, sc1) = first_pass_sampler(r);
    seq![
        NodeView {
            id: "6"@,
            class_type: "CLIPTextEncode"@,
            inputs: seq![("text"@, ValView::Text(r.positive@)), ("clip"@, ValView::Link(clip_id, clip_slot))],
        },
        NodeView {
            id: "7"@,
            class_type: "CLIPTextEncode"@,
            inputs: seq![("text"@, ValView::Text(r.negative@)), ("clip"@, ValView::Link(clip_id, clip_slot))],
        },
        NodeView {
            id: "5"@,
            class_type: "EmptyLatentImage"@,
            inputs: seq![
                ("width"@, ValView::Int(match r.width { Some(n) => n, None => 1024 })),
                ("height"@, ValView::Int(match r.height { Some(n) => n, None => 1024 })),
                ("batch_size"@, ValView::Int(1)),
            ],
        },
        NodeView {
            id: "3"@,
            class_type: "KSampler"@,
            inputs: ksampler_inputs(r, steps_or_20(r.steps), s1, sc1, "1"@, "5"@),
        },
    ]
}

pub open spec fn hires_spec(r: RecipeText) -> Seq<NodeView> {
    match r.hires {
        Some(h) => seq![
            NodeView {
                id: extra_id(after_vae(r)),
                class_type: "LatentUpscaleBy"@,
                inputs: seq![
                    ("upscale_method"@, ValView::Text("nearest-exact"@)),
                    ("scale_by"@, ValView::Float(h.upscale@)),
                    ("samples"@, ValView::Link("3"@, 0)),
                ],
            },
            NodeView {
                id: extra_id(after_vae(r) + 1),
                class_type: "KSampler"@,
                inputs: ksampler_inputs(
                    r,
                    match h.steps { Some(n) => n, None => steps_or_20(r.steps) },
                    or_text(r.sampler, "euler"@),
                    or_text(r.scheduler, "normal"@),
                    h.denoise@,
                    extra_id(after_vae(r)),
                ),
            },
        ],
        None => seq![],
    }
}

pub open spec fn tail_spec(r: RecipeText) -> Seq<NodeView> {
    let (lat_id, lat_slot) = latent_source(r);
    let (vae_id, vae_slot) = vae_source(r);
    seq![
        NodeView {
            id: "8"@,
            class_type: "VAEDecode"@,
            inputs: seq![("samples"@, ValView::Link(lat_id, lat_slot)), ("vae"@, ValView::Link(vae_id, vae_slot))],
        },
        NodeView {
            id: "9"@,
            class_type: "SaveImage"@,
            inputs: seq![("filename_prefix"@, ValView::Text("converted"@)), ("images"@, ValView::Link("8"@, 0))],
        },
    ]
}

/// The nodes of the workflow a recipe becomes, in the order they are added:
/// the checkpoint and the LoRA chain, the clip-skip and VAE nodes when asked
/// for, the two text encoders, the latent and the sampler, the hires pass
/// (an upscale and a second sampler) when asked for, the decoder and the
/// image saver.
pub open spec fn workflow_spec(r: RecipeText) -> Seq<NodeView> {
    head_spec(r) + skip_spec(r) + vae_spec(r) + middle_spec(r) + hires_spec(r) + tail_spec(r)
}

fn id_text(k: u64) -> (s: String)
    requires
        k + 100 <= u64::MAX,
    ensures
        s@ == extra_id(k as nat),
{
    let mut v: Vec<char> = Vec::new();
    push_decimal(&mut v, k + 100);
    assert(v@ =~= decimal_digits((100 + k) as nat));
    string_of(&v)
}

fn opt_or(o: &Option<String>, d: &str) -> (s: String)
    ensures
        s@ == or_text(*o, d@),
{
    match o {
        Some(t) => t.clone(),
        None => d.to_owned(),
    }
}

fn lora_wf(l: &LoraText, k: u64) -> (n: WfNode)
    requires
        k + 100 <= u64::MAX,
    ensures
        node_view(n) == lora_node(*l, k as nat),
{
    let prev = if k == 0 { "4".to_owned() } else { id_text(k - 1) };
    let inputs: Vec<(String, WfValue)> = vec![
        ("lora_name".to_owned(), WfValue::Text(with_ext(l.name.as_str()))),
        ("strength_model".to_owned(), WfValue::Float(l.model_w.clone())),
        ("strength_clip".to_owned(), WfValue::Float(opt_or(&l.clip_w, l.model_w.as_str()))),
        ("model".to_owned(), WfValue::Link(prev.clone(), 0)),
        ("clip".to_owned(), WfValue::Link(prev, 1)),
    ];
    let n = WfNode { id: id_text(k), class_type: "LoraLoader".to_owned(), inputs };
    assert(node_view(n).inputs =~= lora_node(*l, k as nat).inputs);
    n
}

fn ksampler_wf(
    r: &RecipeText,
    id: &str,
    steps: i64,
    sampler: String,
    scheduler: String,
    denoise: String,
    model: &String,
    latent: String,
) -> (n: WfNode)
    requires
        model@ == chain_end(*r),
    ensures
        node_view(n) == (NodeView {
            id: id@,
            class_type: "KSampler"@,
            inputs: ksampler_inputs(*r, steps, sampler@, scheduler@, denoise@, latent@),
        }),
{
    let seed = match r.seed {
        Some(x) => x,
        None => 0,
    };
    let inputs: Vec<(String, WfValue)> = vec![
        ("seed".to_owned(), WfValue::Int(seed)),
        ("steps".to_owned(), WfValue::Int(steps)),
        ("cfg".to_owned(), WfValue::Float(opt_or(&r.cfg, "7"))),
        ("sampler_name".to_owned(), WfValue::Text(sampler)),
        ("scheduler".to_owned(), WfValue::Text(scheduler)),
        ("denoise".to_owned(), WfValue::Float(denoise)),
        ("model".to_owned(), WfValue::Link(model.clone(), 0)),
        ("positive".to_owned(), WfValue::Link("6".to_owned(), 0)),
        ("negative".to_owned(), WfValue::Link("7".to_owned(), 0)),
        ("latent_image".to_owned(), WfValue::Link(latent, 0)),
    ];
    let n = WfNode { id: id.to_owned(), class_type: "KSampler".to_owned(), inputs };
    assert(node_view(n).inputs =~= ksampler_inputs(*r, steps, sampler@, scheduler@, denoise@, latent@));
    n
}

/// The LoRAs, clip-skip, VAE and hires nodes all fit the ids counted from 100
/// (an `i32` counter).
pub open spec fn ids_fit(r: RecipeText) -> bool {
    100 + after_vae(r) + (if r.hires is Some { 1int } else { 0int }) <= i32::MAX
}

fn head_nodes(r: &RecipeText) -> (out: Vec<WfNode>)
    requires
        ids_fit(*r),
    ensures
        out@.map_values(|n: WfNode| node_view(n)) == head_spec(*r),
{
    let mut out: Vec<WfNode> = Vec::new();
    let ckpt = WfNode {
        id: "4".to_owned(),
        class_type: "CheckpointLoaderSimple".to_owned(),
        inputs: vec![("ckpt_name".to_owned(), WfValue::Text(opt_or(&r.model, "model.safetensors")))],
    };
    out.push(ckpt);
    let ghost ckpt_view = NodeView {
        id: "4"@,
        class_type: "CheckpointLoaderSimple"@,
        inputs: seq![("ckpt_name"@, ValView::Text(or_text(r.model, "model.safetensors"@)))],
    };
    assert(node_view(out@[0]).inputs =~= ckpt_view.inputs);
    assert(out@.map_values(|n: WfNode| node_view(n)) =~= seq![ckpt_view]);
    let nl = r.loras.len();
    let mut k: usize = 0;
    while k < nl
        invariant
            k <= nl == r.loras@.len(),
            ids_fit(*r),
            out@.map_values(|n: WfNode| node_view(n))
                == seq![ckpt_view] + Seq::new(k as nat, |j: int| lora_node(r.loras@[j], j as nat)),
        decreases nl - k,
    {
        let node = lora_wf(&r.loras[k], k as u64);
        let ghost before = out@.map_values(|n: WfNode| node_view(n));
        out.push(node);
        assert(out@.map_values(|n: WfNode| node_view(n)) =~= before.push(lora_node(r.loras@[k as int], k as nat)));
        assert(seq![ckpt_view] + Seq::new((k + 1) as nat, |j: int| lora_node(r.loras@[j], j as nat))
            =~= (seq![ckpt_view] + Seq::new(k as nat, |j: int| lora_node(r.loras@[j], j as nat))).push(
            lora_node(r.loras@[k as int], k as nat)));
        k += 1;
    }
    out
}

fn chain_text(r: &RecipeText) -> (s: String)
    requires
        ids_fit(*r),
    ensures
        s@ == chain_end(*r),
{
    let nl = r.loras.len();
    if nl == 0 { "4".to_owned() } else { id_text((nl - 1) as u64) }
}

fn skip_part(r: &RecipeText, chain: &String) -> (res: (Vec<WfNode>, String, u64))
    requires
        ids_fit(*r),
        chain@ == chain_end(*r),
    ensures
        res.0@.map_values(|n: WfNode| node_view(n)) == skip_spec(*r),
        (res.1@, res.2) == clip_source(*r),
{
    let mut nodes: Vec<WfNode> = Vec::new();
    match r.clip_skip {
        Some(cs) => if cs >= 2 {
            let id = id_text(r.loras.len() as u64);
            let layer: i64 = -cs;
            let n = WfNode {
                id: id.clone(),
                class_type: "CLIPSetLastLayer".to_owned(),
                inputs: vec![
                    ("stop_at_clip_layer".to_owned(), WfValue::Int(layer)),
                    ("clip".to_owned(), WfValue::Link(chain.clone(), 1)),
                ],
            };
            nodes.push(n);
            assert(node_view(nodes@[0]).inputs =~= skip_spec(*r)[0].inputs);
            assert(nodes@.map_values(|n: WfNode| node_view(n)) =~= skip_spec(*r));
            return (nodes, id, 0);
        },
        None => {},
    }
    assert(nodes@.map_values(|n: WfNode| node_view(n)) =~= skip_spec(*r));
    (nodes, chain.clone(), 1)
}

fn vae_part(r: &RecipeText) -> (res: (Vec<WfNode>, String, u64))
    requires
        ids_fit(*r),
    ensures
        res.0@.map_values(|n: WfNode| node_view(n)) == vae_spec(*r),
        (res.1@, res.2) == vae_source(*r),
{
    let mut nodes: Vec<WfNode> = Vec::new();
    if let Some(v) = &r.vae {
        let skip: u64 = match r.clip_skip {
            Some(cs) => if cs >= 2 { 1 } else { 0 },
            None => 0,
        };
        let id = id_text(r.loras.len() as u64 + skip);
        let n = WfNode {
            id: id.clone(),
            class_type: "VAELoader".to_owned(),
            inputs: vec![("vae_name".to_owned(), WfValue::Text(v.clone()))],
        };
        nodes.push(n);
        assert(node_view(nodes@[0]).inputs =~= vae_spec(*r)[0].inputs);
        assert(nodes@.map_values(|n: WfNode| node_view(n)) =~= vae_spec(*r));
        return (nodes, id, 0);
    }
    assert(nodes@.map_values(|n: WfNode| node_view(n)) =~= vae_spec(*r));
    (nodes, "4".to_owned(), 2)
}

fn middle_part(r: &RecipeText, chain: &String, clip_id: &String, clip_slot: u64) -> (out: Vec<WfNode>)
    requires
        chain@ == chain_end(*r),
        (clip_id@, clip_slot) == clip_source(*r),
    ensures
        out@.map_values(|n: WfNode| node_view(n)) == middle_spec(*r),
{
    let enc6 = WfNode {
        id: "6".to_owned(),
        class_type: "CLIPTextEncode".to_owned(),
        inputs: vec![
            ("text".to_owned(), WfValue::Text(r.positive.clone())),
            ("clip".to_owned(), WfValue::Link(clip_id.clone(), clip_slot)),
        ],
    };
    let enc7 = WfNode {
        id: "7".to_owned(),
        class_type: "CLIPTextEncode".to_owned(),
        inputs: vec![
            ("text".to_owned(), WfValue::Text(r.negative.clone())),
            ("clip".to_owned(), WfValue::Link(clip_id.clone(), clip_slot)),
        ],
    };
    let width = match r.width {
        Some(x) => x,
        None => 1024,
    };
    let height = match r.height {
        Some(x) => x,
        None => 1024,
    };
    let latent = WfNode {
        id: "5".to_owned(),
        class_type: "EmptyLatentImage".to_owned(),
        inputs: vec![
            ("width".to_owned(), WfValue::Int(width)),
            ("height".to_owned(), WfValue::Int(height)),
            ("batch_size".to_owned(), WfValue::Int(1)),
        ],
    };
    let (s1, sc1) = match &r.sampler {
        Some(s) => (s.clone(), opt_or(&r.scheduler, "normal")),
        None => ("euler".to_owned(), "normal".to_owned()),
    };
    let steps = match r.steps {
        Some(x) => x,
        None => 20,
    };
    let ks = ksampler_wf(r, "3", steps, s1, sc1, "1".to_owned(), chain, "5".to_owned());
    let out: Vec<WfNode> = vec![enc6, enc7, latent, ks];
    proof {
        let ms = middle_spec(*r);
        assert(node_view(out@[0]).inputs =~= ms[0].inputs);
        assert(node_view(out@[1]).inputs =~= ms[1].inputs);
        assert(node_view(out@[2]).inputs =~= ms[2].inputs);
        assert(out@.map_values(|n: WfNode| node_view(n)) =~= ms);
    }
    out
}

fn hires_part(r: &RecipeText, chain: &String) -> (res: (Vec<WfNode>, String))
    requires
        ids_fit(*r),
        chain@ == chain_end(*r),
    ensures
        res.0@.map_values(|n: WfNode| node_view(n)) == hires_spec(*r),
        (res.1@, 0u64) == latent_source(*r),
{
    let mut nodes: Vec<WfNode> = Vec::new();
    if let Some(h) = &r.hires {
        let skip: u64 = match r.clip_skip {
            Some(cs) => if cs >= 2 { 1 } else { 0 },
            None => 0,
        };
        let vae: u64 = if r.vae.is_some() { 1 } else { 0 };
        let next: u64 = r.loras.len() as u64 + skip + vae;
        let up = id_text(next);
        let upn = WfNode {
            id: up.clone(),
            class_type: "LatentUpscaleBy".to_owned(),
            inputs: vec![
                ("upscale_method".to_owned(), WfValue::Text("nearest-exact".to_owned())),
                ("scale_by".to_owned(), WfValue::Float(h.upscale.clone())),
                ("samples".to_owned(), WfValue::Link("3".to_owned(), 0)),
            ],
        };
        let ks2_id = id_text(next + 1);
        let steps2 = match h.steps {
            Some(x) => x,
            None => match r.steps {
                Some(x) => x,
                None => 20,
            },
        };
        let ks2 = ksampler_wf(
            r,
            ks2_id.as_str(),
            steps2,
            opt_or(&r.sampler, "euler"),
            opt_or(&r.scheduler, "normal"),
            h.denoise.clone(),
            chain,
            up,
        );
        nodes.push(upn);
        nodes.push(ks2);
        assert(node_view(nodes@[0]).inputs =~= hires_spec(*r)[0].inputs);
        assert(nodes@.map_values(|n: WfNode| node_view(n)) =~= hires_spec(*r));
        return (nodes, ks2_id);
    }
    assert(nodes@.map_values(|n: WfNode| node_view(n)) =~= hires_spec(*r));
    (nodes, "3".to_owned())
}

fn tail_part(r: &RecipeText, lat_id: String, vae_id: String, vae_slot: u64) -> (out: Vec<WfNode>)
    requires
        (lat_id@, 0u64) == latent_source(*r),
        (vae_id@, vae_slot) == vae_source(*r),
    ensures
        out@.map_values(|n: WfNode| node_view(n)) == tail_spec(*r),
{
    let decode = WfNode {
        id: "8".to_owned(),
        class_type: "VAEDecode".to_owned(),
        inputs: vec![
            ("samples".to_owned(), WfValue::Link(lat_id, 0)),
            ("vae".to_owned(), WfValue::Link(vae_id, vae_slot)),
        ],
    };
    let save = WfNode {
        id: "9".to_owned(),
        class_type: "SaveImage".to_owned(),
        inputs: vec![
            ("filename_prefix".to_owned(), WfValue::Text("converted".to_owned())),
            ("images".to_owned(), WfValue::Link("8".to_owned(), 0)),
        ],
    };
    let out: Vec<WfNode> = vec![decode, save];
    proof {
        let ts = tail_spec(*r);
        assert(node_view(out@[0]).inputs =~= ts[0].inputs);
        assert(node_view(out@[1]).inputs =~= ts[1].inputs);
        assert(out@.map_values(|n: WfNode| node_view(n)) =~= ts);
    }
    out
}

proof fn lemma_map_concat(a: Seq<WfNode>, b: Seq<WfNode>)
    ensures
        (a + b).map_values(|n: WfNode| node_view(n))
            == a.map_values(|n: WfNode| node_view(n)) + b.map_values(|n: WfNode| node_view(n)),
{
    assert((a + b).map_values(|n: WfNode| node_view(n))
        =~= a.map_values(|n: WfNode| node_view(n)) + b.map_values(|n: WfNode| node_view(n)));
}

/// The API-format workflow a recipe becomes (see `workflow_spec`); the app
/// writes these nodes as a JSON object.
pub fn workflow_nodes(r: &RecipeText) -> (out: Vec<WfNode>)
    requires
        ids_fit(*r),
    ensures
        out@.map_values(|n: WfNode| node_view(n)) == workflow_spec(*r),
{
    let mut out = head_nodes(r);
    let chain = chain_text(r);
    let (mut skip, clip_id, clip_slot) = skip_part(r, &chain);
    let (mut vae, vae_id, vae_slot) = vae_part(r);
    let mut middle = middle_part(r, &chain, &clip_id, clip_slot);
    let (mut hires, lat_id) = hires_part(r, &chain);
    let mut tail = tail_part(r, lat_id, vae_id, vae_slot);
    let ghost (o0, s0, v0, m0, h0, t0) = (out@, skip@, vae@, middle@, hires@, tail@);
    out.append(&mut skip);
    out.append(&mut vae);
    out.append(&mut middle);
    out.append(&mut hires);
    out.append(&mut tail);
    proof {
        lemma_map_concat(o0, s0);
        lemma_map_concat(o0 + s0, v0);
        lemma_map_concat(o0 + s0 + v0, m0);
        lemma_map_concat(o0 + s0 + v0 + m0, h0);
        lemma_map_concat(o0 + s0 + v0 + m0 + h0, t0);
    }
    out
}
// ---------------------------------------------------------------------------
// The built workflow's node ids
// ---------------------------------------------------------------------------

pub open spec fn skip_n(r: RecipeText) -> int {
    if skip_count(r) is Some { 1 } else { 0 }
}

pub open spec fn vae_n(r: RecipeText) -> int {
    if r.vae is Some { 1 } else { 0 }
}

pub open spec fn hires_n(r: RecipeText) -> int {
    if r.hires is Some { 2 } else { 0 }
}

/// The number behind the id of node `i` of the built workflow: the fixed
/// ids 4, 6, 7, 5, 3, 8, 9 and, for the nodes added on the way, 100 upwards.
pub open spec fn id_key(r: RecipeText, i: int) -> int {
    let e0 = 1 + r.loras@.len() + skip_n(r) + vae_n(r);
    if i == 0 {
        4
    } else if i < e0 {
        99 + i
    } else if i == e0 {
        6
    } else if i == e0 + 1 {
        7
    } else if i == e0 + 2 {
        5
    } else if i == e0 + 3 {
        3
    } else if i < e0 + 4 + hires_n(r) {
        95 + i
    } else if i == e0 + 4 + hires_n(r) {
        8
    } else {
        9
    }
}

proof fn lemma_digits_len(n: nat)
    ensures
        decimal_digits(n).len() >= 1,
        n >= 10 ==> decimal_digits(n).len() >= 2,
        n >= 100 ==> decimal_digits(n).len() >= 3,
    decreases n,
{
    if n >= 10 {
        lemma_digits_len(n / 10);
    }
}

proof fn lemma_digit_char_injective(a: int, b: int)
    requires
        0 <= a < 10,
        0 <= b < 10,
        crate::text::digit_char(a) == crate::text::digit_char(b),
    ensures
        a == b,
{
}

proof fn lemma_digits_injective(a: nat, b: nat)
    requires
        decimal_digits(a) == decimal_digits(b),
    ensures
        a == b,
    decreases a,
{
    lemma_digits_len(a);
    lemma_digits_len(b);
    let da = decimal_digits(a);
    let db = decimal_digits(b);
    if a < 10 && b < 10 {
        assert(da == seq![crate::text::digit_char(a as int)]);
        assert(db == seq![crate::text::digit_char(b as int)]);
        assert(crate::text::digit_char(a as int) == da[0]);
        assert(crate::text::digit_char(b as int) == db[0]);
        lemma_digit_char_injective(a as int, b as int);
    } else if a >= 10 && b >= 10 {
        lemma_digits_len(a / 10);
        lemma_digits_len(b / 10);
        assert(da == decimal_digits(a / 10).push(crate::text::digit_char((a % 10) as int)));
        assert(db == decimal_digits(b / 10).push(crate::text::digit_char((b % 10) as int)));
        assert(crate::text::digit_char((a % 10) as int) == da.last());
        assert(crate::text::digit_char((b % 10) as int) == db.last());
        lemma_digit_char_injective((a % 10) as int, (b % 10) as int);
        assert(decimal_digits(a / 10) =~= da.drop_last());
        assert(decimal_digits(b / 10) =~= db.drop_last());
        lemma_digits_injective(a / 10, b / 10);
    } else {
        lemma_digits_len(a / 10);
        lemma_digits_len(b / 10);
        assert(da.len() != db.len());
    }
}

proof fn lemma_single_digit_id(d: nat, lit: Seq<char>)
    requires
        d < 10,
        lit == seq![crate::text::digit_char(d as int)],
    ensures
        lit == decimal_digits(d),
{
}

/// Node `i` of the built workflow has the id numbered `id_key(r, i)`.
proof fn lemma_workflow_ids(r: RecipeText)
    requires
        ids_fit(r),
    ensures
        workflow_spec(r).len() == 1 + r.loras@.len() + skip_n(r) + vae_n(r) + 4 + hires_n(r) + 2,
        forall|i: int| 0 <= i < workflow_spec(r).len() ==> (#[trigger] workflow_spec(r)[i]).id == decimal_digits(id_key(r, i) as nat),
{
    reveal_strlit("4");
    reveal_strlit("6");
    reveal_strlit("7");
    reveal_strlit("5");
    reveal_strlit("3");
    reveal_strlit("8");
    reveal_strlit("9");
    assert("4"@ =~= seq!['4']);
    lemma_single_digit_id(4, "4"@);
    assert("6"@ =~= seq!['6']);
    lemma_single_digit_id(6, "6"@);
    assert("7"@ =~= seq!['7']);
    lemma_single_digit_id(7, "7"@);
    assert("5"@ =~= seq!['5']);
    lemma_single_digit_id(5, "5"@);
    assert("3"@ =~= seq!['3']);
    lemma_single_digit_id(3, "3"@);
    assert("8"@ =~= seq!['8']);
    lemma_single_digit_id(8, "8"@);
    assert("9"@ =~= seq!['9']);
    lemma_single_digit_id(9, "9"@);
    let nl = r.loras@.len() as int;
    let h = head_spec(r);
    let a = h + skip_spec(r);
    let b = a + vae_spec(r);
    let c = b + middle_spec(r);
    let d = c + hires_spec(r);
    let w = d + tail_spec(r);
    assert(w == workflow_spec(r));
    assert(h.len() == 1 + nl);
    assert(skip_spec(r).len() == skip_n(r));
    assert(vae_spec(r).len() == vae_n(r));
    assert(hires_spec(r).len() == hires_n(r));
    assert forall|i: int| 0 <= i < w.len() implies (#[trigger] w[i]).id == decimal_digits(id_key(r, i) as nat) by {
        let e0 = 1 + nl + skip_n(r) + vae_n(r);
        if i < 1 + nl {
            assert(w[i] == h[i]);
            if i > 0 {
                assert(h[i] == lora_node(r.loras@[i - 1], (i - 1) as nat));
            }
        } else if i < 1 + nl + skip_n(r) {
            assert(w[i] == skip_spec(r)[i - (1 + nl)]);
        } else if i < e0 {
            assert(w[i] == vae_spec(r)[i - (1 + nl + skip_n(r))]);
        } else if i < e0 + 4 {
            assert(w[i] == middle_spec(r)[i - e0]);
        } else if i < e0 + 4 + hires_n(r) {
            assert(w[i] == hires_spec(r)[i - (e0 + 4)]);
        } else {
            assert(w[i] == tail_spec(r)[i - (e0 + 4 + hires_n(r))]);
        }
    }
}

/// The nodes of a built workflow have distinct ids, so writing them as one
/// JSON object keeps every node.
pub proof fn law_workflow_ids_distinct(r: RecipeText)
    requires
        ids_fit(r),
    ensures
        forall|i: int, j: int|
            0 <= i < j < workflow_spec(r).len() ==> (#[trigger] workflow_spec(r)[i]).id != (#[trigger] workflow_spec(r)[j]).id,
{
    lemma_workflow_ids(r);
    assert forall|i: int, j: int| 0 <= i < j < workflow_spec(r).len() implies (#[trigger] workflow_spec(r)[i]).id
        != (#[trigger] workflow_spec(r)[j]).id by {
        if workflow_spec(r)[i].id == workflow_spec(r)[j].id {
            lemma_digits_injective(id_key(r, i) as nat, id_key(r, j) as nat);
        }
    }
}

// ---------------------------------------------------------------------------
// Reading a built workflow back
// ---------------------------------------------------------------------------

/// An input read from JSON as the written value: the same name, and a text
/// as that text, an integer as that number, a fractional number rendered as
/// the decimal text it was written from, a link as its source.
pub open spec fn input_reads_as(a: (String, ApiInput), w: (Seq<char>, ValView)) -> bool {
    &&& a.0@ == w.0
    &&& match (a.1, w.1) {
        (ApiInput::Text(t), ValView::Text(u)) => t@ == u,
        (ApiInput::Number { whole, shown, weight }, ValView::Int(n)) => whole == Some(n) && shown@ == int_text(
            n as int,
        ) && weight@ == int_text(n as int),
        (ApiInput::Number { shown, weight, .. }, ValView::Float(t)) => shown@ == t && weight@ == t,
        (ApiInput::Link(src), ValView::Link(id, _)) => src@ == id,
        _ => false,
    }
}

pub open spec fn node_reads_as(n: ApiNode, w: NodeView) -> bool {
    &&& n.id@ == w.id
    &&& opt_chars(n.class_type) == Some(w.class_type)
    &&& n.inputs is Some
    &&& n.inputs->0@.len() == w.inputs.len()
    &&& forall|k: int| 0 <= k < w.inputs.len() ==> input_reads_as(#[trigger] n.inputs->0@[k], w.inputs[k])
}

/// `g` is the written workflow `w` read back, node for node in the same order.
pub open spec fn graph_reads_as(g: Seq<ApiNode>, w: Seq<NodeView>) -> bool {
    &&& g.len() == w.len()
    &&& forall|i: int| 0 <= i < w.len() ==> node_reads_as(#[trigger] g[i], w[i])
}

/// The LoRA a LoRA tag of the recipe is read back as.
pub open spec fn lora_read_back(l: LoraText) -> LoraView {
    let m = l.model_w@;
    let c = or_text(l.clip_w, l.model_w@);
    LoraView { name: with_ext_spec(l.name@), model_w: m, clip_w: if m == c { None } else { Some(c) } }
}

proof fn lemma_node_of_distinct(g: Seq<ApiNode>, i: int)
    requires
        0 <= i < g.len(),
        forall|a: int, b: int| 0 <= a < b < g.len() ==> (#[trigger] g[a]).id@ != (#[trigger] g[b]).id@,
    ensures
        node_of(g, g[i].id@) == Some(g[i]),
    decreases g.len(),
{
    if i > 0 {
        let d = g.drop_first();
        assert(g[0].id@ != g[i].id@);
        assert forall|a: int, b: int| 0 <= a < b < d.len() implies (#[trigger] d[a]).id@ != (#[trigger] d[b]).id@ by {
            assert(d[a] == g[a + 1] && d[b] == g[b + 1]);
        }
        assert(d[i - 1] == g[i]);
        lemma_node_of_distinct(d, i - 1);
    }
}

/// Which nodes of the built workflow are LoRA loaders: nodes 1 to the number
/// of LoRAs, each the loader of its LoRA; no other node has a LoRA loader's
/// class.
proof fn lemma_workflow_classes(r: RecipeText)
    requires
        ids_fit(r),
    ensures
        forall|i: int| 1 <= i <= r.loras@.len() ==> #[trigger] workflow_spec(r)[i] == lora_node(r.loras@[i - 1], (i - 1) as nat),
        forall|i: int| 0 <= i < workflow_spec(r).len() && !(1 <= i <= r.loras@.len()) ==> (#[trigger] workflow_spec(r)[i]).class_type.len() != 10
            && workflow_spec(r)[i].class_type.len() != 19,
{
    reveal_strlit("CheckpointLoaderSimple");
    reveal_strlit("CLIPSetLastLayer");
    reveal_strlit("VAELoader");
    reveal_strlit("CLIPTextEncode");
    reveal_strlit("EmptyLatentImage");
    reveal_strlit("KSampler");
    reveal_strlit("LatentUpscaleBy");
    reveal_strlit("VAEDecode");
    reveal_strlit("SaveImage");
    lemma_workflow_ids(r);
    let nl = r.loras@.len() as int;
    let h = head_spec(r);
    let a = h + skip_spec(r);
    let b = a + vae_spec(r);
    let c = b + middle_spec(r);
    let d = c + hires_spec(r);
    let w = d + tail_spec(r);
    assert(w == workflow_spec(r));
    assert(h.len() == 1 + nl);
    assert(skip_spec(r).len() == skip_n(r));
    assert(vae_spec(r).len() == vae_n(r));
    assert(hires_spec(r).len() == hires_n(r));
    assert forall|i: int| 1 <= i <= nl implies #[trigger] w[i] == lora_node(r.loras@[i - 1], (i - 1) as nat) by {
        assert(w[i] == h[i]);
    }
    assert forall|i: int| 0 <= i < w.len() && !(1 <= i <= nl) implies (#[trigger] w[i]).class_type.len() != 10
        && w[i].class_type.len() != 19 by {
        let e0 = 1 + nl + skip_n(r) + vae_n(r);
        if i == 0 {
            assert(w[i] == h[i]);
        } else if i < 1 + nl + skip_n(r) {
            assert(w[i] == skip_spec(r)[i - (1 + nl)]);
        } else if i < e0 {
            assert(w[i] == vae_spec(r)[i - (1 + nl + skip_n(r))]);
        } else if i < e0 + 4 {
            assert(w[i] == middle_spec(r)[i - e0]);
        } else if i < e0 + 4 + hires_n(r) {
            assert(w[i] == hires_spec(r)[i - (e0 + 4)]);
        } else {
            assert(w[i] == tail_spec(r)[i - (e0 + 4 + hires_n(r))]);
        }
    }
}

pub open spec fn loras_read_up_to(r: RecipeText, m: int) -> Seq<LoraView> {
    let nl = r.loras@.len() as int;
    r.loras@.map_values(|l: LoraText| lora_read_back(l)).take(if m <= 1 { 0 } else if m - 1 <= nl { m - 1 } else { nl })
}

proof fn lemma_loras_prefix(r: RecipeText, g: Seq<ApiNode>, m: int)
    requires
        ids_fit(r),
        graph_reads_as(g, workflow_spec(r)),
        0 <= m <= g.len(),
        forall|a: int, b: int| 0 <= a < b < g.len() ==> (#[trigger] g[a]).id@ != (#[trigger] g[b]).id@,
        forall|i: int| 1 <= i <= r.loras@.len() ==> #[trigger] workflow_spec(r)[i] == lora_node(r.loras@[i - 1], (i - 1) as nat),
        forall|i: int| 0 <= i < workflow_spec(r).len() && !(1 <= i <= r.loras@.len()) ==> (#[trigger] workflow_spec(r)[i]).class_type.len() != 10
            && workflow_spec(r)[i].class_type.len() != 19,
    ensures
        loader_fold(g, g.take(m)).loras == loras_read_up_to(r, m),
    decreases m,
{
    let w = workflow_spec(r);
    let nl = r.loras@.len() as int;
    let want = r.loras@.map_values(|l: LoraText| lora_read_back(l));
    if m == 0 {
        assert(g.take(0) =~= Seq::<ApiNode>::empty());
        assert(want.take(0) =~= Seq::<LoraView>::empty());
    } else {
        let i = m - 1;
        lemma_loras_prefix(r, g, i);
        assert(g.take(m).drop_last() =~= g.take(i));
        assert(g.take(m).last() == g[i]);
        lemma_node_of_distinct(g, i);
        let n = g[i];
        assert(node_reads_as(n, w[i]));
        let ins = n.inputs->0@;
        assert(inputs_of(g, n.id@) == Some(ins));
        assert(class_of(g, n.id@) == Some(w[i].class_type));
        if 1 <= i <= nl {
            reveal_strlit("LoraLoader");
            reveal_strlit("UNETLoader");
            reveal_strlit("CheckpointLoader");
            reveal_strlit("lora_name");
            reveal_strlit("strength_model");
            reveal_strlit("strength_clip");
            let l = r.loras@[i - 1];
            let wn = lora_node(l, (i - 1) as nat);
            assert(w[i] == wn);
            assert(!contains_seq("LoraLoader"@, "CheckpointLoader"@));
            assert("LoraLoader"@ != "UNETLoader"@) by {
                assert("LoraLoader"@[0] != "UNETLoader"@[0]);
            }
            assert(input_reads_as(ins[0], wn.inputs[0]));
            assert(input_reads_as(ins[1], wn.inputs[1]));
            assert(input_reads_as(ins[2], wn.inputs[2]));
            assert(ins.drop_first()[0] == ins[1]);
            assert(ins.drop_first().drop_first()[0] == ins[2]);
            assert("lora_name"@ != "strength_model"@) by {
                assert("lora_name"@.len() != "strength_model"@.len());
            }
            assert("lora_name"@ != "strength_clip"@) by {
                assert("lora_name"@.len() != "strength_clip"@.len());
            }
            assert("strength_model"@ != "strength_clip"@) by {
                assert("strength_model"@.len() != "strength_clip"@.len());
            }
            assert(ins.len() == 5);
            assert(ins[0].0@ == "lora_name"@);
            assert(ins[1].0@ == "strength_model"@);
            assert(ins[2].0@ == "strength_clip"@);
            let t1 = ins.drop_first();
            let t2 = t1.drop_first();
            assert(t2[0] == ins[2]);
            assert(input_of(ins, "lora_name"@) == Some(ins[0].1));
            assert(input_of(t1, "strength_model"@) == Some(ins[1].1));
            assert(input_of(ins, "strength_model"@) == Some(ins[1].1));
            assert(input_of(t2, "strength_clip"@) == Some(ins[2].1));
            assert(input_of(t1, "strength_clip"@) == Some(ins[2].1));
            assert(input_of(ins, "strength_clip"@) == Some(ins[2].1));
            assert(want[i - 1] == lora_read_back(l));
            assert(want.take(i) =~= want.take(i - 1).push(want[i - 1]));
        } else {
            reveal_strlit("LoraLoader");
            reveal_strlit("LoraLoaderModelOnly");
            assert(w[i].class_type != "LoraLoader"@ && w[i].class_type != "LoraLoaderModelOnly"@);
        }
    }
}

/// Reading back the workflow built from a recipe, its nodes in the order
/// they were built, gives the recipe's LoRAs in order: each named with a
/// model-file extension, with its model weight, and its clip weight where it
/// differs.
pub proof fn law_built_loras_read_back(r: RecipeText, g: Seq<ApiNode>)
    requires
        ids_fit(r),
        graph_reads_as(g, workflow_spec(r)),
    ensures
        loader_fold(g, g).loras == r.loras@.map_values(|l: LoraText| lora_read_back(l)),
{
    let w = workflow_spec(r);
    lemma_workflow_classes(r);
    lemma_workflow_ids(r);
    law_workflow_ids_distinct(r);
    assert forall|a: int, b: int| 0 <= a < b < g.len() implies (#[trigger] g[a]).id@ != (#[trigger] g[b]).id@ by {
        assert(node_reads_as(g[a], w[a]) && node_reads_as(g[b], w[b]));
        assert(w[a].id != w[b].id);
    }
    lemma_loras_prefix(r, g, g.len() as int);
    assert(g.take(g.len() as int) =~= g);
    let want = r.loras@.map_values(|l: LoraText| lora_read_back(l));
    assert(want.take(r.loras@.len() as int) =~= want);
}

} // verus!
