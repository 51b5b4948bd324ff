use synthetrix::apirecipe::{
    recipe_from_api, recipe_from_ui, workflow_nodes, ApiGraph, ApiInput, ApiNode, UiGraph, UiLink, UiNode, WfNode, WfValue,
};
use synthetrix::convert::{HiresText, LoraText, RecipeText};
use synthetrix::convert::format_a1111;

fn text(s: &str) -> ApiInput {
    ApiInput::Text(s.to_string())
}

fn whole(n: i64) -> ApiInput {
    ApiInput::Number { whole: Some(n), shown: n.to_string(), weight: n.to_string() }
}

fn num(s: &str) -> ApiInput {
    ApiInput::Number { whole: None, shown: s.to_string(), weight: s.to_string() }
}

fn link(s: &str) -> ApiInput {
    ApiInput::Link(s.to_string())
}

fn node(id: &str, class: &str, inputs: Vec<(&str, ApiInput)>) -> ApiNode {
    ApiNode {
        id: id.to_string(),
        class_type: Some(class.to_string()),
        inputs: Some(inputs.into_iter().map(|(k, v)| (k.to_string(), v)).collect()),
    }
}

fn fox() -> ApiGraph {
    ApiGraph {
        nodes: vec![
            node("3", "KSampler", vec![
                ("cfg", num("6.5")),
                ("latent_image", link("5")),
                ("model", link("4")),
                ("negative", link("7")),
                ("positive", link("6")),
                ("sampler_name", text("dpmpp_2m")),
                ("scheduler", text("karras")),
                ("seed", whole(42)),
                ("steps", whole(28)),
            ]),
            node("4", "CheckpointLoaderSimple", vec![("ckpt_name", text("dreamshaper.safetensors"))]),
            node("5", "EmptyLatentImage", vec![("batch_size", whole(1)), ("height", whole(1216)), ("width", whole(832))]),
            node("6", "CLIPTextEncode", vec![("clip", link("4")), ("text", text("a red fox"))]),
            node("7", "CLIPTextEncode", vec![("clip", link("4")), ("text", text("blurry"))]),
        ],
    }
}

#[test]
fn api_workflow_to_params_roundtrips_key_fields() {
    let p = format_a1111(&recipe_from_api(&fox()));
    assert!(p.starts_with("a red fox"));
    assert!(p.contains("Negative prompt: blurry"));
    assert!(p.contains("Steps: 28"));
    assert!(p.contains("Sampler: dpmpp_2m karras"));
    assert!(p.contains("CFG scale: 6.5"));
    assert!(p.contains("Seed: 42"));
    assert!(p.contains("Size: 832x1216"));
    assert!(p.contains("Model: dreamshaper.safetensors"));
}

#[test]
fn empty_graph_gives_an_empty_recipe() {
    let r = recipe_from_api(&ApiGraph { nodes: vec![] });
    assert_eq!(r.positive, "");
    assert_eq!(r.negative, "");
    assert_eq!(r.seed, None);
    assert_eq!(r.model, None);
    assert!(r.loras.is_empty());
}

#[test]
fn prompts_are_traced_through_wrappers() {
    let g = ApiGraph {
        nodes: vec![
            node("1", "SamplerCustomKSampler", vec![("noise_seed", whole(7)), ("positive", link("2"))]),
            node("2", "ConditioningZeroOut", vec![("conditioning", link("3"))]),
            node("3", "Wrapper", vec![("a", whole(1)), ("b", link("4"))]),
            node("4", "CLIPTextEncode", vec![("text", text("deep prompt"))]),
        ],
    };
    let r = recipe_from_api(&g);
    assert_eq!(r.seed, Some(7));
    assert_eq!(r.positive, "deep prompt");
    assert_eq!(r.negative, "");
}

#[test]
fn a_fourth_hop_is_too_deep() {
    let g = ApiGraph {
        nodes: vec![
            node("1", "KSampler", vec![("positive", link("2"))]),
            node("2", "W", vec![("x", link("3"))]),
            node("3", "W", vec![("x", link("4"))]),
            node("4", "W", vec![("x", link("5"))]),
            node("5", "CLIPTextEncode", vec![("text", text("too far"))]),
        ],
    };
    assert_eq!(recipe_from_api(&g).positive, "");
}

#[test]
fn a_seed_that_is_not_a_whole_number_is_dropped() {
    let g = ApiGraph {
        nodes: vec![node("1", "KSampler", vec![("noise_seed", whole(3)), ("seed", num("1.5"))])],
    };
    assert_eq!(recipe_from_api(&g).seed, None);
}

#[test]
fn loaders_fill_model_loras_vae_and_clip_skip() {
    let g = ApiGraph {
        nodes: vec![
            node("1", "UNETLoader", vec![("unet_name", text("flux.gguf"))]),
            node("2", "CheckpointLoaderSimple", vec![("ckpt_name", text("later.safetensors"))]),
            node("3", "LoraLoader", vec![("lora_name", text("a.safetensors")), ("strength_clip", num("0.5")), ("strength_model", whole(1))]),
            node("4", "LoraLoaderModelOnly", vec![("lora_name", text("b.safetensors"))]),
            node("5", "LoraLoader", vec![("strength_model", num("0.3"))]),
            node("6", "VAELoader", vec![("vae_name", text("ae.safetensors"))]),
            node("7", "CLIPSetLastLayer", vec![("stop_at_clip_layer", whole(-2))]),
            node("8", "EmptySD3LatentImage", vec![("height", whole(640)), ("width", whole(480))]),
            node("9", "EmptyLatentImage", vec![("height", whole(1)), ("width", whole(1))]),
        ],
    };
    let r = recipe_from_api(&g);
    assert_eq!(r.model, Some("flux.gguf".to_string()));
    assert_eq!(r.loras.len(), 2);
    assert_eq!(r.loras[0].name, "a.safetensors");
    assert_eq!(r.loras[0].model_w, "1");
    assert_eq!(r.loras[0].clip_w, Some("0.5".to_string()));
    assert_eq!(r.loras[1].name, "b.safetensors");
    assert_eq!(r.loras[1].model_w, "1");
    assert_eq!(r.loras[1].clip_w, None);
    assert_eq!(r.vae, Some("ae.safetensors".to_string()));
    assert_eq!(r.clip_skip, Some(2));
    assert_eq!(r.width, Some(480));
    assert_eq!(r.height, Some(640));
    assert_eq!(r.seed, None);
}

fn ui(id: i64, t: &str, widgets: Vec<ApiInput>) -> UiNode {
    UiNode { id: Some(id), node_type: t.to_string(), widgets }
}

fn ui_link(from: i64, to: i64, slot: i64) -> UiLink {
    UiLink { from: Some(from), to: Some(to), to_slot: Some(slot) }
}

#[test]
fn ui_workflow_extracts_recipe() {
    let g = UiGraph {
        nodes: vec![
            ui(1, "KSampler", vec![whole(111), text("randomize"), whole(24), num("5"), text("euler"), text("normal"), num("1")]),
            ui(2, "CheckpointLoaderSimple", vec![text("base.safetensors")]),
            ui(3, "EmptyLatentImage", vec![whole(512), whole(768), whole(1)]),
            ui(4, "CLIPTextEncode", vec![text("a cat")]),
            ui(5, "CLIPTextEncode", vec![text("ugly")]),
        ],
        links: Some(vec![ui_link(4, 1, 1), ui_link(5, 1, 2)]),
    };
    let p = format_a1111(&recipe_from_ui(&g));
    assert!(p.starts_with("a cat"));
    assert!(p.contains("Negative prompt: ugly"));
    assert!(p.contains("Steps: 24"));
    assert!(p.contains("Seed: 111"));
    assert!(p.contains("Size: 512x768"));
}

#[test]
fn ui_prompts_follow_links_before_order() {
    let g = UiGraph {
        nodes: vec![
            ui(1, "CLIPTextEncode", vec![text("first")]),
            ui(2, "CLIPTextEncode", vec![text("second")]),
            ui(9, "KSamplerAdvanced", vec![]),
        ],
        links: Some(vec![ui_link(2, 9, 1), ui_link(1, 9, 2)]),
    };
    let r = recipe_from_ui(&g);
    assert_eq!(r.positive, "second");
    assert_eq!(r.negative, "first");
}

#[test]
fn ui_prompts_fall_back_to_encoder_order() {
    let g = UiGraph {
        nodes: vec![
            ui(1, "CLIPTextEncode", vec![text("p")]),
            ui(2, "CLIPTextEncodeSDXL", vec![whole(3)]),
            ui(3, "CLIPTextEncode", vec![text("n")]),
        ],
        links: None,
    };
    let r = recipe_from_ui(&g);
    assert_eq!(r.positive, "p");
    assert_eq!(r.negative, "n");
}

#[test]
fn ui_loaders_fill_loras_vae_and_clip_skip() {
    let g = UiGraph {
        nodes: vec![
            ui(1, "LoraLoader", vec![text("a.safetensors"), num("0.8"), num("0.8")]),
            ui(2, "LoraLoaderModelOnly", vec![text("b.safetensors"), whole(1), num("0.25")]),
            ui(3, "VAELoader", vec![text("ae.safetensors")]),
            ui(4, "CLIPSetLastLayer", vec![whole(-1)]),
            ui(5, "CLIPSetLastLayer", vec![whole(-3)]),
        ],
        links: None,
    };
    let r = recipe_from_ui(&g);
    assert_eq!(r.loras.len(), 2);
    assert_eq!(r.loras[0].model_w, "0.8");
    assert_eq!(r.loras[0].clip_w, None);
    assert_eq!(r.loras[1].model_w, "1");
    assert_eq!(r.loras[1].clip_w, Some("0.25".to_string()));
    assert_eq!(r.vae, Some("ae.safetensors".to_string()));
    assert_eq!(r.clip_skip, Some(1));
    assert_eq!(r.model, None);
}

fn base_recipe() -> RecipeText {
    RecipeText {
        positive: "a red fox in snow".to_string(),
        negative: "blurry, lowres".to_string(),
        steps: Some(30),
        cfg: Some("7".to_string()),
        sampler: Some("dpmpp_2m".to_string()),
        scheduler: Some("karras".to_string()),
        seed: Some(123),
        width: Some(768),
        height: Some(1024),
        model: Some("dreamshaper.safetensors".to_string()),
        ..Default::default()
    }
}

fn find<'a>(g: &'a [WfNode], id: &str) -> &'a WfNode {
    g.iter().find(|n| n.id == id).unwrap()
}

fn input<'a>(n: &'a WfNode, k: &str) -> &'a WfValue {
    &n.inputs.iter().find(|(name, _)| name == k).unwrap().1
}

fn is_text(v: &WfValue, t: &str) -> bool {
    matches!(v, WfValue::Text(x) if x == t)
}

fn is_int(v: &WfValue, n: i64) -> bool {
    matches!(v, WfValue::Int(x) if *x == n)
}

fn is_float(v: &WfValue, t: &str) -> bool {
    matches!(v, WfValue::Float(x) if x == t)
}

fn link_from<'a>(v: &'a WfValue) -> (&'a str, u64) {
    match v {
        WfValue::Link(id, slot) => (id.as_str(), *slot),
        _ => panic!("not a link"),
    }
}

#[test]
fn recipe_builds_valid_graph() {
    let g = workflow_nodes(&base_recipe());
    let ids: Vec<&str> = g.iter().map(|n| n.id.as_str()).collect();
    assert_eq!(ids, vec!["4", "6", "7", "5", "3", "8", "9"]);
    let ks = find(&g, "3");
    assert_eq!(ks.class_type, "KSampler");
    assert!(is_int(input(ks, "seed"), 123));
    assert!(is_int(input(ks, "steps"), 30));
    assert!(is_text(input(ks, "sampler_name"), "dpmpp_2m"));
    assert!(is_text(input(ks, "scheduler"), "karras"));
    assert!(is_float(input(ks, "cfg"), "7"));
    assert!(is_float(input(ks, "denoise"), "1"));
    assert!(is_text(input(find(&g, "6"), "text"), "a red fox in snow"));
    assert!(is_text(input(find(&g, "7"), "text"), "blurry, lowres"));
    assert!(is_int(input(find(&g, "5"), "width"), 768));
    assert!(is_int(input(find(&g, "5"), "height"), 1024));
    assert_eq!(link_from(input(find(&g, "6"), "clip")), ("4", 1));
    assert_eq!(link_from(input(find(&g, "8"), "vae")), ("4", 2));
    assert_eq!(link_from(input(find(&g, "8"), "samples")), ("3", 0));
}

#[test]
fn defaults_fill_a_bare_recipe() {
    let g = workflow_nodes(&RecipeText::default());
    let ks = find(&g, "3");
    assert!(is_int(input(ks, "seed"), 0));
    assert!(is_int(input(ks, "steps"), 20));
    assert!(is_float(input(ks, "cfg"), "7"));
    assert!(is_text(input(ks, "sampler_name"), "euler"));
    assert!(is_text(input(ks, "scheduler"), "normal"));
    assert!(is_text(input(find(&g, "4"), "ckpt_name"), "model.safetensors"));
    assert!(is_int(input(find(&g, "5"), "width"), 1024));
}

#[test]
fn loras_become_a_chain() {
    let mut r = base_recipe();
    r.loras = vec![
        LoraText { name: "animeStyle".to_string(), model_w: "0.8".to_string(), clip_w: None },
        LoraText { name: "detailHands".to_string(), model_w: "1".to_string(), clip_w: Some("0.5".to_string()) },
    ];
    let g = workflow_nodes(&r);
    let a = find(&g, "100");
    let b = find(&g, "101");
    assert_eq!(a.class_type, "LoraLoader");
    assert!(is_text(input(a, "lora_name"), "animeStyle.safetensors"));
    assert!(is_float(input(a, "strength_clip"), "0.8"));
    assert_eq!(link_from(input(a, "model")), ("4", 0));
    assert!(is_text(input(b, "lora_name"), "detailHands.safetensors"));
    assert!(is_float(input(b, "strength_model"), "1"));
    assert!(is_float(input(b, "strength_clip"), "0.5"));
    assert_eq!(link_from(input(b, "clip")), ("100", 1));
    assert_eq!(link_from(input(find(&g, "3"), "model")), ("101", 0));
    assert_eq!(link_from(input(find(&g, "6"), "clip")), ("101", 1));
}

#[test]
fn clip_skip_and_vae_are_wired() {
    let mut r = base_recipe();
    r.clip_skip = Some(2);
    r.vae = Some("sdxl_vae.safetensors".to_string());
    let g = workflow_nodes(&r);
    let cs = find(&g, "100");
    assert_eq!(cs.class_type, "CLIPSetLastLayer");
    assert!(is_int(input(cs, "stop_at_clip_layer"), -2));
    assert_eq!(link_from(input(find(&g, "6"), "clip")), ("100", 0));
    let vae = find(&g, "101");
    assert_eq!(vae.class_type, "VAELoader");
    assert!(is_text(input(vae, "vae_name"), "sdxl_vae.safetensors"));
    assert_eq!(link_from(input(find(&g, "8"), "vae")), ("101", 0));
    r.clip_skip = Some(1);
    assert!(workflow_nodes(&r).iter().all(|n| n.class_type != "CLIPSetLastLayer"));
}

#[test]
fn hires_adds_second_pass() {
    let mut r = base_recipe();
    r.hires = Some(HiresText { upscale: "2".to_string(), steps: Some(10), denoise: "0.4".to_string(), upscaler: None });
    let g = workflow_nodes(&r);
    let up = find(&g, "100");
    assert_eq!(up.class_type, "LatentUpscaleBy");
    assert!(is_float(input(up, "scale_by"), "2"));
    let ks2 = find(&g, "101");
    assert_eq!(ks2.class_type, "KSampler");
    assert!(is_float(input(ks2, "denoise"), "0.4"));
    assert!(is_int(input(ks2, "steps"), 10));
    assert_eq!(link_from(input(ks2, "latent_image")), ("100", 0));
    assert_eq!(link_from(input(find(&g, "8"), "samples")), ("101", 0));
}

#[test]
fn a_built_workflow_reads_back() {
    let mut r = base_recipe();
    r.loras = vec![LoraText { name: "epicStyle".to_string(), model_w: "0.7".to_string(), clip_w: None }];
    let built = workflow_nodes(&r);
    let g = ApiGraph {
        nodes: built
            .iter()
            .map(|n| ApiNode {
                id: n.id.clone(),
                class_type: Some(n.class_type.clone()),
                inputs: Some(
                    n.inputs
                        .iter()
                        .map(|(k, v)| {
                            let x = match v {
                                WfValue::Text(t) => ApiInput::Text(t.clone()),
                                WfValue::Int(i) => whole(*i),
                                WfValue::Float(t) => num(t),
                                WfValue::Link(id, _) => ApiInput::Link(id.clone()),
                            };
                            (k.clone(), x)
                        })
                        .collect(),
                ),
            })
            .collect(),
    };
    let back = format_a1111(&recipe_from_api(&g));
    assert!(back.contains("<lora:epicStyle:0.7>"), "got: {back}");
    assert!(!back.starts_with("<lora"));
}

#[test]
fn built_node_ids_are_distinct() {
    let mut r = base_recipe();
    r.loras = (0..12)
        .map(|i| LoraText { name: format!("l{i}"), model_w: "1".to_string(), clip_w: None })
        .collect();
    r.clip_skip = Some(3);
    r.vae = Some("v.safetensors".to_string());
    r.hires = Some(HiresText { upscale: "1.5".to_string(), steps: None, denoise: "0.5".to_string(), upscaler: None });
    let g = workflow_nodes(&r);
    assert_eq!(g.len(), 1 + 12 + 1 + 1 + 4 + 2 + 2);
    let mut ids: Vec<&str> = g.iter().map(|n| n.id.as_str()).collect();
    ids.sort();
    ids.dedup();
    assert_eq!(ids.len(), g.len());
    assert_eq!(find(&g, "112").class_type, "CLIPSetLastLayer");
    assert_eq!(find(&g, "113").class_type, "VAELoader");
    assert_eq!(find(&g, "115").class_type, "KSampler");
}
