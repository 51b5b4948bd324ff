use synthetrix::a1111::{model_ref, parse_a1111, read_settings, A1111Text};
use synthetrix::apirecipe::{recipe_from_api, workflow_nodes, ApiGraph, ApiInput, ApiNode, WfNode, WfValue};
use synthetrix::convert::format_a1111;
use synthetrix::convert::{HiresText, LoraText, RecipeText};

/// The recipe a parameters text gives, its fractional numbers kept as text.
fn recipe_of(a: A1111Text) -> RecipeText {
    let s = a.settings;
    let model = model_ref(&s);
    let has_hires = s.hires_upscale.is_some() || s.hires_steps.is_some() || s.hires_upscaler.is_some() || s.hires_resize.is_some();
    RecipeText {
        positive: a.positive,
        negative: a.negative,
        steps: s.steps,
        cfg: s.cfg,
        sampler: s.sampler,
        scheduler: s.scheduler,
        seed: s.seed,
        width: s.width,
        height: s.height,
        model,
        loras: a
            .loras
            .into_iter()
            .map(|t| {
                let m = t.model_w.unwrap_or_else(|| "1".to_string());
                let c = t.clip_w.unwrap_or_else(|| m.clone());
                LoraText { name: t.name, model_w: m, clip_w: Some(c) }
            })
            .collect(),
        clip_skip: s.clip_skip,
        vae: s.vae,
        denoise: s.denoise.clone(),
        hires: if has_hires {
            Some(HiresText {
                upscale: s.hires_upscale.unwrap_or_else(|| "2".to_string()),
                steps: s.hires_steps,
                denoise: s.denoise.unwrap_or_else(|| "0.5".to_string()),
                upscaler: s.hires_upscaler,
            })
        } else {
            None
        },
    }
}

fn graph(params: &str) -> Vec<WfNode> {
    workflow_nodes(&recipe_of(parse_a1111(params)))
}

fn find<'a>(g: &'a [WfNode], id: &str) -> &'a WfNode {
    g.iter().find(|n| n.id == id).unwrap()
}

fn input<'a>(n: &'a WfNode, k: &str) -> &'a WfValue {
    &n.inputs.iter().find(|(name, _)| name == k).unwrap().1
}

fn text(v: &WfValue) -> &str {
    match v {
        WfValue::Text(t) => t,
        _ => panic!("not a text"),
    }
}

fn int_of(v: &WfValue) -> i64 {
    match v {
        WfValue::Int(n) => *n,
        _ => panic!("not an integer"),
    }
}

fn float_of(v: &WfValue) -> f64 {
    match v {
        WfValue::Float(t) => t.parse().unwrap(),
        _ => panic!("not a number"),
    }
}

fn source(v: &WfValue) -> &str {
    match v {
        WfValue::Link(id, _) => id,
        _ => panic!("not a link"),
    }
}

#[test]
fn params_to_workflow_builds_valid_graph() {
    let params = "a red fox in snow\nNegative prompt: blurry, lowres\n\
                  Steps: 30, Sampler: DPM++ 2M Karras, CFG scale: 7, Seed: 123, Size: 768x1024, Model: dreamshaper";
    let g = graph(params);
    assert_eq!(find(&g, "3").class_type, "KSampler");
    assert_eq!(int_of(input(find(&g, "3"), "seed")), 123);
    assert_eq!(int_of(input(find(&g, "3"), "steps")), 30);
    assert_eq!(text(input(find(&g, "3"), "sampler_name")), "dpmpp_2m");
    assert_eq!(text(input(find(&g, "3"), "scheduler")), "karras");
    assert_eq!(text(input(find(&g, "6"), "text")), "a red fox in snow");
    assert_eq!(text(input(find(&g, "7"), "text")), "blurry, lowres");
    assert_eq!(int_of(input(find(&g, "5"), "width")), 768);
    assert_eq!(int_of(input(find(&g, "5"), "height")), 1024);
}

#[test]
fn loras_become_a_chain_not_prompt_text() {
    let params = "1girl, <lora:animeStyle:0.8> masterpiece <lora:detailHands:1:0.5>\n\
                  Negative prompt: bad\n\
                  Steps: 20, Sampler: Euler a, CFG scale: 6, Seed: 5, Size: 512x512, Model: any";
    let g = graph(params);
    let pos = text(input(find(&g, "6"), "text"));
    assert!(!pos.contains("<lora"), "lora tag leaked into prompt: {pos}");
    assert!(pos.contains("1girl") && pos.contains("masterpiece"));
    let loaders: Vec<&WfNode> = g.iter().filter(|n| n.class_type == "LoraLoader").collect();
    assert_eq!(loaders.len(), 2);
    assert_eq!(
        loaders
            .iter()
            .filter(|n| text(input(n, "lora_name")) == "animeStyle.safetensors")
            .count(),
        1
    );
    let hands = loaders
        .iter()
        .find(|n| text(input(n, "lora_name")) == "detailHands.safetensors")
        .unwrap();
    assert_eq!(float_of(input(hands, "strength_model")), 1.0);
    assert_eq!(float_of(input(hands, "strength_clip")), 0.5);
    assert_ne!(source(input(find(&g, "3"), "model")), "4");
}

#[test]
fn clip_skip_and_vae_and_schedule_type() {
    let params = "portrait\nNegative prompt: bad\n\
                  Steps: 25, Sampler: DPM++ 2M, Schedule type: Karras, CFG scale: 5, Seed: 1, \
                  Size: 1024x1024, Model: base, VAE: sdxl_vae.safetensors, Clip skip: 2";
    let g = graph(params);
    assert_eq!(text(input(find(&g, "3"), "scheduler")), "karras");
    assert_eq!(text(input(find(&g, "3"), "sampler_name")), "dpmpp_2m");
    let cs = g.iter().find(|n| n.class_type == "CLIPSetLastLayer").expect("clip skip node");
    assert_eq!(int_of(input(cs, "stop_at_clip_layer")), -2);
    assert_ne!(source(input(find(&g, "6"), "clip")), "4");
    let vae = g.iter().find(|n| n.class_type == "VAELoader").expect("vae node");
    assert_eq!(text(input(vae, "vae_name")), "sdxl_vae.safetensors");
    assert_ne!(source(input(find(&g, "8"), "vae")), "4");
}

#[test]
fn hires_fix_adds_second_pass() {
    let params = "landscape\nNegative prompt: bad\n\
                  Steps: 20, Sampler: Euler, CFG scale: 7, Seed: 9, Size: 512x512, Model: base, \
                  Denoising strength: 0.4, Hires upscale: 2, Hires steps: 10, Hires upscaler: Latent";
    let g = graph(params);
    let up = g.iter().find(|n| n.class_type == "LatentUpscaleBy").expect("upscale node");
    assert_eq!(float_of(input(up, "scale_by")), 2.0);
    let ksamplers: Vec<&WfNode> = g.iter().filter(|n| n.class_type == "KSampler").collect();
    assert_eq!(ksamplers.len(), 2);
    assert!(ksamplers.iter().any(|n| float_of(input(n, "denoise")) == 0.4));
    assert_ne!(source(input(find(&g, "8"), "samples")), "3");
}

#[test]
fn settings_line_is_read_field_by_field() {
    let s = read_settings("Steps: 20, Sampler: DPM++ 2M Karras, Schedule type: Exponential, CFG scale: 7.5, Seed: -1, Size: 832x1216, Model: sdxl, Hires resize: 1664x2432, Clip skip: 2, Denoising strength: 0.35, Unknown: x");
    assert_eq!(s.steps, Some(20));
    assert_eq!(s.sampler, Some("dpmpp_2m".to_string()));
    assert_eq!(s.scheduler, Some("exponential".to_string()));
    assert_eq!(s.cfg, Some("7.5".to_string()));
    assert_eq!(s.seed, Some(-1));
    assert_eq!((s.width, s.height), (Some(832), Some(1216)));
    assert_eq!(s.model, Some("sdxl.safetensors".to_string()));
    assert_eq!(s.hires_resize, Some((1664, 2432)));
    assert_eq!(s.clip_skip, Some(2));
    assert_eq!(s.denoise, Some("0.35".to_string()));
    assert_eq!(s.hires_upscale, None);
}

#[test]
fn schedule_type_before_sampler_is_kept() {
    let s = read_settings("Schedule type: Karras, Sampler: Euler a");
    assert_eq!(s.sampler, Some("euler_ancestral".to_string()));
    assert_eq!(s.scheduler, Some("karras".to_string()));
}

#[test]
fn text_without_settings_has_none() {
    let a = parse_a1111("just a prompt <lora:x:0.5>");
    assert_eq!(a.positive, "just a prompt");
    assert_eq!(a.loras.len(), 1);
    assert_eq!(a.settings.steps, None);
}

/// The graph as the app reads a written workflow back: the JSON object lists
/// the nodes by id.
fn read_back(g: &[WfNode]) -> ApiGraph {
    let mut nodes: Vec<ApiNode> = g
        .iter()
        .map(|n| ApiNode {
            id: n.id.clone(),
            class_type: Some(n.class_type.clone()),
            inputs: Some({
                let mut ins: Vec<(String, ApiInput)> = n
                    .inputs
                    .iter()
                    .map(|(k, v)| {
                        let x = match v {
                            WfValue::Text(t) => ApiInput::Text(t.clone()),
                            WfValue::Int(i) => ApiInput::Number { whole: Some(*i), shown: i.to_string(), weight: i.to_string() },
                            WfValue::Float(t) => ApiInput::Number { whole: None, shown: t.clone(), weight: t.clone() },
                            WfValue::Link(id, _) => ApiInput::Link(id.clone()),
                        };
                        (k.clone(), x)
                    })
                    .collect();
                ins.sort_by(|a, b| a.0.cmp(&b.0));
                ins
            }),
        })
        .collect();
    nodes.sort_by(|a, b| a.id.cmp(&b.id));
    ApiGraph { nodes }
}

#[test]
fn lora_roundtrips_through_both_directions() {
    let params = "a hero <lora:epicStyle:0.7>\nNegative prompt: bad\n\
                  Steps: 20, Sampler: Euler, CFG scale: 7, Seed: 1, Size: 512x512, Model: base";
    let wf = graph(params);
    let back = format_a1111(&recipe_from_api(&read_back(&wf)));
    assert!(back.contains("<lora:epicStyle:0.7>"), "got: {back}");
    assert!(!back.starts_with("<lora"));
}

#[test]
fn model_named_only_by_hash_becomes_a_sentinel() {
    let g = graph("a cat\nSteps: 20, Sampler: Euler, Model hash: 1a2b3c4d5e");
    assert_eq!(text(input(find(&g, "4"), "ckpt_name")), "hash:1a2b3c4d5e");
    let g = graph("a cat\nSteps: 20, Model hash: 1a2b3c4d5e, Model: base");
    assert_eq!(text(input(find(&g, "4"), "ckpt_name")), "base.safetensors");
}
