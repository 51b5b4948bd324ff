use synthetrix::convert::a1111_sections;
use synthetrix::convert::extract_lora_tags;
use synthetrix::convert::format_a1111;
use synthetrix::convert::HiresText;
use synthetrix::convert::LoraText;
use synthetrix::convert::RecipeText;
use synthetrix::convert::normalize_sampler;
use synthetrix::convert::sampler_from_lower;
use synthetrix::convert::schedule_from_lower;
use synthetrix::convert::setting_kv;
use synthetrix::convert::size_parts;
use synthetrix::convert::normalize_schedule;
use synthetrix::convert::split_settings;
use synthetrix::convert::tidy;
use synthetrix::convert::with_ext;

#[test]
fn bare_model_name_gets_safetensors() {
    assert_eq!(with_ext("dreamshaper"), "dreamshaper.safetensors");
    assert_eq!(with_ext("model.v2"), "model.v2.safetensors");
}

#[test]
fn model_name_with_extension_is_kept() {
    assert_eq!(with_ext("dreamshaper.safetensors"), "dreamshaper.safetensors");
    assert_eq!(with_ext("Flux.GGUF"), "Flux.GGUF");
    assert_eq!(with_ext("old.ckpt"), "old.ckpt");
    assert_eq!(with_ext("x.pth"), "x.pth");
}

#[test]
fn tidy_collapses_spaces_and_commas() {
    assert_eq!(tidy("1girl,  , masterpiece"), "1girl, masterpiece");
    assert_eq!(tidy("a   b\n  c  ,, d "), "a b\nc, d");
    assert_eq!(tidy(", leading and trailing ,"), "leading and trailing");
    assert_eq!(tidy(""), "");
}

#[test]
fn tidy_is_idempotent_on_examples() {
    for s in ["a ,, b", "x  y\n\n z", ",,a,,", "plain"] {
        let once = tidy(s);
        assert_eq!(tidy(&once), once);
    }
}

#[test]
fn settings_split_respects_quotes() {
    let f = split_settings("Steps: 28, Lora hashes: \"a: 1, b: 2\", Seed: 42");
    assert_eq!(f, vec!["Steps: 28", " Lora hashes: \"a: 1, b: 2\"", " Seed: 42"]);
}

#[test]
fn settings_split_drops_blank_tail() {
    assert_eq!(split_settings("Steps: 1, "), vec!["Steps: 1"]);
    assert_eq!(split_settings("a,,b"), vec!["a", "", "b"]);
    assert!(split_settings("").is_empty());
}

#[test]
fn schedule_labels_map_to_comfy_names() {
    assert_eq!(normalize_schedule("Karras"), "karras");
    assert_eq!(normalize_schedule("Exponential"), "exponential");
    assert_eq!(normalize_schedule("SGM Uniform"), "sgm_uniform");
    assert_eq!(normalize_schedule("Simple"), "simple");
    assert_eq!(normalize_schedule("Beta"), "beta");
    assert_eq!(normalize_schedule("DDIM"), "ddim_uniform");
    assert_eq!(normalize_schedule("Automatic"), "normal");
}

#[test]
fn sampler_labels_map_to_comfy_pairs() {
    assert_eq!(
        normalize_sampler("DPM++ 2M Karras"),
        ("dpmpp_2m".to_string(), "karras".to_string())
    );
    assert_eq!(
        normalize_sampler("DPM++ 2M SDE Exponential"),
        ("dpmpp_2m_sde".to_string(), "exponential".to_string())
    );
    assert_eq!(
        normalize_sampler("DPM++ 3M SDE"),
        ("dpmpp_3m_sde".to_string(), "normal".to_string())
    );
    assert_eq!(normalize_sampler("Euler a"), ("euler_ancestral".to_string(), "normal".to_string()));
    assert_eq!(normalize_sampler("Euler"), ("euler".to_string(), "normal".to_string()));
    assert_eq!(normalize_sampler("DPM2"), ("dpm_2".to_string(), "normal".to_string()));
    assert_eq!(normalize_sampler("UniPC"), ("uni_pc".to_string(), "normal".to_string()));
    assert_eq!(normalize_sampler("Heun"), ("heun".to_string(), "normal".to_string()));
    assert_eq!(normalize_sampler("LMS"), ("lms".to_string(), "normal".to_string()));
    assert_eq!(normalize_sampler("LCM"), ("lcm".to_string(), "normal".to_string()));
    assert_eq!(normalize_sampler("DDIM"), ("ddim".to_string(), "normal".to_string()));
    assert_eq!(normalize_sampler("DPM++ 2S a"), ("dpmpp_2s_ancestral".to_string(), "normal".to_string()));
    assert_eq!(normalize_sampler("DPM++ SDE"), ("dpmpp_sde".to_string(), "normal".to_string()));
    assert_eq!(normalize_sampler("something new"), ("euler".to_string(), "normal".to_string()));
}

#[test]
fn lora_tags_leave_the_prompt() {
    let (text, tags) =
        extract_lora_tags("masterpiece, <lora:animeStyle:0.8>, 1girl <lora:detailHands:0.5:0.3>");
    assert_eq!(text, "masterpiece, 1girl");
    assert_eq!(tags.len(), 2);
    assert_eq!(tags[0].name, "animeStyle");
    assert_eq!(tags[0].model_w.as_deref(), Some("0.8"));
    assert_eq!(tags[0].clip_w, None);
    assert_eq!(tags[1].name, "detailHands");
    assert_eq!(tags[1].model_w.as_deref(), Some("0.5"));
    assert_eq!(tags[1].clip_w.as_deref(), Some("0.3"));
}

#[test]
fn other_angle_brackets_stay() {
    let (text, tags) = extract_lora_tags("a <b> c <LyCo: x > d");
    assert_eq!(text, "a <b> c d");
    assert_eq!(tags.len(), 1);
    assert_eq!(tags[0].name, "x");
    assert_eq!(tags[0].model_w, None);
}

#[test]
fn nameless_and_unclosed_tags() {
    let (text, tags) = extract_lora_tags("x <lora:> y");
    assert_eq!(text, "x y");
    assert!(tags.is_empty());
    let (text, tags) = extract_lora_tags("open <lora:a:1");
    assert_eq!(text, "open <lora:a:1");
    assert!(tags.is_empty());
    let (text, tags) = extract_lora_tags("<lora:epicStyle:0.7>");
    assert_eq!(text, "");
    assert_eq!(tags[0].name, "epicStyle");
    assert_eq!(tags[0].model_w.as_deref(), Some("0.7"));
}

#[test]
fn parameters_split_into_sections() {
    let (pos, neg, settings) =
        a1111_sections("a cat\nNegative prompt: ugly\nSteps: 24, Seed: 111, Size: 512x768");
    assert_eq!(pos, "a cat");
    assert_eq!(neg, "ugly");
    assert_eq!(settings.as_deref(), Some("Steps: 24, Seed: 111, Size: 512x768"));
    let (pos, neg, settings) = a1111_sections("just a prompt\n");
    assert_eq!(pos, "just a prompt");
    assert_eq!(neg, "");
    assert_eq!(settings, None);
}

#[test]
fn the_last_steps_line_is_the_settings_line() {
    let text = "Steps: in the prompt\nline two\r\nNegative prompt:  bad  \nSteps: 3";
    let (pos, neg, settings) = a1111_sections(text);
    assert_eq!(pos, "Steps: in the prompt\nline two");
    assert_eq!(neg, "bad");
    assert_eq!(settings.as_deref(), Some("Steps: 3"));
}

#[test]
fn settings_fields_split_at_first_colon() {
    assert_eq!(setting_kv(" Lora hashes: \"a: 1, b: 2\""), ("Lora hashes".to_string(), "a: 1, b: 2".to_string()));
    assert_eq!(setting_kv("Model"), ("Model".to_string(), String::new()));
    assert_eq!(setting_kv(" Size: 512x768"), ("Size".to_string(), "512x768".to_string()));
    assert_eq!(setting_kv("Sampler: DPM++ 2M"), ("Sampler".to_string(), "DPM++ 2M".to_string()));
}

#[test]
fn sizes_split_at_x() {
    assert_eq!(size_parts("832x1216"), ("832".to_string(), Some("1216".to_string())));
    assert_eq!(size_parts("1024"), ("1024".to_string(), None));
    assert_eq!(size_parts("1 x 2 x 3"), ("1".to_string(), Some("2".to_string())));
}

#[test]
fn lowercased_labels_map_directly() {
    assert_eq!(schedule_from_lower("karras"), "karras");
    assert_eq!(schedule_from_lower("Karras"), "normal");
    assert_eq!(sampler_from_lower("dpm++ 2m karras"), ("dpmpp_2m".to_string(), "karras".to_string()));
    assert_eq!(sampler_from_lower("DPM++ 2M Karras"), ("euler".to_string(), "normal".to_string()));
}

fn fox() -> RecipeText {
    RecipeText {
        positive: " a red fox ".to_string(),
        negative: "blurry".to_string(),
        steps: Some(28),
        cfg: Some("6.5".to_string()),
        sampler: Some("dpmpp_2m".to_string()),
        scheduler: Some("karras".to_string()),
        seed: Some(42),
        width: Some(832),
        height: Some(1216),
        model: Some("dreamshaper.safetensors".to_string()),
        ..RecipeText::default()
    }
}

#[test]
fn recipe_writes_as_a1111_text() {
    assert_eq!(
        format_a1111(&fox()),
        "a red fox\nNegative prompt: blurry\nSteps: 28, Sampler: dpmpp_2m karras, CFG scale: 6.5, Seed: 42, Size: 832x1216, Model: dreamshaper.safetensors\n\n[synthesized from the ComfyUI workflow by Synthetrix]"
    );
}

#[test]
fn normal_scheduler_and_small_clip_skip_are_left_out() {
    let r = RecipeText {
        scheduler: Some("normal".to_string()),
        clip_skip: Some(1),
        seed: Some(-5),
        width: Some(512),
        height: None,
        vae: Some("sdxl_vae.safetensors".to_string()),
        denoise: Some("0.4".to_string()),
        ..fox()
    };
    let t = format_a1111(&r);
    assert!(t.contains("Sampler: dpmpp_2m, CFG scale: 6.5, Seed: -5, Model: dreamshaper.safetensors, VAE: sdxl_vae.safetensors, Denoising strength: 0.4\n"));
    let r2 = RecipeText { clip_skip: Some(2), ..fox() };
    assert!(format_a1111(&r2).contains(", Clip skip: 2\n"));
}

#[test]
fn hires_pass_fields() {
    let r = RecipeText {
        denoise: Some("0.9".to_string()),
        hires: Some(HiresText {
            upscale: "2".to_string(),
            steps: Some(10),
            denoise: "0.4".to_string(),
            upscaler: Some("Latent".to_string()),
        }),
        ..fox()
    };
    let t = format_a1111(&r);
    assert!(t.contains(", Denoising strength: 0.4, Hires upscale: 2, Hires steps: 10, Hires upscaler: Latent\n"));
    assert!(!t.contains("0.9"));
}

#[test]
fn lora_tags_written_then_read_back() {
    let r = RecipeText {
        loras: vec![
            LoraText { name: "epicStyle.safetensors".to_string(), model_w: "0.7".to_string(), clip_w: None },
            LoraText { name: "detailHands".to_string(), model_w: "1".to_string(), clip_w: Some("0.5".to_string()) },
        ],
        ..fox()
    };
    let t = format_a1111(&r);
    assert!(t.starts_with("a red fox <lora:epicStyle:0.7> <lora:detailHands:1:0.5>\n"));
    let (pos, _, _) = a1111_sections(&t);
    let (clean, tags) = extract_lora_tags(&pos);
    assert_eq!(clean, "a red fox");
    assert_eq!(tags.len(), 2);
    assert_eq!(tags[0].name, "epicStyle");
    assert_eq!(tags[0].model_w.as_deref(), Some("0.7"));
    assert_eq!(tags[0].clip_w, None);
    assert_eq!(tags[1].name, "detailHands");
    assert_eq!(tags[1].clip_w.as_deref(), Some("0.5"));
}
