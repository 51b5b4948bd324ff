use synthetrix::comfy::{best_match, enc, installed_choice, is_vault_model_ext, loader_info, comfy_open_url, tokens, view_path};

#[test]
fn matches_same_model_under_different_filename() {
    let wanted = "2758_hinaAsianFlux1-krea-dev_v51-fp8_noCLIP.safetensors";
    let installed = vec![
        "flux_dev.safetensors".to_string(),
        "2758FluxAsianUtopian_v51KreaFp8Noclip.safetensors".to_string(),
        "sd_xl_base_1.0.safetensors".to_string(),
    ];
    assert_eq!(
        best_match(wanted, &installed).as_deref(),
        Some("2758FluxAsianUtopian_v51KreaFp8Noclip.safetensors")
    );
}

#[test]
fn no_match_when_tokens_dont_overlap() {
    let installed = vec![
        "sd_xl_base_1.0.safetensors".to_string(),
        "deliberate_v2.safetensors".to_string(),
    ];
    assert!(best_match("2758_hinaAsianFlux1-krea-dev.safetensors", &installed).is_none());
}

#[test]
fn tokens_split_camelcase_and_digits() {
    let t = tokens("2758FluxAsianUtopian_v51KreaFp8Noclip.safetensors");
    for w in ["2758", "flux", "asian", "utopian", "krea", "noclip"] {
        assert!(t.contains(w), "missing token {w}");
    }
}

#[test]
fn tokens_drop_short_pieces_and_extension() {
    let t = tokens("my_v51.ckpt");
    // "my", "v", "51" are shorter than 3; "ckpt" is the extension
    assert!(t.is_empty());
    let u = tokens("AbcDef.Ghi.safetensors");
    assert!(u.contains("abc") && u.contains("def") && u.contains("ghi"));
    assert_eq!(u.len(), 3);
    let dup = tokens("flux_FLUX_Flux");
    assert_eq!(dup.len(), 1);
}

#[test]
fn best_match_prefers_higher_score_then_first() {
    let wanted = "alphaBetaGamma_delta";
    let cands = vec![
        "alpha_beta_gamma.safetensors".to_string(),
        "gamma_delta_alpha_beta.safetensors".to_string(),
        "delta_gamma_beta_alpha.safetensors".to_string(),
    ];
    assert_eq!(
        best_match(wanted, &cands).as_deref(),
        Some("gamma_delta_alpha_beta.safetensors")
    );
    assert!(best_match("ab", &cands).is_none());
}

#[test]
fn enc_percent_encodes_reserved_bytes() {
    assert_eq!(enc("a-b_c.d~E9"), "a-b_c.d~E9");
    assert_eq!(enc("/api/view?x=1&y"), "%2Fapi%2Fview%3Fx%3D1%26y");
    assert_eq!(enc("é "), "%C3%A9%20");
}

#[test]
fn loader_info_classes() {
    let (node, field, dirs) = loader_info("CheckpointLoaderSimple").unwrap();
    assert_eq!((node, field), ("CheckpointLoaderSimple", "ckpt_name"));
    assert_eq!(dirs, vec!["checkpoints"]);
    let (node, field, dirs) = loader_info("UNETLoader").unwrap();
    assert_eq!((node, field), ("UNETLoader", "unet_name"));
    assert_eq!(dirs, vec!["diffusion_models", "unet"]);
    assert!(loader_info("KSampler").is_none());
}

#[test]
fn installed_models_decide_first() {
    let installed = vec![
        "flux_dev.safetensors".to_string(),
        "2758FluxAsianUtopian_v51KreaFp8Noclip.safetensors".to_string(),
    ];
    assert_eq!(installed_choice("flux_dev.safetensors", &installed), Some(None));
    assert_eq!(
        installed_choice("2758_hinaAsianFlux1-krea-dev_v51-fp8_noCLIP.safetensors", &installed),
        Some(Some("2758FluxAsianUtopian_v51KreaFp8Noclip.safetensors".to_string()))
    );
    assert_eq!(installed_choice("sd_xl_base_1.0.safetensors", &installed), None);
}

#[test]
fn vault_extensions() {
    for e in ["safetensors", "ckpt", "gguf", "sft", "pt", "pth"] {
        assert!(is_vault_model_ext(e));
    }
    assert!(!is_vault_model_ext("bin"));
    assert!(!is_vault_model_ext("png"));
}

#[test]
fn comfy_urls_encode_their_parts() {
    let view = view_path("my img.png", "input", "synthetrix");
    assert_eq!(view, "/api/view?filename=my%20img.png&type=input&subfolder=synthetrix");
    assert_eq!(
        comfy_open_url("http://127.0.0.1:8188", &view),
        "http://127.0.0.1:8188/?synflow=%2Fapi%2Fview%3Ffilename%3Dmy%2520img.png%26type%3Dinput%26subfolder%3Dsynthetrix"
    );
}

#[test]
fn documented_pair_shares_noclip() {
    let a = tokens("2758FluxAsianUtopian_v51KreaFp8Noclip.safetensors");
    let b = tokens("2758_hinaAsianFlux1-krea-dev_v51-fp8_noCLIP.safetensors");
    let mut shared: Vec<&str> = ["2758", "flux", "asian", "utopian", "krea", "noclip", "hina", "dev"]
        .into_iter()
        .filter(|w| a.contains(w) && b.contains(w))
        .collect();
    shared.sort();
    assert_eq!(shared, vec!["2758", "asian", "flux", "krea", "noclip"]);
    assert!(b.contains("noclip"));
    assert!(!b.contains("clip"));
    assert_eq!(a.shared_count(&b), 5);
}

#[test]
fn base_name_is_matched_before_tokens() {
    let installed = vec!["other.gguf".to_string(), "FuxCapacity4.0_Q8_0.gguf".to_string()];
    assert_eq!(
        installed_choice("GGUFFlux\\Z\\WIP\\FuxCapacity4.0_Q8_0.gguf", &installed),
        Some(Some("FuxCapacity4.0_Q8_0.gguf".to_string()))
    );
    assert_eq!(installed_choice("a/b/other.gguf", &installed), Some(Some("other.gguf".to_string())));
    assert_eq!(installed_choice("other.gguf", &installed), Some(None));
}

fn percent_decode_for_test(t: &str) -> Vec<u8> {
    let b = t.as_bytes();
    let mut out = Vec::new();
    let mut i = 0;
    while i < b.len() {
        if b[i] == b'%' {
            let h = u8::from_str_radix(std::str::from_utf8(&b[i + 1..i + 3]).unwrap(), 16).unwrap();
            out.push(h);
            i += 3;
        } else {
            out.push(b[i]);
            i += 1;
        }
    }
    out
}

#[test]
fn encoded_values_decode_to_their_bytes() {
    for s in ["a b/c&d", "100% ünïcode ✓", "", "~safe-_.", "%%"] {
        let e = enc(s);
        assert!(e.chars().all(|c| c.is_ascii_alphanumeric() || "-_.~%".contains(c)));
        assert_eq!(percent_decode_for_test(&e), s.as_bytes());
    }
}
