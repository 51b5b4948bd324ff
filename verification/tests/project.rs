use synthetrix::project::{heading_tags, media_type_for, media_type_for_ext, parse_prompts_md};

#[test]
fn media_types_by_extension() {
    assert_eq!(media_type_for("a/b/c.PNG"), ("image", "image/png".to_string()));
    assert_eq!(media_type_for("x.jpeg"), ("image", "image/jpeg".to_string()));
    assert_eq!(media_type_for("clip.MOV"), ("video", "video/mov".to_string()));
    assert_eq!(media_type_for("line.mp3"), ("audio", "audio/mpeg".to_string()));
    assert_eq!(media_type_for("line.m4a"), ("audio", "audio/m4a".to_string()));
    assert_eq!(media_type_for("m.glb"), ("mesh", "model/gltf-binary".to_string()));
    assert_eq!(media_type_for("m.stl"), ("mesh", "model/stl".to_string()));
    assert_eq!(media_type_for("notes.json"), ("other", "application/octet-stream".to_string()));
    assert_eq!(media_type_for("noext"), ("other", "application/octet-stream".to_string()));
    assert_eq!(media_type_for(".png"), ("other", "application/octet-stream".to_string()));
    assert_eq!(media_type_for_ext("WebP"), ("image", "image/webp".to_string()));
}

#[test]
fn prompts_md_sections_and_slots() {
    let md = "# Hero prompts\n\
              ## OpenArt Images (Stage 2)\n\
              ### Full Body Photoreal\n\
              **Model:** Flux Dev | backup\n\
              A lone figure in armour.\n\
              Second line.\n\
              ### Empty Slot\n\
              ## ElevenLabs Voice\n\
              ### Battle Cry\n\
              **Note:** ignored\n\
              For the hive!\n\
              ## Tripo 3D\n\
              ### Mesh\n\
              **Model:** v2.5\n";
    let rows = parse_prompts_md("hero", md);
    assert_eq!(rows.len(), 3);
    assert_eq!(rows[0].entity, "hero");
    assert_eq!(rows[0].slot, "Full Body Photoreal");
    assert_eq!(rows[0].backend, "openart");
    assert_eq!(rows[0].stage, "2d");
    assert_eq!(rows[0].model, "Flux Dev");
    assert_eq!(rows[0].body, "A lone figure in armour.\nSecond line.");
    assert_eq!(rows[1].slot, "Battle Cry");
    assert_eq!(rows[1].backend, "elevenlabs");
    assert_eq!(rows[1].stage, "voice");
    assert_eq!(rows[1].body, "For the hive!");
    assert_eq!(rows[2].backend, "tripo");
    assert_eq!(rows[2].stage, "3d");
    assert_eq!(rows[2].model, "v2.5");
    assert_eq!(rows[2].body, "");
    assert!(rows.iter().all(|r| r.id == 0 && r.params.is_empty()));
}

#[test]
fn prompts_md_without_sections() {
    let rows = parse_prompts_md("e", "### Solo\nbody\n## Comfy video\n### Clip\nmoving\n");
    assert_eq!(rows.len(), 2);
    assert_eq!(rows[0].backend, "");
    assert_eq!(rows[0].stage, "");
    assert_eq!(rows[1].backend, "comfy_local");
    assert_eq!(rows[1].stage, "video");
    assert!(parse_prompts_md("e", "").is_empty());
}

#[test]
fn headings_select_backend_and_stage() {
    assert_eq!(heading_tags("comfy — concept"), ("comfy_local".to_string(), "2d".to_string()));
    assert_eq!(heading_tags("voice lines"), ("elevenlabs".to_string(), "voice".to_string()));
    assert_eq!(heading_tags("tripo meshes"), ("tripo".to_string(), "3d".to_string()));
    assert_eq!(heading_tags("openart video"), ("openart".to_string(), "video".to_string()));
    assert_eq!(heading_tags("misc"), (String::new(), "2d".to_string()));
}
