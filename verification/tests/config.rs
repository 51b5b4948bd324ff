use synthetrix::config::{default_comfy_url, default_eleven_voice, default_projects, effective_token, find_project, seed_projects, subdir_for, Project};

fn proj(name: &str, lore: &str, vault: &str) -> Project {
    Project {
        name: name.into(),
        lore_root: lore.into(),
        engine_root: String::new(),
        asset_vault: vault.into(),
    }
}

fn is_join(r: &str, base: &str, part: &str) -> bool {
    r == format!("{base}/{part}") || r == format!("{base}\\{part}")
}

#[test]
fn project_paths() {
    let p = proj("X", "I:/moar", "");
    assert!(is_join(&p.synthetrix_dir(), "I:/moar", ".synthetrix"));
    assert!(p.project_db_path().ends_with("project.sqlite"));
    assert!(p.project_db_path().starts_with("I:/moar"));
    assert!(p.asset_vault_path().ends_with("assets"));
    let q = proj("Y", "I:/y", "  D:/vault  ");
    assert_eq!(q.asset_vault_path(), "  D:/vault  ");
    let blank = proj("Z", "", " ");
    assert!(is_join(&blank.asset_vault_path(), ".synthetrix", "assets"));
}

#[test]
fn blank_vault_lives_under_the_lore_root() {
    let p = proj("X", "I:/moar", "   ");
    let dir = p.synthetrix_dir();
    assert!(is_join(&dir, "I:/moar", ".synthetrix"));
    assert!(is_join(&p.asset_vault_path(), &dir, "assets"));
    assert!(is_join(&p.project_db_path(), &dir, "project.sqlite"));
    let slash = proj("S", "I:/moar/", "");
    assert_eq!(slash.synthetrix_dir(), "I:/moar/.synthetrix");
}

#[test]
fn defaults() {
    let d = default_projects();
    assert_eq!(d.len(), 2);
    assert_eq!(d[0].name, "MOAR");
    assert_eq!(d[0].engine_root, "F:/moarvibe");
    assert_eq!(d[1].lore_root, "I:/discarded");
    assert_eq!(default_comfy_url(), "http://127.0.0.1:8188");
    assert_eq!(default_eleven_voice(), "21m00Tcm4TlvDq8ikWAM");
}

#[test]
fn subdirs() {
    assert_eq!(subdir_for("Checkpoint"), "checkpoints");
    assert_eq!(subdir_for("LORA"), "loras");
    assert_eq!(subdir_for("LoCon"), "loras");
    assert_eq!(subdir_for("TextualInversion"), "embeddings");
    assert_eq!(subdir_for("Upscaler"), "upscale_models");
    assert_eq!(subdir_for("lora"), "misc");
}

#[test]
fn tokens_and_projects() {
    assert_eq!(effective_token("  abc ", Some("env".into())), Some("abc".to_string()));
    assert_eq!(effective_token("  ", Some("env".into())), Some("env".to_string()));
    assert_eq!(effective_token("", Some(String::new())), None);
    assert_eq!(effective_token("", None), None);

    let ps = vec![proj("A", "a", ""), proj("B", "b", ""), proj("B", "c", "")];
    assert_eq!(find_project(&ps, "B"), Some(1));
    assert_eq!(find_project(&ps, "C"), None);

    let mut empty: Vec<Project> = Vec::new();
    let mut active = None;
    seed_projects(&mut empty, &mut active);
    assert_eq!(empty.len(), 2);
    assert_eq!(active.as_deref(), Some("MOAR"));
    let mut some = vec![proj("Q", "q", "")];
    let mut act = Some("other".to_string());
    seed_projects(&mut some, &mut act);
    assert_eq!(some.len(), 1);
    assert_eq!(act.as_deref(), Some("other"));
}
