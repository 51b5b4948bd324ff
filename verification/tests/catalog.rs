use synthetrix::catalog::audit_rows;
use synthetrix::catalog::download_accepted;
use synthetrix::catalog::evict_step;
use synthetrix::catalog::heal_plan;
use synthetrix::catalog::EvictAction;
use synthetrix::catalog::FileRecord;
use synthetrix::catalog::collect_orphans;
use synthetrix::catalog::is_model_file_ext;
use synthetrix::catalog::orphans_among;
use synthetrix::catalog::pick_filter;
use synthetrix::catalog::pick_query;
use synthetrix::catalog::sql_escape;
use synthetrix::catalog::AuditRow;
use synthetrix::catalog::PickFilter;

const SELECT: &str = "SELECT f.file_id, m.model_id, m.name, m.type, v.base_model, m.nsfw,
                m.downloads, m.rating, f.size_kb, v.trained_words, f.status, f.locked,
                m.cover_url
         FROM models m
         JOIN versions v ON v.model_id=m.model_id AND v.version_idx=0
         JOIN files f ON f.version_id=v.version_id AND f.is_primary=1
         WHERE 1=1";

#[test]
fn escape_doubles_quotes() {
    assert_eq!(sql_escape("it's"), "it''s");
    assert_eq!(sql_escape("''"), "''''");
    assert_eq!(sql_escape("plain"), "plain");
    assert_eq!(sql_escape(""), "");
}

#[test]
fn escaped_literal_reads_back() {
    // reading the escaped body back as SQL does: '' is one quote
    for s in ["o'brien", "'; DROP TABLE models; --", "", "a''b"] {
        let e = sql_escape(s);
        assert_eq!(e.replace("''", "'"), s);
        assert!(!e.replace("''", "").contains('\''));
    }
}

#[test]
fn empty_filter_lists_everything_by_downloads() {
    let q = pick_query(&PickFilter::default());
    assert_eq!(q, format!("{SELECT} ORDER BY m.downloads DESC"));
}

#[test]
fn filter_fields_become_clauses() {
    let f = PickFilter {
        model_type: Some("LORA".to_string()),
        base: Some("SDXL".to_string()),
        search: Some("o'brien".to_string()),
        status: Some("downloaded".to_string()),
        min_downloads: 100,
        limit: 50,
    };
    let q = pick_query(&f);
    assert_eq!(
        q,
        format!(
            "{SELECT} AND m.type='LORA' AND v.base_model LIKE '%SDXL%' AND m.name LIKE '%o''brien%' AND f.status='downloaded' AND m.downloads >= 100 ORDER BY m.downloads DESC LIMIT 50"
        )
    );
}

#[test]
fn non_positive_numbers_are_left_out() {
    let f = PickFilter { min_downloads: -3, limit: 0, ..PickFilter::default() };
    assert_eq!(pick_query(&f), format!("{SELECT} ORDER BY m.downloads DESC"));
    let g = PickFilter { min_downloads: 1, limit: 1234567, ..PickFilter::default() };
    assert_eq!(
        pick_query(&g),
        format!("{SELECT} AND m.downloads >= 1 ORDER BY m.downloads DESC LIMIT 1234567")
    );
}

fn row(id: i64, status: &str, local: Option<(&str, bool)>, nvme: Option<(&str, bool)>) -> AuditRow {
    AuditRow {
        file_id: id,
        status: status.to_string(),
        local_path: local.map(|(p, _)| p.to_string()),
        local_exists: local.map(|(_, e)| e).unwrap_or(false),
        nvme_path: nvme.map(|(p, _)| p.to_string()),
        nvme_exists: nvme.map(|(_, e)| e).unwrap_or(false),
    }
}

#[test]
fn audit_reports_missing_copies() {
    let rows = vec![
        row(1, "downloaded", Some(("/v/a.safetensors", true)), None),
        row(2, "downloaded", Some(("/v/b.safetensors", false)), None),
        row(3, "promoted", Some(("/v/c.safetensors", true)), Some(("/n/c.safetensors", false))),
        row(4, "promoted", Some(("/v/d.safetensors", true)), None),
        row(5, "promoted", Some(("/v/e.safetensors", true)), Some(("/n/e.safetensors", true))),
        row(6, "indexed", None, None),
    ];
    let rep = audit_rows(&rows);
    assert_eq!(rep.checked, 6);
    assert_eq!(rep.missing_vault, vec![(2, "/v/b.safetensors".to_string())]);
    assert_eq!(
        rep.missing_nvme,
        vec![(3, "/n/c.safetensors".to_string()), (4, String::new())]
    );
    assert!(rep.orphans.is_empty());
}

#[test]
fn orphans_are_unreferenced_model_files() {
    let rows = vec![row(1, "downloaded", Some(("/v/loras/a.safetensors", true)), None)];
    let files = vec![
        ("/v/loras/a.safetensors".to_string(), "safetensors".to_string()),
        ("/v/loras/b.ckpt".to_string(), "ckpt".to_string()),
        ("/v/loras/notes.txt".to_string(), "txt".to_string()),
        ("/v/loras//a.safetensors".to_string(), "safetensors".to_string()),
    ];
    assert_eq!(collect_orphans(&rows, &files), vec!["/v/loras/b.ckpt".to_string()]);
}

#[test]
fn model_file_extensions() {
    for e in ["safetensors", "ckpt", "pt", "bin", "pth"] {
        assert!(is_model_file_ext(e));
    }
    for e in ["gguf", "txt", "", "SAFETENSORS"] {
        assert!(!is_model_file_ext(e));
    }
}

#[test]
fn picker_inputs_become_a_filter() {
    let types = vec!["Checkpoint".to_string(), "LORA".to_string()];
    let f = pick_filter(2, &types, "  SDXL ", "", true, "500", "x");
    assert_eq!(f.model_type.as_deref(), Some("LORA"));
    assert_eq!(f.base.as_deref(), Some("SDXL"));
    assert_eq!(f.search, None);
    assert_eq!(f.status.as_deref(), Some("downloaded"));
    assert_eq!(f.min_downloads, 500);
    assert_eq!(f.limit, 200);
    let g = pick_filter(0, &types, "", " fox ", false, "", "50");
    assert_eq!(g.model_type, None);
    assert_eq!(g.search.as_deref(), Some("fox"));
    assert_eq!(g.status, None);
    assert_eq!(g.min_downloads, 0);
    assert_eq!(g.limit, 50);
    assert_eq!(pick_filter(3, &types, "", "", false, "", "").model_type, None);
}

#[test]
fn marked_files_filter_to_orphans() {
    let files = vec![
        ("/v/a.safetensors".to_string(), "safetensors".to_string(), true),
        ("/v/b.pt".to_string(), "pt".to_string(), false),
        ("/v/c.json".to_string(), "json".to_string(), false),
        ("/v/d.bin".to_string(), "bin".to_string(), false),
    ];
    assert_eq!(orphans_among(&files), vec!["/v/b.pt".to_string(), "/v/d.bin".to_string()]);
}

#[test]
fn download_hash_is_checked_ignoring_case() {
    assert!(download_accepted(None, "abc123"));
    assert!(download_accepted(Some(""), "abc123"));
    assert!(download_accepted(Some("ABC123"), "abc123"));
    assert!(download_accepted(Some("abc123"), "abc123"));
    assert!(!download_accepted(Some("abc124"), "abc123"));
}

#[test]
fn locked_replica_is_not_evicted() {
    match evict_step(true, &Some("/n/a.safetensors".to_string())) {
        EvictAction::Refuse(m) => assert_eq!(m, "replica is locked — unlock before evicting"),
        EvictAction::Evict { .. } => panic!("a locked replica was evicted"),
    }
    match evict_step(false, &Some("/n/a.safetensors".to_string())) {
        EvictAction::Evict { remove_file } => assert_eq!(remove_file, Some("/n/a.safetensors".to_string())),
        EvictAction::Refuse(_) => panic!("an unlocked replica was refused"),
    }
}

fn listed() -> FileRecord {
    FileRecord { status: "indexed".to_string(), local_path: None, nvme_path: None, locked: false, sha256: String::new() }
}

#[test]
fn file_walks_listed_downloaded_active_locked() {
    let f = listed();
    assert_eq!(f.promote_check(false), Err("not in vault — download first".to_string()));
    let d = f.downloaded("/v/a.safetensors", "ff00");
    assert_eq!(d.status, "downloaded");
    assert_eq!(d.local_path, Some("/v/a.safetensors".to_string()));
    assert_eq!(d.sha256, "ff00");
    assert_eq!(d.promote_check(false), Err("vault file missing — run audit".to_string()));
    assert_eq!(d.promote_check(true), Ok(()));
    let p = d.promoted("/n/a.safetensors");
    assert_eq!(p.status, "promoted");
    assert_eq!(p.nvme_path, Some("/n/a.safetensors".to_string()));
    let l = p.with_lock(true);
    assert!(l.locked);
    assert_eq!(l.status, "promoted");
    assert_eq!(l.evicted().err(), Some("replica is locked — unlock before evicting".to_string()));
    let e = l.with_lock(false).evicted().unwrap();
    assert_eq!(e.status, "downloaded");
    assert_eq!(e.nvme_path, None);
    assert_eq!(e.local_path, Some("/v/a.safetensors".to_string()));
    assert_eq!(e.sha256, "ff00");
}

#[test]
fn catalogue_hash_is_kept_over_the_downloads() {
    let mut f = listed();
    f.sha256 = "AA11".to_string();
    assert_eq!(f.downloaded("/v/x", "bb22").sha256, "AA11");
}

#[test]
fn heal_never_deletes_orphans() {
    let rows = vec![
        row(2, "downloaded", Some(("/v/b.safetensors", false)), None),
        row(3, "promoted", Some(("/v/c.safetensors", true)), Some(("/n/c.safetensors", false))),
    ];
    let mut rep = audit_rows(&rows);
    rep.orphans = vec!["/v/stray.safetensors".to_string()];
    let plan = heal_plan(&rep);
    assert_eq!(plan.reset_to_indexed, vec![2]);
    assert_eq!(plan.demote_to_downloaded, vec![3]);
    assert!(plan.deletes.is_empty());
}

#[test]
fn drive_path_orphans_are_found() {
    let rows = vec![row(1, "downloaded", Some(("H:/vault/checkpoints/a.safetensors", true)), None)];
    let files = vec![
        ("H:/vault/checkpoints/a.safetensors".to_string(), "safetensors".to_string()),
        ("H:/vault/loras/b.safetensors".to_string(), "safetensors".to_string()),
        ("H:/vault/loras/notes.txt".to_string(), "txt".to_string()),
    ];
    assert_eq!(collect_orphans(&rows, &files), vec!["H:/vault/loras/b.safetensors".to_string()]);
}
