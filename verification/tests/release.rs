use synthetrix::project::ProjectStats;
use synthetrix::release::export_file_name;
use synthetrix::release::freeze_selection;
use synthetrix::release::release_kind;
use synthetrix::release::safe_release_name;
use synthetrix::release::summarize;

#[test]
fn kinds_default_to_freeze() {
    assert_eq!(release_kind("shipcut"), "shipcut");
    assert_eq!(release_kind("freeze"), "freeze");
    assert_eq!(release_kind("Shipcut"), "freeze");
    assert_eq!(release_kind(""), "freeze");
}

#[test]
fn release_names_become_file_safe() {
    assert_eq!(safe_release_name("v1.0 final!"), "v1.0_final_");
    assert_eq!(safe_release_name("alpha-2"), "alpha-2");
    assert_eq!(safe_release_name("é/x"), "__x");
    assert_eq!(export_file_name("freeze", "v1.0 final!"), "freeze-v1.0_final_.json");
    assert_eq!(export_file_name("shipcut", ""), "shipcut-.json");
}

#[test]
fn freeze_prefers_promoted_models() {
    let s = |v: &[&str]| v.iter().map(|x| x.to_string()).collect::<Vec<_>>();
    assert_eq!(freeze_selection(&s(&["indexed", "promoted", "downloaded", "promoted"])), vec![1, 3]);
    assert_eq!(freeze_selection(&s(&["indexed", "downloaded"])), vec![0, 1]);
    assert!(freeze_selection(&s(&[])).is_empty());
}

#[test]
fn summary_copies_counts() {
    let st = ProjectStats { jobs: 9, assets: 12, prompts: 4, lore: 30 };
    let r = summarize(&st, 5);
    assert_eq!((r.assets, r.frozen_models, r.prompts, r.lore), (12, 5, 4, 30));
}
