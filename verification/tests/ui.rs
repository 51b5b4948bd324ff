use synthetrix::ui::trigger_info;
use synthetrix::ui::asset_kind_filter;
use synthetrix::ui::badge_label;
use synthetrix::ui::lint_lowered;
use synthetrix::ui::non_empty;
use synthetrix::ui::prompt_lint;
use synthetrix::ui::Tab;

#[test]
fn blank_inputs_are_none() {
    assert_eq!(non_empty("  x  "), Some("x".to_string()));
    assert_eq!(non_empty("   "), None);
    assert_eq!(non_empty(""), None);
}

#[test]
fn asset_kind_entries() {
    assert_eq!(asset_kind_filter(0), None);
    assert_eq!(asset_kind_filter(1), Some("image".to_string()));
    assert_eq!(asset_kind_filter(4), Some("mesh".to_string()));
    assert_eq!(asset_kind_filter(5), Some("other".to_string()));
}

#[test]
fn badges() {
    assert_eq!(badge_label("promoted", true), "🔒 ACTIVE");
    assert_eq!(badge_label("promoted", false), "● ACTIVE");
    assert_eq!(badge_label("downloaded", true), "▼ DOWNLOADED");
    assert_eq!(badge_label("indexed", false), "○ listed");
}

#[test]
fn lint_flags_brand_terms_in_list_order() {
    assert_eq!(
        prompt_lint("A Space Marine in HALO armor"),
        Some(
            "IP-bleed risk: space marine, halo — anchor positively (describe the look) instead of naming the brand"
                .to_string()
        )
    );
}

#[test]
fn lint_flags_short_prompts() {
    assert_eq!(prompt_lint("cat"), Some("very short — add subject + style anchors".to_string()));
    assert_eq!(prompt_lint("  cat dog  "), Some("very short — add subject + style anchors".to_string()));
    assert_eq!(prompt_lint("a detailed portrait of a knight"), None);
    // eight bytes (é takes two) is long enough
    assert_eq!(prompt_lint("ééééx"), None);
}

#[test]
fn lint_reads_the_given_lowercase() {
    assert_eq!(lint_lowered("a long enough prompt", "a long enough prompt"), None);
    assert_eq!(
        lint_lowered("A JEDI knight", "a jedi knight"),
        Some("IP-bleed risk: jedi — anchor positively (describe the look) instead of naming the brand".to_string())
    );
}

#[test]
fn tabs_compare() {
    assert!(Tab::Forge == Tab::Forge);
    assert!(Tab::Forge != Tab::Lore);
}

#[test]
fn trigger_words_are_listed_plainly() {
    assert_eq!(trigger_info("[\"noir\",\"rain\"]"), "noir, rain");
    assert_eq!(trigger_info("[[x]]"), "x");
    assert_eq!(trigger_info("[]"), "(this model has no trigger words)");
    assert_eq!(trigger_info(""), "(this model has no trigger words)");
    assert_eq!(trigger_info("[\" \"]"), "(this model has no trigger words)");
    assert_eq!(trigger_info("a,b"), "a, b");
}
