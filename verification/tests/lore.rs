use synthetrix::lore::{abs_path, bold_spans, classify_kind, derive_name, extract, kind_from_components, name_from_parts, skip_dir};

#[test]
fn extract_pulls_title_summary_vocab() {
    let md = "# Protagonist\n\n**Status:** In Development\n\nThe protagonist is a \
              corporate combat operative deployed from **The Inexorable** via drop pod.\n\n\
              ## Background\n";
    let (title, summary, vocab) = extract(md, "protagonist");
    assert_eq!(title, "Protagonist");
    assert!(summary.starts_with("The protagonist is a corporate"));
    assert!(vocab.contains("The Inexorable"));
    // the **Status:** line is metadata, not the summary paragraph
    assert!(!summary.contains("In Development"));
}

#[test]
fn classify_and_name() {
    let rel = "characters/corporate/protagonist/profile.md";
    assert_eq!(classify_kind(rel), "characters");
    assert_eq!(derive_name(rel), "protagonist");
    let root = "LORE_PRIMER.md";
    assert_eq!(classify_kind(root), "root");
    assert_eq!(derive_name(root), "LORE_PRIMER");
}

#[test]
fn extract_exact_fields() {
    let md = "intro line before title\n# Title Here\n# Second\n**Alpha:** x **ab** **Beta**\n**alpha**\n";
    let (title, summary, vocab) = extract(md, "fb");
    assert_eq!(title, "Title Here");
    assert_eq!(summary, "intro line before title");
    // "ab" is too short, "alpha" repeats "Alpha" without case
    assert_eq!(vocab, "Alpha, Beta");
}

#[test]
fn extract_skips_fences_and_falls_back() {
    let md = "```\n# Not a title\n**Hidden**\n```\n- list\n| table |\n> quote\n---\nProse.";
    let (title, summary, vocab) = extract(md, "fallback");
    assert_eq!(title, "fallback");
    assert_eq!(summary, "Prose.");
    assert_eq!(vocab, "");
}

#[test]
fn extract_cuts_long_summary_and_vocab() {
    let long = "x".repeat(300);
    let (_, summary, _) = extract(&long, "n");
    assert_eq!(summary, format!("{}…", "x".repeat(237)));
    let exact = "y".repeat(240);
    let (_, s2, _) = extract(&exact, "n");
    assert_eq!(s2, exact);
    let mut md = String::new();
    for i in 0..20 {
        md.push_str(&format!("**term{i:02}** "));
    }
    let (_, _, vocab) = extract(&md, "n");
    assert_eq!(vocab.split(", ").count(), 14);
    assert!(vocab.starts_with("term00, term01"));
    assert!(vocab.ends_with("term13"));
}

#[test]
fn bold_spans_inner_texts() {
    assert_eq!(bold_spans("a **b** c **d e** f"), vec!["b".to_string(), "d e".to_string()]);
    assert_eq!(bold_spans("**x*y** **z**"), vec!["z".to_string()]);
    assert_eq!(bold_spans("**open only"), Vec::<String>::new());
    assert_eq!(bold_spans("****"), Vec::<String>::new());
}

#[test]
fn skip_dirs() {
    assert!(skip_dir(".git"));
    assert!(skip_dir("node_modules"));
    assert!(skip_dir("TEST"));
    assert!(!skip_dir("test"));
    assert!(!skip_dir("characters"));
}

#[test]
fn kind_and_name_rules() {
    assert_eq!(kind_from_components(Some("Characters"), true), "characters");
    assert_eq!(kind_from_components(Some("README.md"), false), "root");
    assert_eq!(kind_from_components(None, false), "root");
    assert_eq!(name_from_parts("README", Some("hero")), "hero");
    assert_eq!(name_from_parts("Profile", Some("")), "Profile");
    assert_eq!(name_from_parts("notes", Some("hero")), "notes");
    assert_eq!(name_from_parts("profile", None), "profile");
}

#[test]
fn abs_path_joins_under_root() {
    let p = abs_path("/lore", "characters/x.md");
    assert!(p == "/lore/characters/x.md" || p == "/lore\\characters/x.md");
    let q = abs_path("I:/moar", "characters/x.md");
    assert!(q == "I:/moar/characters/x.md" || q == "I:/moar\\characters/x.md");
}

#[test]
fn abs_path_strips_back_to_the_relative_path() {
    let p = abs_path("I:/moar", "characters/x.md");
    let rest = p.strip_prefix("I:/moar").unwrap();
    assert!(rest.starts_with('/') || rest.starts_with('\\'));
    assert_eq!(&rest[1..], "characters/x.md");
    assert_eq!(abs_path("I:/moar/", "x.md"), "I:/moar/x.md");
    assert_eq!(abs_path("", "x.md"), "x.md");
}
