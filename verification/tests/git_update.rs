use synthetrix::version::is_newer;
use synthetrix::version::parse_i64;
use synthetrix::version::recheck_due;
use synthetrix::version::release_update;

#[test]
fn three_part_basic() {
    assert!(is_newer("0.1.1", "0.1.0"));
    assert!(is_newer("0.2.0", "0.1.99"));
    assert!(!is_newer("0.1.0", "0.1.0"));
    assert!(!is_newer("0.1.0", "0.1.1"));
}

#[test]
fn four_part_subtag() {
    assert!(is_newer("0.1.0.1", "0.1.0"));
    assert!(is_newer("0.1.0.10", "0.1.0.9"));
    assert!(!is_newer("0.1.0.0", "0.1.0"));
}

#[test]
fn malformed_and_empty_default_to_zero() {
    assert!(!is_newer("garbage", "0.0.1"));
    assert!(is_newer("0.0.1", "garbage"));
    assert!(!is_newer("", "0.0.1"));
    assert!(is_newer("0.0.1", ""));
}

#[test]
fn parts_parse_like_u32() {
    // an explicit plus sign is accepted, overflow and signs or spaces are not
    assert!(is_newer("+2", "1"));
    assert!(!is_newer("4294967296", "0"));
    assert!(is_newer("4294967295", "4294967294"));
    assert!(!is_newer("-1", "0"));
    assert!(!is_newer(" 1", "0"));
    // parts after the fourth are ignored
    assert!(!is_newer("1.2.3.4.9", "1.2.3.4"));
    // a missing middle part counts as zero
    assert!(is_newer("1..1", "1.0.0"));
}

#[test]
fn newer_is_asymmetric() {
    let vs = ["0.1.0", "0.1.0.3", "0.2", "1", "x.1", "0.10.0"];
    for a in vs {
        assert!(!is_newer(a, a));
        for b in vs {
            assert!(!(is_newer(a, b) && is_newer(b, a)));
        }
    }
}

#[test]
fn recheck_only_when_idle_and_due() {
    assert!(recheck_due(true, false, None, false));
    assert!(!recheck_due(true, false, Some(299), false));
    assert!(recheck_due(true, false, Some(300), false));
    assert!(recheck_due(true, false, Some(10), true));
    assert!(!recheck_due(false, false, None, true));
    assert!(!recheck_due(true, true, None, true));
}

#[test]
fn newer_release_with_installer_is_offered() {
    let assets = vec![
        ("notes.txt".to_string(), Some("https://x/notes".to_string())),
        ("synthetrix-0.2.0.msi".to_string(), Some("https://x/msi".to_string())),
        ("other.msi".to_string(), Some("https://x/other".to_string())),
    ];
    let u = release_update("v0.2.0", "0.1.0", &assets).expect("update");
    assert_eq!(u.version, "0.2.0");
    assert_eq!(u.url, "https://x/msi");
    assert!(release_update("v0.1.0", "0.1.0", &assets).is_none());
    assert!(release_update("vv0.3", "0.2.9.9", &assets).is_some());
}

#[test]
fn release_without_usable_installer_is_ignored() {
    let none = vec![("app.zip".to_string(), Some("https://x/zip".to_string()))];
    assert!(release_update("v9.0.0", "0.1.0", &none).is_none());
    let no_url = vec![
        ("app.msi".to_string(), None),
        ("second.msi".to_string(), Some("https://x/second".to_string())),
    ];
    assert!(release_update("v9.0.0", "0.1.0", &no_url).is_none());
}

#[test]
fn integers_parse_like_std() {
    assert_eq!(parse_i64("42"), Some(42));
    assert_eq!(parse_i64("-7"), Some(-7));
    assert_eq!(parse_i64("+3"), Some(3));
    assert_eq!(parse_i64(""), None);
    assert_eq!(parse_i64("-"), None);
    assert_eq!(parse_i64("9223372036854775807"), Some(i64::MAX));
    assert_eq!(parse_i64("9223372036854775808"), None);
    assert_eq!(parse_i64("-9223372036854775808"), Some(i64::MIN));
    assert_eq!(parse_i64("-9223372036854775809"), None);
    assert_eq!(parse_i64("1.5"), None);
    assert_eq!(parse_i64(" 1"), None);
    for s in ["0", "-0", "+0", "007", "123456789", "x", "--1", "+-1"] {
        assert_eq!(parse_i64(s), s.parse::<i64>().ok());
    }
}
