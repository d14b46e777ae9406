use icon_engine::dispatch::{
    after_attempt, AttemptDecision,
    default_method, extraction_steps, needs_shell_fallback, parse_method, placeholder_icon,
    settle_shell_item, ExtractionMethod, ExtractionStep, Extractor,
};
use icon_engine::cache::{IconCache, CACHE_CAPACITY};
use icon_engine::sources::{source_priority, IconSource, UWPScanner};
use icon_engine::types::{is_url, is_well_formed_icon, ExtractError, IconData};

#[test]
fn unknown_method_is_an_error() {
    assert_eq!(parse_method("bogus").unwrap_err(), ExtractError::UnsupportedMethod);
    assert_eq!(extraction_steps("bogus").unwrap_err(), ExtractError::UnsupportedMethod);
    assert_eq!(parse_method("").unwrap_err(), ExtractError::UnsupportedMethod);
    assert_eq!(parse_method("Smart").unwrap_err(), ExtractError::UnsupportedMethod);
}

#[test]
fn smart_makes_exactly_two_attempts() {
    let steps = extraction_steps("smart").unwrap();
    assert_eq!(
        steps,
        vec![
            ExtractionStep { extractor: Extractor::SystemImageList, size: 256 },
            ExtractionStep { extractor: Extractor::PrivateExtract, size: 512 },
        ]
    );
}

#[test]
fn other_methods_make_one_attempt() {
    for (name, m) in [
        ("imagelist", ExtractionMethod::ImageList),
        ("png_bmp", ExtractionMethod::PngBmp),
        ("pe_resource", ExtractionMethod::PeResource),
        ("high_res", ExtractionMethod::HighRes),
        ("shell", ExtractionMethod::Shell),
        ("thumbnail", ExtractionMethod::Thumbnail),
        ("native", ExtractionMethod::Native),
        ("icns", ExtractionMethod::Icns),
    ] {
        assert_eq!(parse_method(name).unwrap(), m);
        assert_eq!(extraction_steps(name).unwrap().len(), 1);
    }
    assert_eq!(
        extraction_steps("thumbnail").unwrap(),
        vec![ExtractionStep { extractor: Extractor::ShellThumbnail, size: 1024 }]
    );
    assert_eq!(default_method(), ExtractionMethod::HighRes);
}

fn icon(b: &str, w: u32) -> IconData {
    IconData { base64: b.to_string(), width: w, height: w }
}

#[test]
fn shell_item_fallback_rules() {
    assert!(needs_shell_fallback(&icon("", 256)));
    assert!(needs_shell_fallback(&icon("x", 47)));
    assert!(!needs_shell_fallback(&icon("x", 48)));
    assert_eq!(settle_shell_item(icon("x", 32), Some(icon("y", 256))).base64, "y");
    assert_eq!(settle_shell_item(icon("x", 32), Some(icon("", 256))).base64, "x");
    assert_eq!(settle_shell_item(icon("x", 32), None).base64, "x");
    assert_eq!(settle_shell_item(icon("x", 64), Some(icon("y", 256))).base64, "x");
    let p = placeholder_icon();
    assert!(p.base64.is_empty());
    assert_eq!((p.width, p.height), (32, 32));
}

#[test]
fn sources_and_priorities() {
    assert_eq!(IconSource::from_str("taskbar_pinned"), Some(IconSource::TaskbarPinned));
    assert_eq!(IconSource::from_str("nowhere"), None);
    assert_eq!(IconSource::UWPApps.id(), "uwp_apps");
    assert_eq!(IconSource::ProgramFilesX86.priority(), 35);
    assert_eq!(source_priority("uwp_apps"), 100);
    assert_eq!(source_priority("user_applications"), 85);
    assert_eq!(source_priority("nowhere"), 50);
}

#[test]
fn cache_stores_replaces_and_clears() {
    let mut c = IconCache::new();
    let m = "smart".to_string();
    assert!(c.get(&m, &"a".to_string()).is_none());
    c.insert(m.clone(), "a".to_string(), icon("one", 16));
    c.insert(m.clone(), "b".to_string(), icon("two", 32));
    c.insert(m.clone(), "a".to_string(), icon("three", 48));
    assert_eq!(c.len(), 2);
    assert_eq!(c.get(&m, &"a".to_string()).unwrap().base64, "three");
    assert_eq!(c.get(&m, &"b".to_string()).unwrap().width, 32);
    assert!(c.get(&"shell".to_string(), &"a".to_string()).is_none());
    let mut c = IconCache::new();
    c.insert(m.clone(), "a".to_string(), icon("one", 16));
    for i in 0..CACHE_CAPACITY {
        c.insert(m.clone(), format!("k{}", i), icon("x", 1));
    }
    assert_eq!(c.len(), CACHE_CAPACITY + 1);
    assert_eq!(c.get(&m, &"a".to_string()).unwrap().base64, "one");
    c.insert(m.clone(), "last".to_string(), icon("y", 2));
    assert_eq!(c.len(), 1);
    assert!(c.get(&m, &"a".to_string()).is_none());
    assert_eq!(c.get(&m, &"last".to_string()).unwrap().base64, "y");
}

#[test]
fn urls_are_recognised() {
    assert!(is_url("http://example.com"));
    assert!(is_url("HTTPS://Example.com/x"));
    assert!(!is_url("C:\\https.exe"));
    assert!(!is_url("http:/x"));
    assert!(!is_url(""));
}

#[test]
fn store_app_scanner_description() {
    let s = UWPScanner;
    assert_eq!(s.id(), "uwp_apps");
    assert_eq!(s.source(), IconSource::UWPApps);
    assert_eq!(s.name(), "应用商店应用 (UWP)");
    assert!(!s.description().is_empty());
    assert_eq!(s.icon(), "🛍️");
}

#[test]
fn attempts_stop_at_first_image_and_never_go_past_the_method() {
    assert_eq!(after_attempt(2, 1, &Some(icon("x", 32))), AttemptDecision::Accept);
    assert_eq!(after_attempt(2, 1, &None), AttemptDecision::TryNext);
    assert_eq!(after_attempt(2, 1, &Some(icon("", 32))), AttemptDecision::TryNext);
    assert_eq!(after_attempt(2, 2, &None), AttemptDecision::GiveUp);
    assert_eq!(after_attempt(1, 1, &None), AttemptDecision::GiveUp);
    assert_eq!(after_attempt(2, 2, &Some(icon("y", 256))), AttemptDecision::Accept);
}

#[test]
fn payloads_need_positive_dimensions() {
    assert!(is_well_formed_icon(&icon("x", 1)));
    assert!(is_well_formed_icon(&icon("", 0)));
    assert!(!is_well_formed_icon(&icon("x", 0)));
}
