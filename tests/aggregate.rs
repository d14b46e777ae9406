use icon_engine::aggregate::{
    aggregate_all, aggregate_sources, fingerprint_of, merge_by_fingerprint, name_key_of,
    sort_by_name,
};
use icon_engine::path::{join_known_folder, normalize_path, split_known_folder_path, KnownFolder};
use icon_engine::plan::{attach_extracted, build_extraction_plan, extraction_key, keys_equal, ExtractKind};
use icon_engine::types::{DesktopIcon, IconData, RankedIcon};

fn rec(name: &str, target: &str, payload: &str, source: &str) -> DesktopIcon {
    DesktopIcon {
        name: name.to_string(),
        icon_base64: payload.to_string(),
        target_path: target.to_string(),
        file_path: target.to_string(),
        icon_width: 32,
        icon_height: 32,
        icon_source_path: Some(target.to_string()),
        icon_source_index: Some(0),
        created_time: None,
        modified_time: None,
        accessed_time: None,
        file_size: None,
        file_type: None,
        description: None,
        arguments: None,
        working_directory: None,
        hotkey: None,
        show_command: None,
        source_name: Some(source.to_string()),
    }
}

fn uwp(name: &str, locator: &str) -> DesktopIcon {
    let mut r = rec(name, locator, "", "store");
    r.file_type = Some("UWP App".to_string());
    r
}

fn ranked(icon: DesktopIcon, priority: i32) -> RankedIcon {
    RankedIcon { icon, priority }
}

fn summary(v: &[RankedIcon]) -> Vec<(String, String, i32)> {
    v.iter()
        .map(|e| {
            (
                e.icon.name.clone(),
                e.icon.source_name.clone().unwrap_or_default(),
                e.priority,
            )
        })
        .collect()
}

#[test]
fn higher_priority_survives_even_when_second() {
    let batch = vec![
        ranked(rec("Editor", "C:\\Apps\\editor.exe", "", "appdata"), 60),
        ranked(rec("Editor", "C:\\Apps\\editor.exe", "", "taskbar"), 90),
    ];
    let m = merge_by_fingerprint(batch);
    assert_eq!(summary(&m), vec![("Editor".to_string(), "taskbar".to_string(), 90)]);
}

#[test]
fn lower_priority_never_replaces() {
    let batch = vec![
        ranked(rec("Editor", "C:\\e.exe", "", "taskbar"), 90),
        ranked(rec("Editor", "C:\\e.exe", "data:x", "appdata"), 60),
    ];
    let m = merge_by_fingerprint(batch);
    assert_eq!(summary(&m), vec![("Editor".to_string(), "taskbar".to_string(), 90)]);
}

#[test]
fn tie_prefers_record_with_payload() {
    let batch = vec![
        ranked(rec("Editor", "C:\\e.exe", "", "first"), 70),
        ranked(rec("Editor", "C:\\e.exe", "data:x", "second"), 70),
        ranked(rec("Editor", "C:\\e.exe", "data:y", "third"), 70),
    ];
    let m = merge_by_fingerprint(batch);
    assert_eq!(summary(&m), vec![("Editor".to_string(), "second".to_string(), 70)]);
}

#[test]
fn tie_without_payload_keeps_first_seen() {
    let batch = vec![
        ranked(rec("Editor", "C:\\e.exe", "", "first"), 70),
        ranked(rec("Editor", "C:\\e.exe", "", "second"), 70),
    ];
    let m = merge_by_fingerprint(batch);
    assert_eq!(summary(&m), vec![("Editor".to_string(), "first".to_string(), 70)]);
}

#[test]
fn fingerprint_folds_case_and_trims_name() {
    let a = fingerprint_of(&rec("  Foo Bar ", "C:\\Foo.EXE", "", "a"));
    assert_eq!(a.name, "foo bar");
    assert_eq!(a.target, "c:\\foo.exe");
    let batch = vec![
        ranked(rec("  Foo ", "C:\\Foo.EXE", "", "a"), 50),
        ranked(rec("foo", "c:\\foo.exe", "", "b"), 50),
        ranked(rec("foo", "c:\\other.exe", "", "c"), 50),
    ];
    let m = merge_by_fingerprint(batch);
    assert_eq!(m.len(), 2);
    assert_eq!(name_key_of(&rec(" ÄB ", "", "", "")), "äb");
}

#[test]
fn merging_twice_changes_nothing() {
    let batch = || {
        vec![
            ranked(rec("B", "b", "", "1"), 10),
            ranked(rec("A", "a", "", "1"), 10),
            ranked(rec("b", "B", "p", "2"), 10),
            ranked(rec("A", "a", "", "3"), 20),
        ]
    };
    let once = merge_by_fingerprint(batch());
    let once_summary = summary(&once);
    let twice = merge_by_fingerprint(once);
    assert_eq!(summary(&twice), once_summary);
    assert_eq!(
        once_summary,
        vec![("b".to_string(), "2".to_string(), 10), ("A".to_string(), "3".to_string(), 20)]
    );
}

#[test]
fn store_apps_sharing_a_name_are_dropped_and_result_sorted() {
    let batch = vec![
        ranked(uwp("Calculator", "shell:AppsFolder\\calc"), 100),
        ranked(rec("calculator", "C:\\calc.exe", "", "desktop"), 75),
        ranked(uwp("Photos", "shell:AppsFolder\\photos"), 100),
        ranked(rec("Zed", "C:\\zed.exe", "", "desktop"), 75),
        ranked(rec("Alpha", "C:\\alpha.exe", "", "desktop"), 75),
        ranked(uwp("Photos", "shell:AppsFolder\\photos"), 100),
    ];
    let r = aggregate_sources(batch);
    let names: Vec<&str> = r.iter().map(|i| i.name.as_str()).collect();
    assert_eq!(names, vec!["Alpha", "Photos", "Zed", "calculator"]);
}

#[test]
fn aggregate_all_drops_store_apps_named_like_files() {
    let batch = vec![
        ranked(uwp("Calculator", "calc"), 100),
        ranked(rec("Calculator", "calc", "", "desktop"), 75),
        ranked(uwp("Notes", "shell:AppsFolder\\notes"), 100),
        ranked(rec(" notes ", "C:\\notes.exe", "", "desktop"), 75),
        ranked(rec("beta", "b", "", "desktop"), 75),
    ];
    let r = aggregate_all(batch);
    let names: Vec<(&str, Option<&str>)> =
        r.iter().map(|i| (i.name.as_str(), i.file_type.as_deref())).collect();
    assert_eq!(names, vec![(" notes ", None), ("Calculator", None), ("beta", None)]);
}

#[test]
fn sorting_is_by_code_point_and_stable() {
    let v = vec![
        rec("b", "1", "", "first"),
        rec("B", "2", "", ""),
        rec("a", "3", "", ""),
        rec("b", "4", "", "second"),
        rec("", "5", "", ""),
    ];
    let r = sort_by_name(v);
    let names: Vec<(&str, &str)> = r
        .iter()
        .map(|i| (i.name.as_str(), i.source_name.as_deref().unwrap()))
        .collect();
    assert_eq!(names, vec![("", ""), ("B", ""), ("a", ""), ("b", "first"), ("b", "second")]);
}

#[test]
fn equivalent_locators_share_a_key() {
    let mut a = rec("A", "x", "", "");
    a.icon_source_path = Some("  \"C:/Apps/Foo.EXE\" ".to_string());
    let mut b = rec("B", "y", "", "");
    b.icon_source_path = Some("c:\\apps\\foo.exe".to_string());
    let mut c = rec("C", "z", "", "");
    c.icon_source_path = Some("\\\\?\\C:\\Apps\\Foo.exe".to_string());
    let ka = extraction_key(&a);
    assert_eq!(ka.kind, ExtractKind::File);
    assert_eq!(ka.path.iter().collect::<String>(), "c:\\apps\\foo.exe");
    assert!(keys_equal(&ka, &extraction_key(&b)));
    assert!(keys_equal(&ka, &extraction_key(&c)));
    let mut d = b.clone();
    d.icon_source_index = Some(3);
    assert!(!keys_equal(&ka, &extraction_key(&d)));
    let e = uwp("E", "shell:AppsFolder\\e");
    assert_eq!(extraction_key(&e).kind, ExtractKind::ShellItem);
    let mut f = rec("F", "C:\\f.exe", "", "");
    f.icon_source_path = None;
    f.file_path = "C:\\F.exe".to_string();
    assert_eq!(extraction_key(&f).path.iter().collect::<String>(), "c:\\f.exe");
}

#[test]
fn shared_keys_are_planned_once_and_filled_alike() {
    let mut a = rec("A", "x", "", "");
    a.icon_source_path = Some("\"C:/Apps/Foo.exe\"".to_string());
    let mut b = rec("B", "y", "", "");
    b.icon_source_path = Some("c:\\apps\\foo.exe".to_string());
    let c = rec("C", "C:\\c.exe", "", "");
    let mut done = rec("D", "c:\\apps\\foo.exe", "data:kept", "");
    done.icon_width = 7;
    let mut icons = vec![a, b, c, done];
    let plan = build_extraction_plan(&icons);
    assert_eq!(plan.len(), 2);
    assert_eq!(plan[0].path, "C:/Apps/Foo.exe");
    assert_eq!(plan[0].icon_index, 0);
    assert_eq!(plan[1].path, "C:\\c.exe");
    let results = vec![
        IconData { base64: "data:foo".to_string(), width: 256, height: 256 },
        IconData { base64: String::new(), width: 32, height: 32 },
    ];
    attach_extracted(&mut icons, &plan, &results);
    assert_eq!(icons[0].icon_base64, "data:foo");
    assert_eq!(icons[1].icon_base64, "data:foo");
    assert_eq!((icons[0].icon_width, icons[1].icon_height), (256, 256));
    assert_eq!(icons[2].icon_base64, "");
    assert_eq!(icons[3].icon_base64, "data:kept");
    assert_eq!(icons[3].icon_width, 7);
    assert_eq!(icons[0].name, "A");
}

#[test]
fn normalized_paths_are_unchanged() {
    assert_eq!(normalize_path("C:\\Windows\\x.exe"), "C:\\Windows\\x.exe");
}

#[test]
fn known_folder_paths_split_and_join() {
    let k = split_known_folder_path("{1ac14e77-02E7-4E5D-B744-2EB1AE5198B7}\\services.msc").unwrap();
    assert_eq!(k.folder, KnownFolder::System);
    assert_eq!(k.rest, "services.msc");
    let k = split_known_folder_path("{7C5A40EF-A0FB-4BFC-874A-C0F2E0B9FA8E}").unwrap();
    assert_eq!(k.folder, KnownFolder::ProgramFiles);
    assert_eq!(k.rest, "");
    assert!(split_known_folder_path("{00000000-0000-0000-0000-000000000000}\\x").is_none());
    assert!(split_known_folder_path("{1AC14E77-02E7-4E5D-B744-2EB1AE5198B7").is_none());
    assert!(split_known_folder_path("C:\\x.exe").is_none());
    assert!(split_known_folder_path("").is_none());
    assert_eq!(join_known_folder("C:\\Windows\\System32", "services.msc"), "C:\\Windows\\System32\\services.msc");
    assert_eq!(join_known_folder("C:\\", "x"), "C:\\x");
    assert_eq!(join_known_folder("C:\\Users", ""), "C:\\Users");
}
