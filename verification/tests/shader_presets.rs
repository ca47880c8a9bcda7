use std::path::Path;

use oa_shell::shader_presets::{is_relevant, overlay_by_name, preset_name_from_file_name, WatchEventKind};

fn names_of(paths: &[&str]) -> Vec<Option<String>> {
    paths
        .iter()
        .map(|p| Path::new(p).file_name().and_then(|s| s.to_str()).map(|s| s.to_string()))
        .collect()
}

#[test]
fn relevant_for_preset_toml_modify() {
    let names = names_of(&["G:/foo/shaders/presets/phosphor.preset.toml"]);
    assert!(is_relevant(WatchEventKind::Modify, &names));
}

#[test]
fn relevant_for_preset_toml_create() {
    let names = names_of(&["/tmp/shaders/presets/new.preset.toml"]);
    assert!(is_relevant(WatchEventKind::Create, &names));
}

#[test]
fn relevant_for_preset_toml_remove() {
    let names = names_of(&["/tmp/shaders/presets/gone.preset.toml"]);
    assert!(is_relevant(WatchEventKind::Remove, &names));
}

#[test]
fn ignores_non_preset_files() {
    let names = names_of(&["/tmp/shaders/presets/notes.toml"]);
    assert!(!is_relevant(WatchEventKind::Modify, &names));
    let names = names_of(&["/tmp/shaders/blit.wgsl"]);
    assert!(!is_relevant(WatchEventKind::Modify, &names));
}

#[test]
fn access_events_are_ignored_even_on_preset_files() {
    let names = names_of(&["/tmp/shaders/presets/phosphor.preset.toml"]);
    assert!(!is_relevant(WatchEventKind::Access, &names));
    assert!(!is_relevant(WatchEventKind::Other, &names));
    assert!(is_relevant(WatchEventKind::Any, &names));
}

#[test]
fn one_preset_path_among_others_is_enough() {
    let names = names_of(&["/tmp/a.txt", "/", "/tmp/shaders/presets/x.preset.toml"]);
    assert!(is_relevant(WatchEventKind::Modify, &names));
    assert!(!is_relevant(WatchEventKind::Modify, &[]));
    assert!(!is_relevant(WatchEventKind::Modify, &[None]));
}

#[test]
fn preset_name_strips_the_preset_ending() {
    assert_eq!(preset_name_from_file_name("phosphor.preset.toml").as_deref(), Some("phosphor"));
    assert_eq!(preset_name_from_file_name("crt-lite.preset.toml").as_deref(), Some("crt-lite"));
    // Every trailing repetition goes, as `trim_end_matches` does.
    assert_eq!(preset_name_from_file_name("a.preset.toml.preset.toml").as_deref(), Some("a"));
}

#[test]
fn non_preset_files_and_empty_names_are_skipped() {
    assert_eq!(preset_name_from_file_name("notes.toml"), None);
    assert_eq!(preset_name_from_file_name("phosphor.preset.toml.bak"), None);
    assert_eq!(preset_name_from_file_name(".preset.toml"), None);
    assert_eq!(preset_name_from_file_name(".preset.toml.preset.toml"), None);
    assert_eq!(preset_name_from_file_name(""), None);
}

#[test]
fn user_overlay_replaces_builtin_by_name() {
    let entries = vec![
        ("plain".to_string(), "built-in plain"),
        ("scanlines".to_string(), "built-in scanlines"),
        ("crt-lite".to_string(), "built-in crt-lite"),
        ("phosphor".to_string(), "built-in phosphor"),
        ("lcd-handheld".to_string(), "built-in lcd-handheld"),
        ("phosphor".to_string(), "user phosphor"),
    ];
    let out = overlay_by_name(entries);
    assert_eq!(out.len(), 5, "user override doesn't add or drop entries");
    let names: Vec<&str> = out.iter().map(|e| e.0.as_str()).collect();
    assert_eq!(names, vec!["crt-lite", "lcd-handheld", "phosphor", "plain", "scanlines"]);
    let phos = out.iter().find(|e| e.0 == "phosphor").unwrap();
    assert_eq!(phos.1, "user phosphor");
}

#[test]
fn user_presets_with_new_names_are_added_in_order() {
    let entries = vec![
        ("plain".to_string(), 1),
        ("zebra".to_string(), 2),
        ("amber".to_string(), 3),
        ("zebra".to_string(), 4),
    ];
    let out = overlay_by_name(entries);
    assert_eq!(out, vec![("amber".to_string(), 3), ("plain".to_string(), 1), ("zebra".to_string(), 4)]);
    assert!(overlay_by_name(Vec::<(String, u8)>::new()).is_empty());
}
