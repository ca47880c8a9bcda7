use oa_shell::packs::{
    ensure_network_allowed, find_installed, push_trimmed, registry_url_from_input,
    InstalledPack, NetLogEntry, PacksPrefs, DEFAULT_REGISTRY_URL, MAX_ENTRIES, NETWORK_DISABLED,
};

#[test]
fn gate_blocks_when_network_off() {
    let mut prefs = PacksPrefs::default();
    prefs.allow_network = false;
    let err = ensure_network_allowed(&prefs).unwrap_err();
    assert!(err.starts_with("NETWORK_DISABLED"));
    assert_eq!(err, NETWORK_DISABLED);
}

#[test]
fn gate_passes_when_network_on() {
    assert!(ensure_network_allowed(&PacksPrefs::default()).is_ok());
}

#[test]
fn default_seeds_registry_url_and_network_on() {
    let prefs = PacksPrefs::default();
    assert_eq!(prefs.registry_url, DEFAULT_REGISTRY_URL);
    assert!(prefs.allow_network);
    assert!(prefs.last_checked.is_none());
}

#[test]
fn registry_url_input_is_trimmed_or_reset() {
    assert_eq!(registry_url_from_input("  https://x.example/r.json \n"), "https://x.example/r.json");
    assert_eq!(registry_url_from_input("   "), DEFAULT_REGISTRY_URL);
    assert_eq!(registry_url_from_input(""), DEFAULT_REGISTRY_URL);
}

fn entry(url: String) -> NetLogEntry {
    NetLogEntry { at: None, action: "registry".into(), url, outcome: "ok".into(), detail: None }
}

#[test]
fn ring_keeps_last_entries() {
    let mut log: Vec<NetLogEntry> = Vec::new();
    for i in 0..(MAX_ENTRIES + 25) {
        push_trimmed(&mut log, entry(format!("https://example.invalid/{i}")));
        assert!(log.len() <= MAX_ENTRIES);
    }
    assert_eq!(log.len(), MAX_ENTRIES);
    assert_eq!(log[0].url, "https://example.invalid/25");
    assert_eq!(log[MAX_ENTRIES - 1].url, format!("https://example.invalid/{}", MAX_ENTRIES + 24));
}

#[test]
fn find_installed_by_id() {
    let p = |id: &str| InstalledPack {
        id: id.into(),
        pack_type: "editorial".into(),
        name: "Ed".into(),
        version: "1.0.0".into(),
        license: None,
        path: format!("/x/{id}"),
    };
    let packs = vec![p("a"), p("b"), p("b")];
    assert_eq!(find_installed(&packs, "b"), Some(1));
    assert_eq!(find_installed(&packs, "c"), None);
}
