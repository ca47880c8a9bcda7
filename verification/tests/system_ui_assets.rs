use oa_shell::system_ui_assets::background_candidates;

#[test]
fn per_system_first_then_baseline_in_extension_order() {
    let c = background_candidates("nes", "default").unwrap();
    assert_eq!(
        c,
        vec![
            "system-ui/nes/backgrounds/default.png",
            "system-ui/nes/backgrounds/default.jpg",
            "system-ui/nes/backgrounds/default.jpeg",
            "system-ui/nes/backgrounds/default.webp",
            "system-ui/_baseline/backgrounds/default.png",
            "system-ui/_baseline/backgrounds/default.jpg",
            "system-ui/_baseline/backgrounds/default.jpeg",
            "system-ui/_baseline/backgrounds/default.webp",
        ]
    );
}

#[test]
fn animated_walks_video_extensions() {
    let c = background_candidates("nes", "animated").unwrap();
    assert_eq!(c[0], "system-ui/nes/backgrounds/animated.webm");
    assert_eq!(c[1], "system-ui/nes/backgrounds/animated.mp4");
    assert_eq!(c.len(), 4);
}

#[test]
fn rejects_path_traversal_in_system_id() {
    for evil in ["../nes", "..\\nes", "..", "nes/../etc", "nes\\..\\etc"] {
        assert!(background_candidates(evil, "default").unwrap().is_empty(), "{evil:?}");
    }
}

#[test]
fn unknown_kind_is_an_error() {
    assert_eq!(background_candidates("nes", "shader"), Err("unknown background kind: shader".to_string()));
}

/// The first candidate that is among `present`, as the resolver on disk
/// picks it.
fn first_present(system_id: &str, kind: &str, present: &[&str]) -> Option<String> {
    background_candidates(system_id, kind).unwrap().into_iter().find(|c| present.contains(&c.as_str()))
}

#[test]
fn bundled_resolver_finds_per_system_first() {
    let present = ["system-ui/nes/backgrounds/default.png", "system-ui/_baseline/backgrounds/default.png"];
    assert_eq!(first_present("nes", "default", &present).as_deref(), Some("system-ui/nes/backgrounds/default.png"));
}

#[test]
fn bundled_resolver_falls_back_to_baseline() {
    let present = ["system-ui/_baseline/backgrounds/default.png"];
    assert_eq!(
        first_present("nes", "default", &present).as_deref(),
        Some("system-ui/_baseline/backgrounds/default.png")
    );
}

#[test]
fn bundled_resolver_returns_none_when_nothing_on_disk() {
    assert!(first_present("nes", "default", &[]).is_none());
}

#[test]
fn bundled_resolver_prefers_png_over_jpg() {
    let present = ["system-ui/nes/backgrounds/default.jpg", "system-ui/nes/backgrounds/default.png"];
    assert_eq!(first_present("nes", "default", &present).as_deref(), Some("system-ui/nes/backgrounds/default.png"));
}

#[test]
fn bundled_resolver_walks_static_extensions() {
    let present = ["system-ui/_baseline/backgrounds/default.webp"];
    assert_eq!(
        first_present("nes", "default", &present).as_deref(),
        Some("system-ui/_baseline/backgrounds/default.webp")
    );
}

#[test]
fn bundled_resolver_finds_animated_webm() {
    let present = ["system-ui/nes/backgrounds/animated.webm"];
    assert_eq!(first_present("nes", "animated", &present).as_deref(), Some("system-ui/nes/backgrounds/animated.webm"));
}

#[test]
fn bundled_resolver_rejects_path_traversal_in_system_id() {
    let present = ["system-ui/_baseline/backgrounds/default.png"];
    for evil in ["../nes", "..\\nes", "..", "nes/../etc", "nes\\..\\etc"] {
        assert!(first_present(evil, "default", &present).is_none(), "{evil:?}");
    }
}

#[test]
fn static_and_animated_resolvers_dont_cross_contaminate() {
    let present = ["system-ui/nes/backgrounds/default.png"];
    assert!(first_present("nes", "default", &present).is_some());
    assert!(first_present("nes", "animated", &present).is_none());
}
