use std::collections::BTreeMap;

use oa_shell::theme_loader::{
    per_system_layer, tokens_layer, DiskPerSystem, DiskThemeTokens, SystemPalettePartial,
    PER_SYSTEM_FILE, THEME_MANIFEST, TOKENS_FILE,
};

#[test]
fn sidecar_file_names() {
    assert_eq!(THEME_MANIFEST, "theme.toml");
    assert_eq!(TOKENS_FILE, "tokens.toml");
    assert_eq!(PER_SYSTEM_FILE, "per-system.toml");
}

#[test]
fn empty_tokens_file_collapses_to_none() {
    assert!(DiskThemeTokens::default().is_empty());
    assert!(tokens_layer(Some(DiskThemeTokens::default())).is_none());
    assert!(per_system_layer(Some(DiskPerSystem::default())).is_none());
}

#[test]
fn any_token_keeps_the_layer() {
    let tokens = DiskThemeTokens {
        bg: Some("oklch(0.15 0.02 270)".to_string()),
        tile_radius: Some("12px".to_string()),
        ..Default::default()
    };
    assert!(!tokens.is_empty());
    let kept = tokens_layer(Some(tokens.clone())).expect("tokens kept");
    assert_eq!(kept, tokens);
    let only_last = DiskThemeTokens { section_spacing: Some("2rem".to_string()), ..Default::default() };
    assert!(!only_last.is_empty());
}

#[test]
fn missing_or_malformed_sidecar_gives_no_layer() {
    assert!(tokens_layer(None).is_none());
    assert!(per_system_layer(None).is_none());
}

#[test]
fn per_system_palettes_are_kept_when_present() {
    let mut map = BTreeMap::new();
    map.insert(
        "tg16".to_string(),
        SystemPalettePartial {
            accent: Some("oklch(0.74 0.18 55)".to_string()),
            soft: None,
            glow: Some("oklch(0.74 0.18 55 / 0.35)".to_string()),
        },
    );
    let layer = per_system_layer(Some(DiskPerSystem { per_system_tokens: map.clone() })).expect("kept");
    assert_eq!(layer, map);
    assert_eq!(layer.get("tg16").and_then(|p| p.accent.as_deref()), Some("oklch(0.74 0.18 55)"));
    assert!(layer.get("tg16").and_then(|p| p.soft.as_deref()).is_none());
}
