use oa_shell::rom_header::{ByteSwapKind, HeaderRule};
use oa_shell::scan_service::{
    apply_results, classify_row, confidence_from_rule, is_wanted, pre_classify, result_from_hash,
    result_without_hash, scan_extension, walk_entry, Confidence, HashHit, ScannedRom,
    SmartClassifyResult, WalkStep,
};

fn row(file_name: &str, ext: &str, hint: Option<&str>) -> ScannedRom {
    ScannedRom {
        path: format!("/roms/{file_name}"),
        file_name: file_name.into(),
        extension: ext.into(),
        system_hint: hint.map(|h| h.to_string()),
        ..ScannedRom::default()
    }
}

fn map() -> Vec<(String, String)> {
    vec![("nes".into(), "nes".into()), ("zip".into(), "mame".into()), ("bin".into(), "psx".into())]
}

#[test]
fn hint_beats_extension_map() {
    assert_eq!(classify_row(&row("a.zip", "zip", Some("neogeo")), &map()).as_deref(), Some("neogeo"));
    assert_eq!(classify_row(&row("a.zip", "zip", None), &map()).as_deref(), Some("mame"));
    assert_eq!(classify_row(&row("a.xyz", "xyz", None), &map()), None);
}

#[test]
fn confidence_tiers_by_rule() {
    assert_eq!(confidence_from_rule(HeaderRule::Raw), Confidence::Hash);
    assert_eq!(confidence_from_rule(HeaderRule::SkipModulo { skip: 512, modulus: 1024 }), Confidence::Header);
    assert_eq!(
        confidence_from_rule(HeaderRule::ByteSwap { magic_at_offset_0: &[0x37], swap: ByteSwapKind::Pairs16 }),
        Confidence::Header
    );
}

#[test]
fn pre_classification_skips_hash_for_hints_discs_and_unknowns() {
    let p = pre_classify(0, &row("Super_Mario.nes", "nes", None), &map());
    assert_eq!(p.system_id.as_deref(), Some("nes"));
    assert_eq!(p.suggested_title, "Super Mario");
    assert!(!p.skip_hash);
    assert!(pre_classify(1, &row("x.zip", "zip", Some("neogeo")), &map()).skip_hash);
    assert!(pre_classify(2, &row("x.bin", "bin", None), &map()).skip_hash, ".bin on psx is a disc");
    assert!(pre_classify(3, &row("x.xyz", "xyz", None), &map()).skip_hash);
}

#[test]
fn results_without_hash() {
    let hinted = pre_classify(0, &row("x.zip", "zip", Some("neogeo")), &map());
    assert_eq!(result_without_hash(&hinted).confidence, Some(Confidence::Hint));
    let disc = pre_classify(1, &row("x.bin", "bin", None), &map());
    assert_eq!(result_without_hash(&disc).confidence, Some(Confidence::Extension));
    let none = pre_classify(2, &row("x.xyz", "xyz", None), &map());
    let r = result_without_hash(&none);
    assert_eq!(r.confidence, None);
    assert_eq!(r.suggested_title.as_deref(), Some("x"));
}

#[test]
fn hash_hit_overrides_system_and_title() {
    let hit = HashHit { system_id: "nes".into(), game_name: "Super Mario Bros. (World)".into(), rule: HeaderRule::Raw, sha1: "ab".into() };
    let r = result_from_hash(4, "famicom", "Super Mario", Some(hit));
    assert_eq!(r.system_id.as_deref(), Some("nes"));
    assert_eq!(r.suggested_title.as_deref(), Some("Super Mario Bros. (World)"));
    assert_eq!(r.confidence, Some(Confidence::Hash));
    assert_eq!(r.sha1.as_deref(), Some("ab"));
    let miss = result_from_hash(4, "nes", "Super Mario", None);
    assert_eq!(miss.confidence, Some(Confidence::Extension));
    assert_eq!(miss.system_id.as_deref(), Some("nes"));
    assert_eq!(miss.sha1, None);
}

#[test]
fn results_land_on_their_rows() {
    let mut rows = vec![row("a.nes", "nes", None), row("b.nes", "nes", None)];
    let results = vec![
        SmartClassifyResult { row_index: 1, system_id: Some("nes".into()), suggested_title: Some("B".into()), confidence: Some(Confidence::Extension), sha1: None },
        SmartClassifyResult { row_index: 7, system_id: Some("x".into()), suggested_title: None, confidence: None, sha1: None },
        SmartClassifyResult { row_index: 1, system_id: Some("nes".into()), suggested_title: Some("B2".into()), confidence: Some(Confidence::Hash), sha1: Some("cd".into()) },
    ];
    apply_results(&mut rows, results);
    assert_eq!(rows[0].system_id, None);
    assert_eq!(rows[1].suggested_title.as_deref(), Some("B2"));
    assert_eq!(rows[1].confidence, Some(Confidence::Hash));
    assert_eq!(rows[1].file_name, "b.nes");
}

#[test]
fn walk_decisions() {
    assert_eq!(walk_entry(".git", true, false, 0, 6), WalkStep::Skip);
    assert_eq!(walk_entry("sub", true, false, 5, 6), WalkStep::Descend);
    assert_eq!(walk_entry("sub", true, false, 6, 6), WalkStep::Skip);
    assert_eq!(walk_entry("a.nes", false, true, 6, 6), WalkStep::File);
    assert_eq!(walk_entry("link", false, false, 0, 6), WalkStep::Skip);
    assert_eq!(scan_extension("/r/Game.NES").as_deref(), Some("nes"));
    assert_eq!(scan_extension("/r/.hidden"), None);
    let wanted: Vec<String> = vec!["nes".into(), "sfc".into()];
    assert!(is_wanted(&wanted, &"sfc".to_string()));
    assert!(!is_wanted(&wanted, &"zip".to_string()));
}

fn ext_row(extension: &str, system_hint: Option<&str>) -> ScannedRom {
    ScannedRom {
        path: format!("/fake/{extension}.rom"),
        file_name: format!("game.{extension}"),
        extension: extension.to_string(),
        system_hint: system_hint.map(|s| s.to_string()),
        ..ScannedRom::default()
    }
}

#[test]
fn classify_row_prefers_hint_over_extension_lookup() {
    let m = vec![("zip".to_string(), "mame".to_string())];
    let r = ext_row("zip", Some("neogeo"));
    assert_eq!(classify_row(&r, &m), Some("neogeo".to_string()));
}

#[test]
fn classify_row_falls_back_to_extension_map_when_no_hint() {
    let m = vec![("smc".to_string(), "snes".to_string())];
    let r = ext_row("smc", None);
    assert_eq!(classify_row(&r, &m), Some("snes".to_string()));
}

#[test]
fn classify_row_unknown_extension_no_hint_returns_none() {
    let m: Vec<(String, String)> = Vec::new();
    let r = ext_row("xyz", None);
    assert_eq!(classify_row(&r, &m), None);
}

#[test]
fn classify_row_dir_mode_hint_overrides_empty_extension() {
    let m: Vec<(String, String)> = Vec::new();
    let r = ext_row("", Some("dosbox"));
    assert_eq!(classify_row(&r, &m), Some("dosbox".to_string()));
}

#[test]
fn confidence_from_rule_raw_is_hash() {
    assert_eq!(confidence_from_rule(HeaderRule::Raw), Confidence::Hash);
}

#[test]
fn confidence_from_rule_skip_magic_is_header() {
    let rule = HeaderRule::SkipMagic { skip: 16, magic_offset: 0, magic_bytes: b"NES\x1a" };
    assert_eq!(confidence_from_rule(rule), Confidence::Header);
}

#[test]
fn confidence_from_rule_skip_modulo_is_header() {
    assert_eq!(confidence_from_rule(HeaderRule::SkipModulo { skip: 512, modulus: 1024 }), Confidence::Header);
}

#[test]
fn confidence_from_rule_byte_swap_is_header() {
    let rule = HeaderRule::ByteSwap { magic_at_offset_0: &[0x37, 0x80, 0x40, 0x12], swap: ByteSwapKind::Pairs16 };
    assert_eq!(confidence_from_rule(rule), Confidence::Header);
}
