use oa_shell::metadata::{metadat_cache_file, metadat_url};
use oa_shell::media::{group_by_names, GameMedia, GameMetadata};
use oa_shell::metadata::{
    apply_metadata, clear_metadata, group_by_metadat_system, merge_metadat_pairs, metadat_cache_usable, record_metadat_unavailable, record_metadata_result,
    record_no_metadat, MetadataResult, MetadataSyncSummary, merge_metadat_value, metadat_system_name_for_extension, metadata_differs, metadata_from,
    parse_metadat_dat, unquote, MetadatKind, UpstreamMetadat,
};
use oa_shell::numbers::parse_u32;

#[test]
fn parse_metadat_pulls_comment_and_value() {
    let dat = r#"clrmamepro (
	name "NEC - PC Engine - TurboGrafx 16"
	description "NEC - PC Engine - TurboGrafx 16"
)

game (
	comment "Bonk's Adventure (USA)"
	genre "Platformer"
	rom ( crc DEADBEEF )
)

game (
	comment "Air Zonk (USA)"
	genre "Shoot 'Em Up"
	rom ( crc CAFEBABE )
)
"#;
    let parsed = parse_metadat_dat(dat, "genre");
    assert_eq!(parsed.len(), 2);
    assert_eq!(parsed[0], ("Bonk's Adventure (USA)".into(), "Platformer".into()));
    assert_eq!(parsed[1], ("Air Zonk (USA)".into(), "Shoot 'Em Up".into()));
}

#[test]
fn parse_metadat_skips_game_without_value_field() {
    let dat = r#"game (
	comment "Foo"
	rom ( crc 11111111 )
)
game (
	comment "Bar"
	genre "Action"
	rom ( crc 22222222 )
)
"#;
    let parsed = parse_metadat_dat(dat, "genre");
    assert_eq!(parsed.len(), 1);
    assert_eq!(parsed[0], ("Bar".into(), "Action".into()));
}

#[test]
fn parse_metadat_releaseyear_round_trips_to_u32() {
    let dat = r#"game (
	comment "Foo"
	releaseyear "1990"
)
"#;
    let parsed = parse_metadat_dat(dat, "releaseyear");
    assert_eq!(parsed[0].1.parse::<u32>().ok(), Some(1990));
    assert_eq!(parse_u32(&parsed[0].1), Some(1990));
}

#[test]
fn parse_metadat_unquoted_users_value() {
    let dat = r#"game (
	comment "Foo"
	users 4
)
game (
	comment "Bar"
	users 1
)
"#;
    let parsed = parse_metadat_dat(dat, "users");
    assert_eq!(parsed.len(), 2);
    assert_eq!(parsed[0].1.parse::<u32>().ok(), Some(4));
    assert_eq!(parsed[1].1.parse::<u32>().ok(), Some(1));
}

#[test]
fn parse_metadat_skips_system_header_name_field() {
    let dat = r#"clrmamepro (
	name "Some System"
)

game (
	comment "Real Game"
	genre "Action"
)
"#;
    let parsed = parse_metadat_dat(dat, "genre");
    assert_eq!(parsed.len(), 1);
    assert_eq!(parsed[0].0, "Real Game");
    assert_ne!(parsed[0].0, "Some System");
}

#[test]
fn metadata_differs_detects_any_field_change() {
    let prior = GameMetadata {
        year: Some(1990),
        genre: Some("Platformer".into()),
        developer: None,
        publisher: None,
        players: Some(1),
        description: None,
    };
    let next_with_developer = GameMetadata {
        year: Some(1990),
        genre: Some("Platformer".into()),
        developer: Some("Red".into()),
        publisher: None,
        players: Some(1),
        description: None,
    };
    assert!(metadata_differs(Some(&prior), &next_with_developer));
    assert!(!metadata_differs(Some(&prior), &prior));
    assert!(metadata_differs(None, &prior));
}

#[test]
fn block_left_open_emits_nothing_and_key_needs_a_space() {
    let dat = "game (\n comment \"A\"\n genre \"X\"\ngame (\n comment \"B\"\n genreX \"Y\"\n genre \"Z\"\n)\n";
    let parsed = parse_metadat_dat(dat, "genre");
    assert_eq!(parsed, vec![("B".to_string(), "Z".to_string())]);
    assert!(parse_metadat_dat("game (\n comment \"A\"\n genre \"X\"\n", "genre").is_empty());
}

#[test]
fn unquote_strips_whitespace_and_quotes() {
    assert_eq!(unquote("  \"\"Action\"  "), "Action");
    assert_eq!(unquote("2"), "2");
    assert_eq!(unquote(" \"a \"b\" "), "a \"b");
}

#[test]
fn parse_u32_matches_std() {
    for s in ["0", "42", "+7", "4294967295", "4294967296", "", "+", "-1", " 1", "12a", "007"] {
        assert_eq!(parse_u32(s), s.parse::<u32>().ok(), "input {s:?}");
    }
}

#[test]
fn merge_sets_one_field() {
    let mut e = UpstreamMetadat {
        name: "Foo".into(),
        normalized: "foo".into(),
        genre: None,
        developer: None,
        publisher: None,
        release_year: None,
        users: None,
    };
    merge_metadat_value(&mut e, MetadatKind::ReleaseYear, "1991".into());
    merge_metadat_value(&mut e, MetadatKind::Users, "two".into());
    merge_metadat_value(&mut e, MetadatKind::Genre, "Action".into());
    assert_eq!(e.release_year, Some(1991));
    assert_eq!(e.users, None);
    assert_eq!(e.genre.as_deref(), Some("Action"));
    let m = metadata_from(&e);
    assert_eq!(m.year, Some(1991));
    assert_eq!(m.genre.as_deref(), Some("Action"));
    assert_eq!(m.description, None);
}

#[test]
fn metadat_kinds_and_systems() {
    assert_eq!(MetadatKind::Users.subdir(), "maxusers");
    assert_eq!(MetadatKind::Users.value_key(), "users");
    assert_eq!(MetadatKind::ALL.len(), 5);
    assert_eq!(metadat_system_name_for_extension("sgx"), "NEC - PC Engine SuperGrafx");
    assert_eq!(metadat_system_name_for_extension("cue"), "NEC - PC Engine CD - TurboGrafx-CD");
    assert_eq!(metadat_system_name_for_extension("pce"), "NEC - PC Engine - TurboGrafx 16");
}

#[test]
fn metadata_sync_groups_by_catalog() {
    let exts = vec!["pce".to_string(), "cue".to_string(), "sgx".to_string(), "pce".to_string()];
    let groups = group_by_metadat_system(&exts);
    let names: Vec<&str> = groups.iter().map(|g| g.0.as_str()).collect();
    assert_eq!(
        names,
        vec![
            "NEC - PC Engine - TurboGrafx 16",
            "NEC - PC Engine CD - TurboGrafx-CD",
            "NEC - PC Engine SuperGrafx",
        ]
    );
    assert_eq!(groups[0].1, vec![0, 3]);
    assert_eq!(groups[1].1, vec![1]);
    assert_eq!(groups[2].1, vec![2]);
}

#[test]
fn grouping_by_names_joins_every_group_of_an_item() {
    let names = vec![
        vec!["b".to_string(), "a".to_string()],
        vec![],
        vec!["a".to_string()],
    ];
    let groups = group_by_names(&names);
    assert_eq!(groups, vec![("a".to_string(), vec![0, 2]), ("b".to_string(), vec![0])]);
}

#[test]
fn metadata_results_are_tallied() {
    let mut s = MetadataSyncSummary {
        system_id: "tg16".into(),
        total: 5,
        matched: 0,
        updated: 0,
        unchanged: 0,
        unmatched: 0,
        errors: 0,
    };
    record_metadata_result(&mut s, MetadataResult::Updated);
    record_metadata_result(&mut s, MetadataResult::Unchanged);
    record_metadata_result(&mut s, MetadataResult::NoMatch);
    assert_eq!((s.matched, s.updated, s.unchanged, s.unmatched, s.errors), (2, 1, 1, 1, 0));
    assert_eq!(record_metadat_unavailable(&mut s, 2, "NEC - PC Engine SuperGrafx"), "system unavailable: NEC - PC Engine SuperGrafx");
    assert_eq!(s.errors, 2);
    assert_eq!(record_no_metadat(&mut s, 3), "no metadat for system");
    assert_eq!(s.unmatched, 4);
}

#[test]
fn metadata_is_recorded_only_when_it_changes() {
    let mut gm = GameMedia::default();
    let meta = GameMetadata { year: Some(1990), ..Default::default() };
    assert!(apply_metadata(&mut gm, meta.clone()));
    assert_eq!(gm.metadata.as_ref().and_then(|m| m.year), Some(1990));
    assert!(!apply_metadata(&mut gm, meta.clone()));
    let newer = GameMetadata { year: Some(1991), ..Default::default() };
    assert!(apply_metadata(&mut gm, newer));
    assert_eq!(gm.metadata.as_ref().and_then(|m| m.year), Some(1991));
}

#[test]
fn catalog_pairs_merge_by_name() {
    let mut records: Vec<UpstreamMetadat> = Vec::new();
    merge_metadat_pairs(
        &mut records,
        MetadatKind::Genre,
        vec![
            ("Zelda (USA)".to_string(), "Adventure".to_string()),
            ("Bonk (USA)".to_string(), "Platform".to_string()),
            ("Bonk (USA)".to_string(), "Platformer".to_string()),
        ],
    );
    merge_metadat_pairs(
        &mut records,
        MetadatKind::ReleaseYear,
        vec![("Bonk (USA)".to_string(), "1990".to_string()), ("Alpha (Japan)".to_string(), "x".to_string())],
    );
    let names: Vec<&str> = records.iter().map(|r| r.name.as_str()).collect();
    assert_eq!(names, vec!["Alpha (Japan)", "Bonk (USA)", "Zelda (USA)"]);
    let bonk = &records[1];
    assert_eq!(bonk.genre.as_deref(), Some("Platformer"), "the last value of a name wins");
    assert_eq!(bonk.release_year, Some(1990));
    assert_eq!(records[0].release_year, None, "an unparsable year is not stored");
    assert_eq!(records[0].normalized, oa_shell::normalize::normalize_title("Alpha (Japan)"));
    assert_eq!(records[2].genre.as_deref(), Some("Adventure"));
}

#[test]
fn metadat_cache_reuse_rules() {
    assert!(metadat_cache_usable(3, 1_000, 1_000 + 86_399));
    assert!(!metadat_cache_usable(3, 1_000, 1_000 + 86_400));
    assert!(!metadat_cache_usable(0, 1_000, 1_000));
    assert!(metadat_cache_usable(3, 5_000, 1_000), "a clock behind the fetch counts as fresh");
}

#[test]
fn clearing_metadata_reports_whether_any_was_there() {
    let mut gm = GameMedia::default();
    assert!(!clear_metadata(&mut gm));
    gm.metadata = Some(GameMetadata::default());
    assert!(clear_metadata(&mut gm));
    assert!(gm.metadata.is_none());
}

#[test]
fn metadat_url_percent_encodes_the_system_name() {
    assert_eq!(
        metadat_url(MetadatKind::Genre, "NEC - PC Engine - TurboGrafx 16"),
        "https://raw.githubusercontent.com/libretro/libretro-database/master/metadat/genre/NEC%20-%20PC%20Engine%20-%20TurboGrafx%2016.dat"
    );
    assert_eq!(
        metadat_url(MetadatKind::Users, "Sega - Mega Drive - Genesis"),
        "https://raw.githubusercontent.com/libretro/libretro-database/master/metadat/maxusers/Sega%20-%20Mega%20Drive%20-%20Genesis.dat"
    );
}

#[test]
fn metadat_cache_file_replaces_path_separators() {
    assert_eq!(metadat_cache_file("Sega - Mega Drive - Genesis"), "media/cache/metadat/Sega - Mega Drive - Genesis.json");
    assert_eq!(metadat_cache_file("A/B\\C"), "media/cache/metadat/A_B_C.json");
}
