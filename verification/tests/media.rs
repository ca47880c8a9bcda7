use oa_shell::media::{
    choose_variant, parse_media_request, served_file, MediaSize,
    apply_synced_variant, content_type_for, enabled_sync_kinds, is_image_magic, is_wii_dump,
    looks_like_same_dir_symlink_target, media_path_for_slot, peek_len_for, repo_for_extension,
    repos_for_entry, repos_for_system_id, resolve_active_index, rom_stem_from_path,
    sanitize_filename_stem, variant_file_name, next_variant_filename, group_by_repo, sync_work_units,
    record_sync_result, sync_action, record_repo_unavailable, record_kind_missing,
    canonical_upstream_match, sync_cache_path, sync_thumb_path, recorded_sync_sha1, synced_variant,
    SyncResult, SyncSummary, tree_cache_fresh, install_manual_variant, manual_thumb_path,
    manual_cover_kind, manual_rom_stem, detect_format, ext_for_guess, ImageGuess, GameMedia, KnownRegion, MediaKind, MediaPrefs,
    MediaSource, MediaVariant, Region, RepoTree, SelectedMedia, SyncRomEntry, known_kind_names, pin_variant,
    thumbnail_url, head_preview, manual_art, manual_variant, repo_tree_from_paths, tree_cache_file, first_free_variant, download_step, symlink_loop_error, too_many_hops_error, DownloadStep,
};

fn variant(region: Option<&str>) -> MediaVariant {
    MediaVariant {
        source: MediaSource::LibretroThumbnails,
        region: region.map(Region::parse),
        path: "x".into(),
        thumb_path: None,
        width: None,
        height: None,
        sha1: None,
        bytes: None,
    }
}

#[test]
fn resolve_pinned_wins() {
    let variants = vec![variant(Some("Japan")), variant(Some("USA"))];
    let priority: Vec<String> = vec!["USA".into()];
    assert_eq!(resolve_active_index(&variants, Some(0), &priority), Some(0));
}

#[test]
fn resolve_pinned_out_of_range_falls_through() {
    let variants = vec![variant(Some("Japan")), variant(Some("USA"))];
    let priority: Vec<String> = vec!["USA".into()];
    assert_eq!(resolve_active_index(&variants, Some(99), &priority), Some(1));
}

#[test]
fn resolve_region_priority_picks_first_match() {
    let variants = vec![variant(Some("Japan")), variant(Some("Europe")), variant(Some("USA"))];
    let priority: Vec<String> = vec!["USA".into(), "Europe".into()];
    assert_eq!(resolve_active_index(&variants, None, &priority), Some(2));
}

#[test]
fn resolve_fallback_index_zero_when_no_region_match() {
    let variants = vec![variant(Some("Japan")), variant(Some("Brazil"))];
    let priority: Vec<String> = vec!["USA".into()];
    assert_eq!(resolve_active_index(&variants, None, &priority), Some(0));
}

#[test]
fn resolve_empty_returns_none() {
    let variants: Vec<MediaVariant> = vec![];
    let priority: Vec<String> = vec!["USA".into()];
    assert_eq!(resolve_active_index(&variants, None, &priority), None);
}

#[test]
fn every_onboarded_system_has_an_explicit_thumbnails_decision() {
    const ONBOARDED_SYSTEMS: &[&str] = &[
        "tg16", "pce-cd", "lynx", "nes", "snes", "mame", "atari7800", "genesis",
        "segacd", "sega32x", "saturn", "psx",
        "neogeo", "neocd", "ngp",
        "jaguar", "3do", "pcfx",
        "n64", "gamecube", "dreamcast",
        "psp", "ps2", "nds",
        "sms", "gamegear", "gb", "gbc", "gba", "2600",
        "coleco", "intv", "o2", "channelf",
        "vectrex", "virtualboy", "wonderswan",
        "5200", "pokemini",
    ];
    const NO_REPO_SYSTEMS: &[&str] = &[];
    for sys in ONBOARDED_SYSTEMS {
        let repos = repos_for_system_id(sys);
        if NO_REPO_SYSTEMS.contains(sys) {
            assert!(repos.is_empty(), "{sys} is in NO_REPO_SYSTEMS but has repos");
        } else {
            assert!(!repos.is_empty(), "{sys} is onboarded but has no repo");
        }
    }
}

#[test]
fn multi_variant_systems_return_both_repos() {
    let ws = repos_for_system_id("wonderswan");
    assert_eq!(
        ws,
        &["Bandai_-_WonderSwan", "Bandai_-_WonderSwan_Color"],
        "wonderswan must return WS + WS Color repos (mono first as primary)"
    );
}

#[test]
fn gb_and_gbc_resolve_to_their_own_thumbnails_repos() {
    assert_eq!(repos_for_system_id("gb"), &["Nintendo_-_Game_Boy"]);
    assert_eq!(repos_for_system_id("gbc"), &["Nintendo_-_Game_Boy_Color"]);
}

#[test]
fn single_repo_systems_return_one_repo() {
    for sys in &["nes", "snes", "n64", "psx", "saturn", "dreamcast", "gba"] {
        let repos = repos_for_system_id(sys);
        assert_eq!(repos.len(), 1, "{sys} is a single-repo system but returned {} repos", repos.len());
    }
}

#[test]
fn unknown_system_returns_empty_slice() {
    assert_eq!(repos_for_system_id("not-a-real-system"), &[] as &[&str]);
    assert_eq!(repos_for_system_id(""), &[] as &[&str]);
    assert_eq!(repos_for_system_id("wonderswan-color"), &[] as &[&str]);
}

fn gc_entry_with_path(path: &str) -> SyncRomEntry {
    SyncRomEntry {
        id: "test".to_string(),
        title: "Test".to_string(),
        file_path: path.to_string(),
        system_id: "gamecube".to_string(),
        sha1: None,
    }
}

#[test]
fn wbfs_extension_routes_to_wii_repo() {
    let e = gc_entry_with_path("/nope/SuperMarioGalaxy.wbfs");
    assert_eq!(peek_len_for(&e.file_path), 0);
    assert_eq!(repos_for_entry(&e, None), &["Nintendo_-_Wii"]);
}

#[test]
fn wad_extension_routes_to_wii_repo() {
    let e = gc_entry_with_path("/nope/MyWiiChannel.wad");
    assert_eq!(repos_for_entry(&e, None), &["Nintendo_-_Wii"]);
}

#[test]
fn gc_exclusive_extensions_route_to_gc_repo() {
    for ext in &["gcm", "gcz", "ciso"] {
        let e = gc_entry_with_path(&format!("/nope/Zelda.{ext}"));
        assert_eq!(repos_for_entry(&e, None), &["Nintendo_-_GameCube"], ".{ext} should route to GC");
    }
}

#[test]
fn iso_with_wii_console_byte_routes_to_wii_repo() {
    let e = gc_entry_with_path("/games/wii-game.iso");
    assert_eq!(peek_len_for(&e.file_path), 1);
    let head = b"R";
    assert_eq!(repos_for_entry(&e, Some(&head[..])), &["Nintendo_-_Wii"]);
}

#[test]
fn iso_with_gc_console_byte_routes_to_gc_repo() {
    let e = gc_entry_with_path("/games/gc-game.iso");
    let head = b"G";
    assert_eq!(repos_for_entry(&e, Some(&head[..])), &["Nintendo_-_GameCube"]);
}

#[test]
fn iso_unreachable_falls_back_to_gc_repo() {
    let e = gc_entry_with_path("/this/path/genuinely/does/not/exist.iso");
    assert_eq!(repos_for_entry(&e, None), &["Nintendo_-_GameCube"]);
}

#[test]
fn rvz_with_wii_disc_header_routes_to_wii_repo() {
    let e = gc_entry_with_path("/games/game.rvz");
    assert_eq!(peek_len_for(&e.file_path), 48);
    let mut header = [0u8; 48];
    header[..4].copy_from_slice(b"RVZ\x01");
    header[40] = b'R';
    assert_eq!(repos_for_entry(&e, Some(&header[..])), &["Nintendo_-_Wii"]);
}

#[test]
fn rvz_with_gc_disc_header_routes_to_gc_repo() {
    let e = gc_entry_with_path("/games/game.rvz");
    let mut header = [0u8; 48];
    header[..4].copy_from_slice(b"RVZ\x01");
    header[40] = b'G';
    assert_eq!(repos_for_entry(&e, Some(&header[..])), &["Nintendo_-_GameCube"]);
}

#[test]
fn rvz_truncated_falls_back_to_gc_repo() {
    let e = gc_entry_with_path("/games/game.rvz");
    assert_eq!(repos_for_entry(&e, None), &["Nintendo_-_GameCube"]);
    let short = b"RVZ\x01abcd";
    assert!(!is_wii_dump(&e.file_path, Some(&short[..])));
}

#[test]
fn rvz_without_magic_is_gamecube() {
    let mut header = [0u8; 48];
    header[..4].copy_from_slice(b"WIA\x01");
    header[40] = b'R';
    assert!(!is_wii_dump("/g/x.rvz", Some(&header[..])));
    assert!(is_wii_dump("/g/X.ISO", Some(&b"S"[..])));
}

#[test]
fn non_gamecube_entry_uses_repos_for_system_id() {
    let mut e = gc_entry_with_path("/nope/some.nes");
    e.system_id = "nes".to_string();
    assert_eq!(repos_for_entry(&e, None), &["Nintendo_-_Nintendo_Entertainment_System"]);
    e.system_id = "gb".to_string();
    e.file_path = "/nope/some.gb".to_string();
    assert_eq!(repos_for_entry(&e, None), &["Nintendo_-_Game_Boy"]);
    e.system_id = "gbc".to_string();
    e.file_path = "/nope/some.gbc".to_string();
    assert_eq!(repos_for_entry(&e, None), &["Nintendo_-_Game_Boy_Color"]);
}

#[test]
fn sanitize_strips_windows_forbidden_chars() {
    assert_eq!(sanitize_filename_stem("X: Beyond Frontier"), "X_ Beyond Frontier");
    assert_eq!(sanitize_filename_stem("Whoa?!"), "Whoa_!");
    assert_eq!(sanitize_filename_stem("a/b\\c|d*e"), "a_b_c_d_e");
    assert_eq!(sanitize_filename_stem("Final Fantasy V <fan-dub>"), "Final Fantasy V _fan-dub_");
}

#[test]
fn sanitize_handles_empty_and_trim_only_input() {
    assert_eq!(sanitize_filename_stem(""), "_");
    assert_eq!(sanitize_filename_stem("..."), "_");
    assert_eq!(sanitize_filename_stem("   "), "_");
}

#[test]
fn sanitize_strips_trailing_dot_and_space() {
    assert_eq!(sanitize_filename_stem("Sonic the Hedgehog ."), "Sonic the Hedgehog");
    assert_eq!(sanitize_filename_stem("foo. . "), "foo");
}

#[test]
fn sanitize_avoids_reserved_dos_names() {
    assert_eq!(sanitize_filename_stem("CON"), "CON_");
    assert_eq!(sanitize_filename_stem("con"), "con_");
    assert_eq!(sanitize_filename_stem("LPT1"), "LPT1_");
    assert_eq!(sanitize_filename_stem("CONTRA"), "CONTRA");
}

#[test]
fn sanitize_strips_control_chars() {
    let s = format!("hello{}world", '\x07');
    assert_eq!(sanitize_filename_stem(&s), "hello_world");
}

#[test]
fn sanitize_reserved_edge_cases() {
    assert_eq!(sanitize_filename_stem("com9"), "com9_");
    assert_eq!(sanitize_filename_stem("COM0"), "COM0");
    assert_eq!(sanitize_filename_stem("Aux."), "Aux_");
    assert_eq!(sanitize_filename_stem("nul "), "nul_");
}

#[test]
fn rom_stem_strips_extension_and_directory() {
    assert_eq!(
        rom_stem_from_path("C:\\ROMs\\Genesis\\Sonic the Hedgehog (USA).md"),
        "Sonic the Hedgehog (USA)"
    );
    assert_eq!(rom_stem_from_path("/home/me/roms/snes/Super Metroid.smc"), "Super Metroid");
}

#[test]
fn rom_stem_sanitizes_in_one_pass() {
    assert_eq!(rom_stem_from_path("/roms/X: Beyond Frontier.iso"), "X_ Beyond Frontier");
}

#[test]
fn rom_stem_empty_path_returns_underscore() {
    assert_eq!(rom_stem_from_path(""), "_");
}

#[test]
fn rom_stem_path_edge_cases() {
    assert_eq!(rom_stem_from_path("/roms/pcecd/Y's IV.cue"), "Y's IV");
    assert_eq!(rom_stem_from_path("/roms/.hidden"), ".hidden");
    assert_eq!(rom_stem_from_path("/roms/game.tar.gz"), "game.tar");
    assert_eq!(rom_stem_from_path("/roms/dir/"), "dir");
    assert_eq!(rom_stem_from_path("/roms/dir/."), "dir");
    assert_eq!(rom_stem_from_path("/roms/.."), "_");
    assert_eq!(rom_stem_from_path("/"), "_");
}

#[test]
fn media_path_for_slot_primary() {
    assert_eq!(
        media_path_for_slot("genesis", MediaKind::BoxFront, "Sonic", "png", None),
        "media/genesis/box-front/Sonic.png"
    );
    assert_eq!(
        media_path_for_slot("snes", MediaKind::ClearLogo, "Super Mario World", "png", Some(1)),
        "media/snes/clear-logo/Super Mario World.png"
    );
}

#[test]
fn media_path_for_slot_variant_suffix() {
    assert_eq!(
        media_path_for_slot("genesis", MediaKind::BoxFront, "Sonic", "png", Some(2)),
        "media/genesis/box-front/Sonic-02.png"
    );
    assert_eq!(
        media_path_for_slot("tg16", MediaKind::ScreenshotGameplay, "Bonk", "jpg", Some(10)),
        "media/tg16/screenshot-gameplay/Bonk-10.jpg"
    );
}

#[test]
fn variant_suffix_widths() {
    assert_eq!(variant_file_name("Sonic", "png", 0), "Sonic.png");
    assert_eq!(variant_file_name("Sonic", "png", 9), "Sonic-09.png");
    assert_eq!(variant_file_name("Sonic", "png", 99), "Sonic-99.png");
    assert_eq!(variant_file_name("Sonic", "png", 123), "Sonic-123.png");
    assert_eq!(variant_file_name("Sonic", "png", 4294967295), "Sonic-4294967295.png");
}

#[test]
fn media_kind_parse_accepts_kebab_case() {
    assert_eq!(MediaKind::parse("box-front"), Some(MediaKind::BoxFront));
    assert_eq!(MediaKind::parse("screenshot-gameplay"), Some(MediaKind::ScreenshotGameplay));
    assert_eq!(MediaKind::parse("clear-logo"), Some(MediaKind::ClearLogo));
    assert_eq!(MediaKind::parse("arcade-marquee"), Some(MediaKind::ArcadeMarquee));
    assert_eq!(MediaKind::parse("manual"), Some(MediaKind::Manual));
}

#[test]
fn media_kind_parse_accepts_v1_aliases() {
    assert_eq!(MediaKind::parse("boxart"), Some(MediaKind::BoxFront));
    assert_eq!(MediaKind::parse("snap"), Some(MediaKind::ScreenshotGameplay));
    assert_eq!(MediaKind::parse("title"), Some(MediaKind::ScreenshotTitle));
    assert_eq!(MediaKind::parse("cart"), Some(MediaKind::CartFront));
    assert_eq!(MediaKind::parse("disc"), Some(MediaKind::Disc));
}

#[test]
fn media_kind_parse_rejects_unknown() {
    assert_eq!(MediaKind::parse("unknown"), None);
    assert_eq!(MediaKind::parse(""), None);
    assert_eq!(MediaKind::parse("Box-Front"), None);
}

#[test]
fn media_kind_as_str_returns_kebab_case() {
    assert_eq!(MediaKind::BoxFront.as_str(), "box-front");
    assert_eq!(MediaKind::ScreenshotGameplay.as_str(), "screenshot-gameplay");
    assert_eq!(MediaKind::ClearLogo.as_str(), "clear-logo");
    assert_eq!(MediaKind::Disc.as_str(), "disc");
    assert_eq!(MediaKind::Manual.as_str(), "manual");
}

#[test]
fn media_kind_all_covers_every_variant_via_round_trip() {
    for &k in MediaKind::ALL.iter() {
        assert_eq!(MediaKind::parse(k.as_str()), Some(k));
    }
    assert_eq!(MediaKind::ALL.len(), 27);
    assert_eq!(MediaKind::all(), MediaKind::ALL.to_vec());
}

#[test]
fn libretro_thumbnails_subdir_only_three_kinds() {
    assert_eq!(MediaKind::BoxFront.libretro_thumbnails_subdir(), Some("Named_Boxarts"));
    assert_eq!(MediaKind::ScreenshotGameplay.libretro_thumbnails_subdir(), Some("Named_Snaps"));
    assert_eq!(MediaKind::ScreenshotTitle.libretro_thumbnails_subdir(), Some("Named_Titles"));
    for &k in MediaKind::ALL.iter() {
        match k {
            MediaKind::BoxFront | MediaKind::ScreenshotGameplay | MediaKind::ScreenshotTitle => {}
            _ => assert_eq!(
                k.libretro_thumbnails_subdir(),
                None,
                "{:?} unexpectedly has an upstream subdir",
                k,
            ),
        }
    }
}

#[test]
fn selected_media_set_and_get_round_trip_every_kind() {
    for (i, &k) in MediaKind::ALL.iter().enumerate() {
        let mut sel = SelectedMedia::default();
        sel.set_for_kind(k, Some(i));
        assert_eq!(sel.get_for_kind(k), Some(i), "round-trip failed for {:?}", k);
        sel.set_for_kind(k, None);
        assert_eq!(sel.get_for_kind(k), None, "clear failed for {:?}", k);
    }
}

#[test]
fn setting_one_pin_leaves_the_others() {
    let mut sel = SelectedMedia::default();
    sel.set_for_kind(MediaKind::Banner, Some(3));
    sel.set_for_kind(MediaKind::Music, Some(5));
    assert_eq!(sel.get_for_kind(MediaKind::Banner), Some(3));
    assert_eq!(MediaKind::Music.pinned_index(Some(&sel)), Some(5));
    assert_eq!(MediaKind::Video.pinned_index(Some(&sel)), None);
    assert_eq!(MediaKind::Music.pinned_index(None), None);
}

#[test]
fn region_names_round_trip() {
    assert_eq!(Region::parse("USA"), Region::Known(KnownRegion::USA));
    assert_eq!(Region::parse("Brazil"), Region::Other("Brazil".to_string()));
    assert_eq!(Region::parse("usa"), Region::Other("usa".to_string()));
    for name in ["USA", "Japan", "Europe", "World", "Asia", ""] {
        assert_eq!(Region::parse(name).as_str(), name);
    }
}

#[test]
fn variants_mut_changes_one_slot() {
    let mut gm = GameMedia::default();
    MediaKind::ClearLogo.variants_mut(&mut gm).push(variant(None));
    assert_eq!(MediaKind::ClearLogo.variants(&gm).len(), 1);
    assert_eq!(gm.clear_logo.len(), 1);
    assert!(gm.box_front.is_empty());
}

#[test]
fn synced_variant_replaces_same_path_and_keeps_manual() {
    let mut gm = GameMedia::default();
    let manual = MediaVariant { source: MediaSource::Manual, path: "a.png".into(), ..variant(None) };
    apply_synced_variant(&mut gm, MediaKind::BoxFront, manual);
    let synced = MediaVariant { path: "a.png".into(), width: Some(1), ..variant(None) };
    apply_synced_variant(&mut gm, MediaKind::BoxFront, synced);
    assert_eq!(gm.box_front.len(), 2);
    let again = MediaVariant { path: "a.png".into(), width: Some(2), ..variant(None) };
    apply_synced_variant(&mut gm, MediaKind::BoxFront, again);
    assert_eq!(gm.box_front.len(), 2);
    assert_eq!(gm.box_front[0].source, MediaSource::Manual);
    assert_eq!(gm.box_front[1].width, Some(2));
    assert!(gm.screenshot_title.is_empty());
}

#[test]
fn sync_kinds_filter_and_default() {
    let names: Vec<String> = vec!["snap".into(), "clear-logo".into(), "bogus".into(), "box-front".into()];
    assert_eq!(enabled_sync_kinds(&names), vec![MediaKind::ScreenshotGameplay, MediaKind::BoxFront]);
    let none: Vec<String> = vec!["manual".into()];
    assert_eq!(
        enabled_sync_kinds(&none),
        vec![MediaKind::BoxFront, MediaKind::ScreenshotGameplay, MediaKind::ScreenshotTitle]
    );
    let prefs = MediaPrefs::default();
    assert_eq!(prefs.region_priority, vec!["USA", "World", "Europe", "Japan"]);
    assert_eq!(
        enabled_sync_kinds(&prefs.kinds_to_fetch),
        vec![MediaKind::BoxFront, MediaKind::ScreenshotGameplay, MediaKind::ScreenshotTitle]
    );
    assert!(prefs.only_sync_identified);
}

#[test]
fn content_types_by_extension() {
    assert_eq!(content_type_for("media/a/b.PNG"), "image/png");
    assert_eq!(content_type_for("x.jpeg"), "image/jpeg");
    assert_eq!(content_type_for("x.JPG"), "image/jpeg");
    assert_eq!(content_type_for("x.webp"), "image/webp");
    assert_eq!(content_type_for("x.gif"), "application/octet-stream");
    assert_eq!(content_type_for(".png"), "application/octet-stream");
}

#[test]
fn image_magic_and_symlink_targets() {
    assert!(is_image_magic(b"\x89PNG\r\n\x1a\nrest"));
    assert!(is_image_magic(b"\xff\xd8\xff\xe0"));
    assert!(is_image_magic(b"GIF89a...."));
    assert!(is_image_magic(b"RIFF\0\0\0\0WEBPVP8 "));
    assert!(!is_image_magic(b"RIFF\0\0\0\0WAVE"));
    assert!(is_image_magic(b"BM0123456789abc"));
    assert!(!is_image_magic(b"BM0123456789ab"));
    assert!(!is_image_magic(b"<html>"));
    assert!(looks_like_same_dir_symlink_target(b"Sonic the Hedgehog (USA).png"));
    assert!(looks_like_same_dir_symlink_target(b"  Other.png "));
    assert!(!looks_like_same_dir_symlink_target(b"../x.png"));
    assert!(!looks_like_same_dir_symlink_target(b"a/b.png"));
    assert!(!looks_like_same_dir_symlink_target(b"   "));
    assert!(!looks_like_same_dir_symlink_target(b""));
    assert!(!looks_like_same_dir_symlink_target(b"x\n"));
    assert!(!looks_like_same_dir_symlink_target(&[b'a'; 513]));
}

#[test]
fn pc_engine_repo_by_extension() {
    assert_eq!(repo_for_extension("sgx"), "NEC_-_PC_Engine_SuperGrafx");
    assert_eq!(repo_for_extension("chd"), "NEC_-_PC_Engine_CD_-_TurboGrafx-CD");
    assert_eq!(repo_for_extension("pce"), "NEC_-_PC_Engine_-_TurboGrafx_16");
}

#[test]
fn repo_tree_listing_per_kind() {
    let t = RepoTree { boxarts: vec!["a".into()], snaps: vec![], titles: vec!["b".into(), "c".into()] };
    assert_eq!(t.for_kind(MediaKind::BoxFront).len(), 1);
    assert_eq!(t.for_kind(MediaKind::ScreenshotTitle).len(), 2);
    assert!(t.for_kind(MediaKind::Banner).is_empty());
}

#[test]
fn media_requests_parse_or_refuse() {
    let r = parse_media_request("/tg16/rom-1/boxart/thumb.webp", Some("x=1&i=2")).unwrap();
    assert_eq!(r.rom_id, "rom-1");
    assert_eq!(r.kind, MediaKind::BoxFront);
    assert_eq!(r.size, MediaSize::Thumb);
    assert_eq!(r.explicit_index, Some(2));
    let r = parse_media_request("//tg16/rom-1/snap/full", None).unwrap();
    assert_eq!(r.size, MediaSize::Full);
    assert_eq!(r.explicit_index, None);
    let r = parse_media_request("/a/b/title/full.png", Some("i=x&i=+7")).unwrap();
    assert_eq!(r.explicit_index, Some(7));
    assert_eq!(
        parse_media_request("/tg16/rom-1/boxart", None).unwrap_err(),
        "expected oa-media://localhost/<systemId>/<romId>/<kind>/<size>.<ext>"
    );
    assert_eq!(parse_media_request("/a/b/poster/full.png", None).unwrap_err(), "unknown kind");
    assert_eq!(parse_media_request("/a/b/boxart/huge.png", None).unwrap_err(), "size must be thumb or full");
}

#[test]
fn request_variant_choice_and_served_file() {
    let mut gm = GameMedia::default();
    gm.box_front.push(variant(Some("Japan")));
    let mut usa = variant(Some("USA"));
    usa.thumb_path = Some("t.webp".into());
    gm.box_front.push(usa);
    let prio: Vec<String> = vec!["USA".into()];
    assert_eq!(choose_variant(&gm, MediaKind::BoxFront, None, &prio), Some(1));
    assert_eq!(choose_variant(&gm, MediaKind::BoxFront, Some(0), &prio), Some(0));
    assert_eq!(choose_variant(&gm, MediaKind::BoxFront, Some(5), &prio), None);
    let mut sel = SelectedMedia::default();
    sel.set_for_kind(MediaKind::BoxFront, Some(0));
    gm.selected = Some(sel);
    assert_eq!(choose_variant(&gm, MediaKind::BoxFront, None, &prio), Some(0));
    assert_eq!(choose_variant(&gm, MediaKind::Banner, None, &prio), None);
    assert_eq!(served_file(&gm.box_front[1], MediaSize::Thumb), "t.webp");
    assert_eq!(served_file(&gm.box_front[1], MediaSize::Full), "x");
    assert_eq!(served_file(&gm.box_front[0], MediaSize::Thumb), "x");
}

#[test]
fn next_variant_filename_takes_the_primary_in_an_empty_folder() {
    let dir = std::path::PathBuf::from("/nonexistent-oa-media-dir/boxart");
    assert_eq!(next_variant_filename(&dir, "Tetris (World)", "png"), "Tetris (World).png");
}

fn entry(id: &str, system_id: &str, path: &str) -> SyncRomEntry {
    SyncRomEntry {
        id: id.to_string(),
        title: id.to_string(),
        file_path: path.to_string(),
        system_id: system_id.to_string(),
        sha1: None,
    }
}

fn summary() -> SyncSummary {
    SyncSummary { system_id: "gb".into(), total: 9, matched: 0, downloaded: 0, cached: 0, unmatched: 0, errors: 0 }
}

#[test]
fn entries_group_by_repository_in_name_order() {
    let entries = vec![
        entry("a", "gb", "/r/a.gb"),
        entry("b", "nosuchsystem", "/r/b.bin"),
        entry("c", "genesis", "/r/c.md"),
        entry("d", "gb", "/r/d.gb"),
    ];
    let heads = vec![None, None, None, None];
    let (groups, skipped) = group_by_repo(&entries, &heads);
    assert_eq!(skipped, 1);
    let names: Vec<&str> = groups.iter().map(|g| g.0.as_str()).collect();
    let mut sorted = names.clone();
    sorted.sort();
    assert_eq!(names, sorted, "repositories come in name order");
    for g in &groups {
        if g.0.contains("Genesis") {
            assert_eq!(g.1, vec![2]);
        } else {
            assert_eq!(g.1, vec![0, 3], "{} lists both Game Boy entries", g.0);
        }
    }
    // Game Boy art lives in two repositories; each gets both entries.
    assert_eq!(groups.iter().filter(|g| g.1 == vec![0, 3]).count(), repos_for_system_id("gb").len());
    assert_eq!(sync_work_units(&groups, 3), (2 * repos_for_system_id("gb").len() + 1) * 3);
}

#[test]
fn sync_results_are_tallied() {
    let mut s = summary();
    record_sync_result(&mut s, SyncResult::Downloaded);
    record_sync_result(&mut s, SyncResult::Cached);
    record_sync_result(&mut s, SyncResult::NoMatch);
    record_sync_result(&mut s, SyncResult::Failed);
    assert_eq!((s.matched, s.downloaded, s.cached, s.unmatched, s.errors), (2, 1, 1, 1, 1));
    assert_eq!(sync_action(MediaKind::BoxFront, SyncResult::Cached), "box-front: cached");
    assert_eq!(sync_action(MediaKind::BoxFront, SyncResult::Failed), "box-front: error");
    let line = record_repo_unavailable(&mut s, 6, "Nintendo_-_Game_Boy");
    assert_eq!(line, "repo unavailable: Nintendo_-_Game_Boy");
    assert_eq!(s.errors, 7);
    let line = record_kind_missing(&mut s, 4, MediaKind::BoxFront);
    assert_eq!(line, "box-front: not in repo");
    assert_eq!(s.unmatched, 5);
    assert_eq!(s.total, 9);
}

#[test]
fn canonical_match_ignores_case_and_extension() {
    let parsed: Vec<_> = ["Other (USA).png", "Tetris (World).png", "tetris (world).png"]
        .iter()
        .map(|f| oa_shell::normalize::parse_upstream(f.to_string()))
        .collect();
    assert_eq!(canonical_upstream_match(&parsed, "TETRIS (World)"), Some(1));
    assert_eq!(canonical_upstream_match(&parsed, "Tetris"), None);
}

#[test]
fn sync_paths_are_keyed_by_system_and_folder() {
    assert_eq!(
        sync_cache_path("gb", "Named_Boxarts", "Tetris (World).png"),
        "media/cache/libretro-thumbnails/gb/Named_Boxarts/Tetris (World).png"
    );
    assert_eq!(
        sync_thumb_path("gb", "Named_Boxarts", "0123456789abcdef0123"),
        "media/thumbs/gb/Named_Boxarts/0123456789abcdef.webp"
    );
    assert_eq!(sync_thumb_path("gb", "x", "abc"), "media/thumbs/gb/x/abc.webp");
}

#[test]
fn recorded_sha1_of_synced_art() {
    let mut gm = GameMedia::default();
    let mut manual = variant(None);
    manual.source = MediaSource::Manual;
    manual.path = "p".into();
    manual.sha1 = Some("m".into());
    gm.box_front.push(manual);
    assert_eq!(recorded_sync_sha1(&gm, MediaKind::BoxFront, "p"), None);
    let v = synced_variant(Some("USA"), "p".into(), "t".into(), Some(4), Some(3), "s".into(), 12);
    assert!(matches!(v.source, MediaSource::LibretroThumbnails));
    assert_eq!(v.thumb_path.as_deref(), Some("t"));
    assert_eq!(v.bytes, Some(12));
    gm.box_front.push(v);
    assert_eq!(recorded_sync_sha1(&gm, MediaKind::BoxFront, "p").as_deref(), Some("s"));
    assert_eq!(recorded_sync_sha1(&gm, MediaKind::BoxBack, "p"), None);
}

#[test]
fn tree_cache_lasts_a_day() {
    assert!(tree_cache_fresh(100, 100 + 86_399));
    assert!(!tree_cache_fresh(100, 100 + 86_400));
    assert!(tree_cache_fresh(200, 100));
}

#[test]
fn manual_art_replaces_manual_and_leads() {
    let mut gm = GameMedia::default();
    let mut old_manual = variant(None);
    old_manual.source = MediaSource::Manual;
    old_manual.path = "old".into();
    let mut synced = variant(Some("USA"));
    synced.path = "synced".into();
    gm.box_front = vec![old_manual, synced];
    gm.selected = Some(SelectedMedia::default());
    gm.selected.as_mut().unwrap().set_for_kind(MediaKind::BoxFront, Some(1));
    let mut fresh = variant(None);
    fresh.source = MediaSource::Manual;
    fresh.path = "new".into();
    install_manual_variant(&mut gm, MediaKind::BoxFront, fresh);
    let paths: Vec<&str> = gm.box_front.iter().map(|v| v.path.as_str()).collect();
    assert_eq!(paths, vec!["new", "synced"]);
    assert_eq!(gm.selected.as_ref().unwrap().get_for_kind(MediaKind::BoxFront), None);
}

#[test]
fn manual_cover_names_and_kinds() {
    assert_eq!(manual_thumb_path("snes", "0123456789abcdef99"), "media/thumbs/snes/0123456789abcdef.webp");
    assert_eq!(manual_cover_kind(None), Ok(MediaKind::BoxFront));
    assert_eq!(manual_cover_kind(Some("")), Ok(MediaKind::BoxFront));
    assert_eq!(manual_cover_kind(Some("box-back")), Ok(MediaKind::BoxBack));
    assert_eq!(manual_cover_kind(Some("nope")), Err("unknown kind: nope".to_string()));
    assert_eq!(manual_rom_stem(Some(("/roms/Sonic.md", None)), "id1"), "Sonic");
    assert_eq!(manual_rom_stem(Some(("/roms/set.zip", Some("inner/Tails.md"))), "id1"), "Tails");
    assert_eq!(manual_rom_stem(None, "rom:1"), sanitize_filename_stem("rom:1"));
}

#[test]
fn stored_art_formats() {
    let png = [0x89u8, b'P', b'N', b'G', 0x0D, 0x0A, 0x1A, 0x0A, 0, 0, 0, 0];
    assert_eq!(detect_format(&png), Ok("png"));
    let jpeg = [0xFFu8, 0xD8, 0xFF, 0xE0, 0, 0];
    assert_eq!(detect_format(&jpeg), Ok("jpg"));
    let err = detect_format(b"plain text").unwrap_err();
    assert!(err.starts_with("not an image: "), "{err}");
    assert_eq!(ext_for_guess(&ImageGuess::WebP), Ok("webp"));
    assert_eq!(
        ext_for_guess(&ImageGuess::Other("Gif".into())),
        Err("unsupported image format: Gif".to_string())
    );
    let gif = b"GIF89a\x00\x00";
    assert_eq!(detect_format(gif), Err("unsupported image format: Gif".to_string()));
}

#[test]
fn kinds_to_fetch_keeps_known_names_in_order() {
    let kinds: Vec<String> = vec!["snap".into(), "bogus".into(), "box-front".into(), "Boxart".into(), "manual".into()];
    assert_eq!(known_kind_names(&kinds), vec!["snap".to_string(), "box-front".to_string(), "manual".to_string()]);
    assert!(known_kind_names(&[]).is_empty());
}

#[test]
fn pinning_creates_the_pin_record_and_keeps_other_pins() {
    let mut gm = GameMedia::default();
    pin_variant(&mut gm, MediaKind::ScreenshotTitle, 2);
    let sel = gm.selected.clone().unwrap();
    assert_eq!(sel.get_for_kind(MediaKind::ScreenshotTitle), Some(2));
    assert_eq!(sel.get_for_kind(MediaKind::BoxFront), None);
    pin_variant(&mut gm, MediaKind::BoxFront, 0);
    pin_variant(&mut gm, MediaKind::ScreenshotTitle, 5);
    let sel = gm.selected.unwrap();
    assert_eq!(sel.get_for_kind(MediaKind::BoxFront), Some(0));
    assert_eq!(sel.get_for_kind(MediaKind::ScreenshotTitle), Some(5));
}

#[test]
fn thumbnail_url_percent_encodes_the_file_name() {
    assert_eq!(
        thumbnail_url("Nintendo_-_Game_Boy", "Named_Boxarts", "Tetris (World) (Rev 1).png"),
        "https://github.com/libretro-thumbnails/Nintendo_-_Game_Boy/raw/master/Named_Boxarts/Tetris%20%28World%29%20%28Rev%201%29.png"
    );
    assert_eq!(
        thumbnail_url("r", "s", "Pok\u{e9}mon_&~x.png"),
        "https://github.com/libretro-thumbnails/r/raw/master/s/Pok%C3%A9mon_%26~x.png"
    );
}

#[test]
fn head_preview_masks_unprintable_bytes() {
    assert_eq!(head_preview(b"<html>\n\x00ok", 48), "<html>..ok");
    assert_eq!(head_preview(b"abcdef", 3), "abc");
    assert_eq!(head_preview(b"", 3), "");
}

#[test]
fn download_step_sorts_images_symlinks_and_junk() {
    assert!(matches!(download_step("u", b"\x89PNG\r\n\x1a\nrest"), DownloadStep::Image));
    match download_step("u", b"  Tetris (World).png ") {
        DownloadStep::Follow(t) => assert_eq!(t, "Tetris (World).png"),
        other => panic!("{other:?}"),
    }
    match download_step("https://x/y.png", b"<html>\n404") {
        DownloadStep::Refuse(m) => assert_eq!(m, "non-image response from https://x/y.png (10 bytes, head=`<html>.404`)"),
        other => panic!("{other:?}"),
    }
    // A link that climbs out of the directory is no symlink to follow.
    assert!(matches!(download_step("u", b"../other.png"), DownloadStep::Refuse(_)));
}

#[test]
fn symlink_hops_stop_on_loops_and_limits() {
    let seen = vec!["a.png".to_string(), "b.png".to_string()];
    assert_eq!(symlink_loop_error(&seen, "b.png", "a.png"), Some("symlink loop starting from a.png".to_string()));
    assert_eq!(symlink_loop_error(&seen, "c.png", "a.png"), None);
    assert_eq!(too_many_hops_error(4, "a.png"), "too many symlink hops (>4) starting from a.png");
}

#[test]
fn manual_art_is_placed_by_slot_and_content_hash() {
    let art = manual_art("gb", MediaKind::BoxFront, "Tetris", "png", b"abc");
    assert_eq!(art.cover_path, "media/gb/box-front/Tetris.png");
    assert_eq!(art.sha1, "a9993e364706816aba3e25717850c26c9cd0d89d");
    assert_eq!(art.thumb_path, "media/thumbs/gb/a9993e364706816a.webp");
    let v = manual_variant(art, Some(300), Some(200), 3);
    assert_eq!(v.source, MediaSource::Manual);
    assert_eq!(v.path, "media/gb/box-front/Tetris.png");
    assert_eq!(v.thumb_path.as_deref(), Some("media/thumbs/gb/a9993e364706816a.webp"));
    assert_eq!((v.width, v.height, v.bytes), (Some(300), Some(200), Some(3)));
}

#[test]
fn repo_tree_keeps_pngs_of_the_three_named_folders() {
    let paths: Vec<String> = vec![
        "Named_Boxarts/Tetris (World).png".into(),
        "Named_Snaps/Tetris (World).png".into(),
        "Named_Titles/Tetris (World).png".into(),
        "Named_Boxarts/readme.txt".into(),
        "Named_Logos/Tetris (World).png".into(),
        "Named_Boxarts".into(),
        "Named_Boxarts/Dr. Mario (World).png".into(),
    ];
    let t = repo_tree_from_paths(&paths);
    assert_eq!(t.boxarts, vec!["Tetris (World).png".to_string(), "Dr. Mario (World).png".to_string()]);
    assert_eq!(t.snaps, vec!["Tetris (World).png".to_string()]);
    assert_eq!(t.titles, vec!["Tetris (World).png".to_string()]);
}

#[test]
fn tree_cache_file_is_versioned_per_repo() {
    assert_eq!(tree_cache_file("Nintendo_-_Game_Boy"), "media/cache/index-Nintendo_-_Game_Boy.v2.json");
}

#[test]
fn next_variant_filename_returns_primary_when_empty() {
    // An empty folder: the primary name is free.
    assert_eq!(first_free_variant("Sonic", "png", &[false], 0), "Sonic.png");
}

#[test]
fn next_variant_filename_skips_existing() {
    // `Sonic.png` exists.
    assert_eq!(first_free_variant("Sonic", "png", &[true, false], 0), "Sonic-02.png");
    // `Sonic.png` and `Sonic-02.png` exist.
    assert_eq!(first_free_variant("Sonic", "png", &[true, true, false], 0), "Sonic-03.png");
    let mut taken = vec![true; 11];
    taken.push(false);
    assert_eq!(first_free_variant("Sonic", "png", &taken, 0), "Sonic-12.png");
}

#[test]
fn variant_names_past_the_last_number_carry_a_stamp() {
    assert_eq!(first_free_variant("Tetris", "png", &[true; 99], 1700000000123), "Tetris-1700000000123.png");
    assert_eq!(first_free_variant("Tetris", "png", &[true; 120], 7), "Tetris-7.png");
}

#[test]
fn webp_containers_are_kept_as_webp() {
    assert_eq!(detect_format(b"RIFF\x10\x00\x00\x00WEBPVP8 "), Ok("webp"));
    // A RIFF container of something else is no image this shell keeps.
    assert!(detect_format(b"RIFF\x10\x00\x00\x00WAVEfmt ").is_err());
}
