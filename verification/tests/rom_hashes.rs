use oa_shell::rom_hashes::{disc_fuzzy_index, libretro_dat_url, mame_dat_ref, oversize_error, MAX_ROM_BYTES};
use oa_shell::system_descriptor::LibretroDatRef;
use oa_shell::rom_hashes::{
    auto_sync_needed, derive_track_mode, disc_filename_fuzzy_key, extract_disc_set_candidate,
    extract_track_number, is_cd_container_ext, is_disc_shape_system, parse_libretro_dat,
    parse_mame_dat, unquote, ParsedDat, TokenIter, hash_cache_usable, merge_disc_sets, merge_parsed_dats,
    DiscSetCandidate, GameSerialRow, RomHashRow,
};
use oa_shell::numbers::{parse_i64, parse_u32};

const SAMPLE_DAT: &str = r#"clrmamepro (
	name "NEC - PC Engine - TurboGrafx 16"
)

game (
	name "Bonk's Adventure (USA)"
	description "Bonk's Adventure (USA)"
	rom ( name "Bonk's Adventure (USA).pce" size 393216 crc 4F0BB6D2 md5 4F0BB6D24F0BB6D24F0BB6D24F0BB6D2 sha1 E22B706B22B706B22B706B22B706B22B706B22B7 )
	serial "TGX040080"
)

game (
	name "Air Zonk (USA)"
	description "Air Zonk (USA)"
	rom ( name "Air Zonk (USA).pce" size 524288 crc DEADBEEF sha1 abc123abc123abc123abc123abc123abc123abcd )
)
"#;

#[test]
fn parser_extracts_sha1_and_serial() {
    let ParsedDat { rom_hashes: entries, .. } = parse_libretro_dat(SAMPLE_DAT, "tg16");
    assert_eq!(entries.len(), 2, "expected 2 entries, got {entries:?}");
    let bonk = &entries[0];
    assert_eq!(bonk.game_name, "Bonk's Adventure (USA)");
    assert_eq!(bonk.serial.as_deref(), Some("TGX040080"));
    assert_eq!(bonk.sha1.len(), 40);
    assert_eq!(bonk.crc32.as_deref(), Some("4f0bb6d2"));
    assert_eq!(bonk.size_bytes, Some(393_216));
    let zonk = &entries[1];
    assert_eq!(zonk.game_name, "Air Zonk (USA)");
    assert_eq!(zonk.serial, None);
}

#[test]
fn parser_emits_game_serials_for_blocks_with_serials() {
    let ParsedDat { game_serials, .. } = parse_libretro_dat(SAMPLE_DAT, "tg16");
    // Sample has 2 game blocks; only Bonk has a serial.
    assert_eq!(game_serials.len(), 1);
    let bonk = &game_serials[0];
    assert_eq!(bonk.system_id, "tg16");
    assert_eq!(bonk.serial, "TGX040080");
    assert_eq!(bonk.canonical_title, "Bonk's Adventure (USA)");
    assert!(bonk.region.is_none());
}

#[test]
fn parser_dedupes_game_serials_by_serial() {
    // Two game blocks sharing the same serial → one game_serials row.
    // Mirrors libretro-database's habit of cataloging multiple
    // regional/revision dumps under one publisher catalog code.
    let dat = r#"
game (
	name "Foo (USA)"
	rom ( name "Foo.pce" size 1024 sha1 1111111111111111111111111111111111111111 )
	serial "TGX040000"
)

game (
	name "Foo (Japan)"
	rom ( name "Foo.pce" size 1024 sha1 2222222222222222222222222222222222222222 )
	serial "TGX040000"
)
"#;
    let ParsedDat { rom_hashes, game_serials, .. } = parse_libretro_dat(dat, "tg16");
    assert_eq!(rom_hashes.len(), 2, "both rom rows survive");
    assert_eq!(game_serials.len(), 1, "duplicate serials dedupe");
}

#[test]
fn disc_filename_fuzzy_key_normalizes_redump_filenames() {
    // Identical canonical + operator names produce identical keys.
    assert_eq!(
        disc_filename_fuzzy_key("Tomb Raider (USA).cue"),
        disc_filename_fuzzy_key("Tomb Raider (USA)")
    );
    // Different container shapes for the same game collapse to
    // the same key — covers .cue / .chd / .gdi / .iso / .zip.
    let canonical_key = disc_filename_fuzzy_key("Tomb Raider (USA)");
    assert_eq!(canonical_key, disc_filename_fuzzy_key("Tomb Raider (USA).cue"));
    assert_eq!(canonical_key, disc_filename_fuzzy_key("Tomb Raider (USA).chd"));
    assert_eq!(canonical_key, disc_filename_fuzzy_key("Tomb Raider (USA).gdi"));
    assert_eq!(canonical_key, disc_filename_fuzzy_key("Tomb Raider (USA).iso"));
    assert_eq!(canonical_key, disc_filename_fuzzy_key("Tomb Raider (USA).zip"));
    // Underscores + dashes + dots get collapsed to whitespace.
    assert_eq!(canonical_key, disc_filename_fuzzy_key("Tomb_Raider_(USA).cue"));
    assert_eq!(canonical_key, disc_filename_fuzzy_key("Tomb-Raider-(USA).cue"));
    assert_eq!(canonical_key, disc_filename_fuzzy_key("Tomb.Raider.(USA).cue"));
    // Mixed separators + case variations collapse.
    assert_eq!(
        canonical_key,
        disc_filename_fuzzy_key("TOMB-Raider_(usa).Cue")
    );
}

#[test]
fn disc_filename_fuzzy_key_preserves_regional_brackets() {
    // Critical: regional variants must NOT collide on the same
    // key. "Tomb Raider (USA)" and "Tomb Raider (Japan)" stamp
    // different canonical titles + serials.
    let usa = disc_filename_fuzzy_key("Tomb Raider (USA).cue");
    let japan = disc_filename_fuzzy_key("Tomb Raider (Japan).cue");
    let europe = disc_filename_fuzzy_key("Tomb Raider (Europe).cue");
    assert_ne!(usa, japan);
    assert_ne!(usa, europe);
    assert_ne!(japan, europe);
    // Multi-disc variants also stay distinct.
    let disc1 = disc_filename_fuzzy_key("Final Fantasy IX (USA) (Disc 1).cue");
    let disc2 = disc_filename_fuzzy_key("Final Fantasy IX (USA) (Disc 2).cue");
    assert_ne!(disc1, disc2);
}

#[test]
fn disc_filename_fuzzy_key_handles_no_extension_and_short_word_suffixes() {
    // No extension at all — leave the whole string in.
    assert_eq!(
        disc_filename_fuzzy_key("Tomb Raider (USA)"),
        "tomb raider (usa)"
    );
    // Suffix longer than 5 chars isn't treated as an extension —
    // catches "Final Fantasy VII Bootleg" not stripping "Bootleg".
    let key = disc_filename_fuzzy_key("Foo Bar Baz.SomeLongSuffix");
    assert!(key.contains("somelongsuffix"), "got: {key}");
}

#[test]
fn auto_sync_needed_cart_shape_fires_only_when_table_empty() {
    // Cart-shape systems gate on rom_hashes alone.
    assert!(auto_sync_needed(false, 0, 0));
    assert!(auto_sync_needed(false, 0, 999));
    assert!(!auto_sync_needed(false, 1, 0));
    assert!(!auto_sync_needed(false, 1234, 0));
}

#[test]
fn auto_sync_needed_disc_shape_fires_when_either_table_empty() {
    // Disc-shape systems require BOTH tables. Critical regression
    // guard: pre-Sub-phase 1 caches populated rom_hashes from the
    // redump dat but left rom_hashes_tracks empty; pre-fix the
    // gate keyed on rom_hashes alone and the per-track identify
    // path stayed dormant forever.
    assert!(auto_sync_needed(true, 0, 0));
    assert!(
        auto_sync_needed(true, 1234, 0),
        "rom_hashes populated but rom_hashes_tracks empty MUST fire sync"
    );
    assert!(
        auto_sync_needed(true, 0, 1234),
        "rom_hashes empty MUST fire sync regardless of track count"
    );
    assert!(!auto_sync_needed(true, 1234, 1234));
}

#[test]
fn parser_emits_per_track_rows_for_redump_style_dat() {
    // Redump dats list one `rom (...)` entry per track of a disc-
    // shape game. Per-track rows derive track_number from the
    // `(Track NN)` filename suffix, track_mode heuristically from
    // position (DATA for track 01, AUDIO for tracks 2+). The .cue
    // sidecar is skipped from the per-track output (sidecar SHA-1s
    // vary by dump tool and aren't useful for identification).
    let dat = r#"
game (
name "Tomb Raider (USA)"
description "Tomb Raider (USA)"
serial "SLUS-00152"
rom ( name "Tomb Raider (USA) (Track 01).bin" size 622272 crc AAAAAAAA sha1 1111111111111111111111111111111111111111 )
rom ( name "Tomb Raider (USA) (Track 02).bin" size 33840960 crc BBBBBBBB sha1 2222222222222222222222222222222222222222 )
rom ( name "Tomb Raider (USA).cue" size 312 crc CCCCCCCC sha1 3333333333333333333333333333333333333333 )
)
"#;
    let ParsedDat { rom_hashes_tracks, .. } = parse_libretro_dat(dat, "psx");
    assert_eq!(rom_hashes_tracks.len(), 2, "sidecar .cue is skipped");
    let t1 = &rom_hashes_tracks[0];
    assert_eq!(t1.game_name, "Tomb Raider (USA)");
    assert_eq!(t1.serial.as_deref(), Some("SLUS-00152"));
    assert_eq!(t1.track_number, 1);
    assert_eq!(t1.track_mode, "DATA");
    assert_eq!(t1.size_bytes, 622_272);
    let t2 = &rom_hashes_tracks[1];
    assert_eq!(t2.track_number, 2);
    assert_eq!(t2.track_mode, "AUDIO");
    assert_eq!(t2.size_bytes, 33_840_960);
}

#[test]
fn parser_skips_all_sidecar_extensions_from_track_rows() {
    let dat = r#"
game (
name "Sample Multi-Sidecar"
rom ( name "Sample (Track 01).bin" size 1024 sha1 1111111111111111111111111111111111111111 )
rom ( name "Sample.cue" size 100 sha1 2222222222222222222222222222222222222222 )
rom ( name "Sample.gdi" size 100 sha1 3333333333333333333333333333333333333333 )
rom ( name "Sample.toc" size 100 sha1 4444444444444444444444444444444444444444 )
rom ( name "Sample.ccd" size 100 sha1 5555555555555555555555555555555555555555 )
rom ( name "Sample.sub" size 100 sha1 6666666666666666666666666666666666666666 )
rom ( name "Sample.sbi" size 100 sha1 7777777777777777777777777777777777777777 )
rom ( name "Sample.sbx" size 100 sha1 8888888888888888888888888888888888888888 )
)
"#;
    let ParsedDat { rom_hashes_tracks, rom_hashes, .. } =
        parse_libretro_dat(dat, "psx");
    // Cart-shape rom_hashes keeps every entry (8 rows) — disc/cart
    // dispatch happens at sync time, not at parse time.
    assert_eq!(rom_hashes.len(), 8);
    // Disc-shape rom_hashes_tracks keeps only the .bin track.
    assert_eq!(rom_hashes_tracks.len(), 1);
    assert_eq!(rom_hashes_tracks[0].track_mode, "DATA");
}

#[test]
fn parser_track_number_falls_back_to_position_in_block() {
    // Single-track .iso with no `(Track NN)` suffix — track_number
    // defaults to 1 (position in block). Mode is MODE1/2048 for
    // .iso entries.
    let dat = r#"
game (
name "Quake III Arena (USA)"
rom ( name "Quake III Arena (USA).iso" size 1024 sha1 1111111111111111111111111111111111111111 )
)
"#;
    let ParsedDat { rom_hashes_tracks, .. } =
        parse_libretro_dat(dat, "dreamcast");
    assert_eq!(rom_hashes_tracks.len(), 1);
    assert_eq!(rom_hashes_tracks[0].track_number, 1);
    assert_eq!(rom_hashes_tracks[0].track_mode, "MODE1/2048");
}

#[test]
fn parser_detects_multi_disc_parent_groupings() {
    // Four discs sharing the base title "Final Fantasy IX (USA)"
    // collapse to one DiscSetCandidate with disc_count=4. The
    // single-disc "Standalone Game" entry produces no candidate.
    let dat = r#"
game (
name "Final Fantasy IX (USA) (Disc 1)"
rom ( name "FF9 (Disc 1) (Track 01).bin" size 1024 sha1 1111111111111111111111111111111111111111 )
)
game (
name "Final Fantasy IX (USA) (Disc 2)"
rom ( name "FF9 (Disc 2) (Track 01).bin" size 1024 sha1 2222222222222222222222222222222222222222 )
)
game (
name "Final Fantasy IX (USA) (Disc 3)"
rom ( name "FF9 (Disc 3) (Track 01).bin" size 1024 sha1 3333333333333333333333333333333333333333 )
)
game (
name "Final Fantasy IX (USA) (Disc 4)"
rom ( name "FF9 (Disc 4) (Track 01).bin" size 1024 sha1 4444444444444444444444444444444444444444 )
)
game (
name "Standalone Game (USA)"
rom ( name "Standalone (Track 01).bin" size 1024 sha1 5555555555555555555555555555555555555555 )
)
"#;
    let ParsedDat { disc_set_candidates, .. } =
        parse_libretro_dat(dat, "psx");
    assert_eq!(disc_set_candidates.len(), 1);
    let ff9 = &disc_set_candidates[0];
    assert_eq!(ff9.canonical_title, "Final Fantasy IX (USA)");
    assert_eq!(ff9.system_id, "psx");
    assert_eq!(ff9.disc_count, 4);
}

#[test]
fn parser_ignores_clrmamepro_header() {
    let ParsedDat { rom_hashes: entries, .. } = parse_libretro_dat(SAMPLE_DAT, "tg16");
    // Sample has 1 clrmamepro block + 2 game blocks. If the parser
    // ate the header, name="NEC - PC Engine - TurboGrafx 16" would
    // show up as a row.
    assert!(entries.iter().all(|e| e.game_name != "NEC - PC Engine - TurboGrafx 16"));
}

#[test]
fn parser_skips_rom_blocks_without_sha1() {
    let dat = r#"
game (
	name "No Hash Entry"
	rom ( name "X.pce" size 1024 crc 11111111 )
)
"#;
    let ParsedDat { rom_hashes: entries, .. } = parse_libretro_dat(dat, "tg16");
    assert!(entries.is_empty(), "rom block without sha1 should be skipped");
}

#[test]
fn token_iter_handles_quoted_values() {
    let mut it = TokenIter::new(r#"name "Bonk's Adventure (USA).pce" size 393216 sha1 ABC"#);
    let (k, v) = it.next_pair().unwrap();
    assert_eq!(k, "name");
    assert_eq!(v, "Bonk's Adventure (USA).pce");
    let (k, v) = it.next_pair().unwrap();
    assert_eq!(k, "size");
    assert_eq!(v, "393216");
    let (k, v) = it.next_pair().unwrap();
    assert_eq!(k, "sha1");
    assert_eq!(v, "ABC");
    assert!(it.next_pair().is_none());
}

#[test]
fn cd_container_extensions_are_filtered() {
    // Universal CD extensions are CD on EVERY system.
    for ext in ["cue", "chd", "ccd", "toc", "m3u"] {
        assert!(
            is_cd_container_ext(ext, "psx"),
            "{ext} should be a CD container on psx",
        );
        assert!(
            is_cd_container_ext(ext, "2600"),
            "{ext} is always a CD container even on cart systems (universal arm)",
        );
    }
    // Cart-system extensions are never CD.
    for ext in ["pce", "nes", "smc", "sfc", "lnx"] {
        assert!(
            !is_cd_container_ext(ext, "psx"),
            "{ext} should NOT be a CD container",
        );
    }
}

/// `.bin` and `.iso` only count as CD on disc systems. Pre-fix
/// `is_cd_container_ext("bin")` returned true universally, causing
/// 2600/Coleco/Intv/O2 `.bin` cart dumps to be routed to
/// peek_disc_id (which fails) instead of getting hashed normally.
#[test]
fn bin_and_iso_only_cd_on_disc_systems() {
    // Disc systems — .bin and .iso are CD containers.
    for system in ["pce-cd", "segacd", "saturn", "psx", "ps2", "neocd", "pcfx",
                   "gamecube", "dreamcast", "3do", "psp"] {
        assert!(
            is_cd_container_ext("bin", system),
            ".bin should be CD on {system}",
        );
        assert!(
            is_cd_container_ext("iso", system),
            ".iso should be CD on {system}",
        );
    }
    // Cart systems — .bin is the raw cart dump, must hash normally.
    for system in ["2600", "coleco", "intv", "o2", "channelf", "vectrex",
                   "virtualboy", "nes", "snes", "genesis"] {
        assert!(
            !is_cd_container_ext("bin", system),
            ".bin should NOT be a CD container on cart system {system}",
        );
        assert!(
            !is_cd_container_ext("iso", system),
            ".iso should NOT be a CD container on cart system {system}",
        );
    }
}


#[test]
fn disc_shape_systems() {
    assert!(is_disc_shape_system("psx"));
    assert!(is_disc_shape_system("gamecube"));
    assert!(!is_disc_shape_system("nes"));
    assert!(!is_disc_shape_system("PSX"));
}

#[test]
fn disc_and_track_tags() {
    assert_eq!(
        extract_disc_set_candidate("Final Fantasy IX (USA) (Disc 2)"),
        Some(("Final Fantasy IX (USA)".to_string(), 2))
    );
    assert_eq!(extract_disc_set_candidate("(Disc 1) Only Tag"), None);
    assert_eq!(extract_disc_set_candidate("Game (Disc x)"), None);
    assert_eq!(extract_disc_set_candidate("Game (Disc 3"), None);
    assert_eq!(extract_disc_set_candidate("Game (Disc  4 )"), Some(("Game".to_string(), 4)));
    assert_eq!(extract_track_number("Tomb Raider (USA) (Track 12).bin", 3), 12);
    assert_eq!(extract_track_number("Tomb Raider (USA).bin", 3), 3);
    assert_eq!(extract_track_number("X (Track 99999999999).bin", 7), 7);
    assert_eq!(derive_track_mode("A.CUE", 1), None);
    assert_eq!(derive_track_mode("A.Iso", 5).as_deref(), Some("MODE1/2048"));
    assert_eq!(derive_track_mode("A (Track 01).bin", 1).as_deref(), Some("DATA"));
    assert_eq!(derive_track_mode("A (Track 02).bin", 2).as_deref(), Some("AUDIO"));
}

#[test]
fn integer_parsing_matches_std() {
    for s in ["0", "-0", "+5", "-9223372036854775808", "9223372036854775807", "9223372036854775808",
              "-9223372036854775809", "", "-", "+", "1e3", " 1", "00012"] {
        assert_eq!(parse_i64(s), s.parse::<i64>().ok(), "i64 {s:?}");
        assert_eq!(parse_u32(s), s.parse::<u32>().ok(), "u32 {s:?}");
    }
}

#[test]
fn unquote_strips_one_pair() {
    assert_eq!(unquote("  \"Foo\"  "), "Foo");
    assert_eq!(unquote("\"\"x\"\""), "\"x\"");
    assert_eq!(unquote("\""), "\"");
    assert_eq!(unquote("plain"), "plain");
}

#[test]
fn token_iter_unterminated_quote_and_tabs() {
    let mut it = TokenIter::new("\tname \"Open ended\n");
    assert_eq!(it.next_pair(), Some(("name".to_string(), "Open ended\n".to_string())));
    assert_eq!(it.next_pair(), None);
    let mut it = TokenIter::new("key");
    assert_eq!(it.next_pair(), Some(("key".to_string(), String::new())));
    assert_eq!(it.next_pair(), None);
}

#[test]
fn parser_rom_fields_last_key_wins_and_size_parse() {
    let dat = "game (\n name \"G\"\n rom ( name a.bin sha1 AA sha1 BB size x crc Ff ))\n)\n";
    let ParsedDat { rom_hashes, rom_hashes_tracks, .. } = parse_libretro_dat(dat, "psx");
    assert_eq!(rom_hashes.len(), 1);
    assert_eq!(rom_hashes[0].sha1, "bb");
    assert_eq!(rom_hashes[0].crc32.as_deref(), Some("ff"));
    assert_eq!(rom_hashes[0].size_bytes, None);
    assert!(rom_hashes_tracks.is_empty(), "no size, no track row");
}

#[test]
fn parser_block_without_name_emits_nothing() {
    let dat = "game (\n rom ( name a.bin size 1 sha1 AA )\n serial \"S\"\n)\n";
    let ParsedDat { rom_hashes, game_serials, .. } = parse_libretro_dat(dat, "psx");
    assert!(rom_hashes.is_empty());
    assert!(game_serials.is_empty());
}

#[test]
fn parser_empty_serial_gives_no_serial_row() {
    let dat = "game (\n name \"G\"\n serial \"\"\n rom ( name a.bin size 1 sha1 AA )\n)\n";
    let ParsedDat { rom_hashes, game_serials, .. } = parse_libretro_dat(dat, "psx");
    assert_eq!(rom_hashes[0].serial.as_deref(), Some(""));
    assert!(game_serials.is_empty());
}

#[test]
fn disc_sets_sorted_and_need_two_distinct_discs() {
    let dat = "game (\n name \"Zeta (Disc 1)\"\n)\ngame (\n name \"Zeta (Disc 3)\"\n)\n\
               game (\n name \"Alpha (Disc 2)\"\n)\ngame (\n name \"Alpha (Disc 1)\"\n)\n\
               game (\n name \"Solo (Disc 1)\"\n)\ngame (\n name \"Solo (Disc 1)\"\n)\n";
    let ParsedDat { disc_set_candidates, .. } = parse_libretro_dat(dat, "saturn");
    let got: Vec<(String, u32)> =
        disc_set_candidates.iter().map(|c| (c.canonical_title.clone(), c.disc_count)).collect();
    assert_eq!(got, vec![("Alpha".to_string(), 2), ("Zeta".to_string(), 3)]);
    assert!(disc_set_candidates.iter().all(|c| c.system_id == "saturn"));
}

#[test]
fn mame_dat_rows_per_zip() {
    let dat = r#"
game (
    name "Street Fighter II: Champion Edition (World 920313)"
    year "1992"
    developer "Capcom"
    rom ( name SF2CE.zip size 5042192 crc XXXXX md5 XXXXX sha1 XXXXX )
    rom ( name sf2.bin size 1 )
    rom ( name sf2ua.zip )
)
game (
    year "1990"
    rom ( name noname.zip )
)
"#;
    let rows = parse_mame_dat(dat);
    assert_eq!(rows.len(), 2);
    assert_eq!(rows[0].rom_set, "sf2ce");
    assert_eq!(rows[0].title, "Street Fighter II: Champion Edition (World 920313)");
    assert_eq!(rows[0].year.as_deref(), Some("1992"));
    assert_eq!(rows[0].developer.as_deref(), Some("Capcom"));
    assert_eq!(rows[1].rom_set, "sf2ua");
}

fn dat(sha1s: &[&str], serials: &[(&str, &str)], discs: &[(&str, u32)]) -> ParsedDat {
    ParsedDat {
        rom_hashes: sha1s
            .iter()
            .map(|s| RomHashRow {
                sha1: s.to_string(),
                system_id: "psx".into(),
                game_name: format!("game {s}"),
                serial: None,
                crc32: None,
                size_bytes: None,
            })
            .collect(),
        game_serials: serials
            .iter()
            .map(|(serial, title)| GameSerialRow {
                system_id: "psx".into(),
                serial: serial.to_string(),
                canonical_title: title.to_string(),
                region: None,
            })
            .collect(),
        rom_hashes_tracks: Vec::new(),
        disc_set_candidates: discs
            .iter()
            .map(|(t, n)| DiscSetCandidate { canonical_title: t.to_string(), system_id: "psx".into(), disc_count: *n })
            .collect(),
    }
}

#[test]
fn merging_no_dat_gives_none() {
    assert!(merge_parsed_dats(Vec::new()).is_none());
}

#[test]
fn merging_dats_concatenates_and_dedupes() {
    let a = dat(&["a1", "a2"], &[("SLUS-1", "First"), ("SLUS-2", "Second")], &[("Saga", 2), ("Epic", 3)]);
    let b = dat(&["b1"], &[("SLUS-1", "First (alt)")], &[("Saga", 4), ("Alpha", 2)]);
    let m = merge_parsed_dats(vec![a, b]).expect("some DAT found");
    let shas: Vec<&str> = m.rom_hashes.iter().map(|r| r.sha1.as_str()).collect();
    assert_eq!(shas, vec!["a1", "a2", "b1"]);
    let serials: Vec<(&str, &str)> =
        m.game_serials.iter().map(|r| (r.serial.as_str(), r.canonical_title.as_str())).collect();
    assert_eq!(serials, vec![("SLUS-1", "First"), ("SLUS-2", "Second")]);
    let sets: Vec<(&str, u32)> =
        m.disc_set_candidates.iter().map(|d| (d.canonical_title.as_str(), d.disc_count)).collect();
    assert_eq!(sets, vec![("Alpha", 2), ("Epic", 3), ("Saga", 4)]);
}

#[test]
fn disc_sets_order_by_system_then_title() {
    let c = |sys: &str, t: &str, n: u32| DiscSetCandidate {
        canonical_title: t.to_string(),
        system_id: sys.to_string(),
        disc_count: n,
    };
    let out = merge_disc_sets(&vec![c("saturn", "A", 2), c("psx", "B", 3), c("psx", "A", 2), c("psx", "B", 2)]);
    assert_eq!(out, vec![c("psx", "A", 2), c("psx", "B", 3), c("saturn", "A", 2)]);
}

#[test]
fn hash_cache_reuse_rules() {
    assert!(hash_cache_usable("snes", 10, 0, 0, 100));
    assert!(!hash_cache_usable("psx", 10, 0, 0, 100), "disc systems need track rows too");
    assert!(hash_cache_usable("psx", 10, 4, 0, 100));
    assert!(!hash_cache_usable("snes", 0, 0, 0, 100));
    assert!(!hash_cache_usable("snes", 10, 0, 0, 86_400));
}

#[test]
fn dat_url_percent_encodes_the_basename() {
    let r = LibretroDatRef { subdir: "metadat/no-intro".into(), basename: "Nintendo - Game Boy".into() };
    assert_eq!(
        libretro_dat_url(&r),
        "https://raw.githubusercontent.com/libretro/libretro-database/master/metadat/no-intro/Nintendo%20-%20Game%20Boy.dat"
    );
    assert_eq!(
        libretro_dat_url(&mame_dat_ref()),
        "https://raw.githubusercontent.com/libretro/libretro-database/master/metadat/mame/MAME.dat"
    );
}

#[test]
fn disc_fuzzy_index_keeps_the_first_title_per_key() {
    let titles: Vec<String> = vec![
        "Final Fantasy VII (USA) (Disc 1)".into(),
        "final_fantasy_vii (usa) (disc 1)".into(),
        "Crash Bandicoot (USA)".into(),
    ];
    assert_eq!(
        disc_fuzzy_index(&titles),
        vec![("final fantasy vii (usa) (disc 1)".to_string(), 0), ("crash bandicoot (usa)".to_string(), 2)]
    );
}

#[test]
fn roms_over_the_cap_are_refused() {
    assert_eq!(oversize_error("/roms/a.bin", MAX_ROM_BYTES), None);
    assert_eq!(
        oversize_error("/roms/a.bin", MAX_ROM_BYTES + 1),
        Some("/roms/a.bin is 67108865 bytes, exceeds 67108864 byte cap \u{2014} refusing to load into memory".to_string())
    );
}
