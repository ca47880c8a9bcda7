use oa_shell::rom_header::{candidate_sha1s, HeaderRule, Sha1Candidate};
use oa_shell::rom_resolve::{
    cart_hash_keys, file_sha_fallback_eligible, last_action, per_track_eligible, progress_for,
    raw_sha1_of, record_outcome, resolve_job_label, GameOutcome, MameTitleSyncSummary,
    RomHashSyncSummary, RomResolveSummary, disc_outcome, disc_step, DiscAnswers, DiscStep, DiscVerdict,
};

fn fresh() -> RomResolveSummary {
    RomResolveSummary::new("psx".to_string(), 10, 4, 1)
}

#[test]
fn new_summary_starts_at_zero() {
    let s = fresh();
    assert_eq!((s.scanned, s.matched, s.unmatched, s.skipped_cd, s.errors), (0, 0, 0, 0, 0));
    assert_eq!((s.canonical_entries, s.library_total, s.already_identified), (10, 4, 1));
    assert_eq!(s.system_id, "psx");
}

#[test]
fn matches_count_scanned_and_matched() {
    let mut s = fresh();
    record_outcome(&mut s, &GameOutcome::FuzzyMatched { title: "A".into(), stamp_failed: false });
    record_outcome(&mut s, &GameOutcome::HashMatched { title: "B".into(), header_stripped: true, stamp_failed: true });
    assert_eq!((s.scanned, s.matched, s.unmatched, s.skipped_cd, s.errors), (2, 2, 0, 0, 1));
}

#[test]
fn file_sha_outcomes_do_not_count_as_scanned() {
    let mut s = fresh();
    record_outcome(&mut s, &GameOutcome::FileShaMatched { title: "A".into(), stamp_failed: false });
    record_outcome(&mut s, &GameOutcome::FileShaUnmatched { sha1: "ab".into() });
    record_outcome(&mut s, &GameOutcome::NoDiscSignature { ext: "chd".into() });
    assert_eq!((s.scanned, s.matched, s.unmatched, s.skipped_cd, s.errors), (0, 1, 1, 1, 0));
}

#[test]
fn read_failures_count_as_errors_only() {
    let mut s = fresh();
    record_outcome(&mut s, &GameOutcome::DiscReadFailed { message: "missing .bin".into() });
    record_outcome(&mut s, &GameOutcome::RomReadFailed { message: "denied".into() });
    record_outcome(&mut s, &GameOutcome::DiscIdUnmatched { disc_id: "SLUS-00001".into(), stamp_failed: false });
    record_outcome(&mut s, &GameOutcome::HashUnmatched { stamp_failed: false });
    assert_eq!((s.scanned, s.matched, s.unmatched, s.skipped_cd, s.errors), (2, 0, 2, 0, 2));
}

#[test]
fn progress_lines_name_the_path_taken() {
    assert_eq!(
        last_action(&GameOutcome::FuzzyMatched { title: "Game (Disc 1)".into(), stamp_failed: false }),
        "matched (filename) → Game (Disc 1)"
    );
    assert_eq!(
        last_action(&GameOutcome::DiscIdUnmatched { disc_id: "SLUS-00001".into(), stamp_failed: false }),
        "disc-id SLUS-00001 — no match"
    );
    assert_eq!(
        last_action(&GameOutcome::HashMatched { title: "Zelda".into(), header_stripped: false, stamp_failed: false }),
        "matched → Zelda"
    );
    assert_eq!(
        last_action(&GameOutcome::HashMatched { title: "Zelda".into(), header_stripped: true, stamp_failed: false }),
        "matched (header-stripped) → Zelda"
    );
    assert_eq!(last_action(&GameOutcome::HashUnmatched { stamp_failed: true }), "no match");
    assert_eq!(last_action(&GameOutcome::NoDiscSignature { ext: "chd".into() }), "no disc-id signature in .chd");
    assert_eq!(last_action(&GameOutcome::FileShaUnmatched { sha1: "abc".into() }), "file-sha1 abc — no match");
    assert_eq!(last_action(&GameOutcome::RomReadFailed { message: "x".into() }), "read error: x");
    assert_eq!(last_action(&GameOutcome::DiscReadFailed { message: "y".into() }), "disc-id read failed: y");
}

#[test]
fn progress_record_carries_counts_and_line() {
    let p = progress_for("gb", 3, 9, "Tetris", &GameOutcome::HashUnmatched { stamp_failed: false });
    assert_eq!((p.system_id.as_str(), p.done, p.total, p.current_title.as_str()), ("gb", 3, 9, "Tetris"));
    assert_eq!(p.last_action, "no match");
}

#[test]
fn job_label_depends_on_disc_shape() {
    let (label, unit) = resolve_job_label("psx");
    assert_eq!((label.as_str(), unit.as_str()), ("Identifying psx discs", "discs"));
    let (label, unit) = resolve_job_label("snes");
    assert_eq!((label.as_str(), unit.as_str()), ("Identifying snes ROMs", "games"));
}

#[test]
fn per_track_needs_every_condition() {
    assert!(per_track_eligible(true, true, false, Some(3)));
    assert!(!per_track_eligible(true, false, false, Some(3)));
    assert!(!per_track_eligible(true, true, true, Some(3)));
    assert!(!per_track_eligible(true, true, false, Some(0)));
    assert!(!per_track_eligible(true, true, false, None));
    assert!(!per_track_eligible(false, true, false, Some(3)));
}

#[test]
fn file_sha_fallback_only_for_loose_isos_of_three_systems() {
    assert!(file_sha_fallback_eligible("iso", false, "ps2"));
    assert!(file_sha_fallback_eligible("iso", false, "gamecube"));
    assert!(file_sha_fallback_eligible("iso", false, "dreamcast"));
    assert!(!file_sha_fallback_eligible("iso", true, "ps2"));
    assert!(!file_sha_fallback_eligible("chd", false, "ps2"));
    assert!(!file_sha_fallback_eligible("iso", false, "psx"));
}

#[test]
fn hashing_prepass_skips_discs_and_duplicates() {
    let games = vec![
        ("/r/a.sfc".to_string(), None, "sfc".to_string()),
        ("/r/b.cue".to_string(), None, "cue".to_string()),
        ("/r/a.sfc".to_string(), None, "sfc".to_string()),
        ("/r/set.zip".to_string(), Some("c.sfc".to_string()), "sfc".to_string()),
        ("/r/set.zip".to_string(), Some("d.sfc".to_string()), "sfc".to_string()),
    ];
    let keys = cart_hash_keys(&games, "snes");
    assert_eq!(
        keys,
        vec![
            ("/r/a.sfc".to_string(), None),
            ("/r/set.zip".to_string(), Some("c.sfc".to_string())),
            ("/r/set.zip".to_string(), Some("d.sfc".to_string())),
        ]
    );
    // `.bin` is a disc container on disc systems only.
    let bins = vec![("/r/x.bin".to_string(), None, "bin".to_string())];
    assert_eq!(cart_hash_keys(&bins, "atari2600").len(), 1);
    assert!(cart_hash_keys(&bins, "psx").is_empty());
}

#[test]
fn raw_candidate_is_kept_on_miss() {
    let cands = candidate_sha1s(b"hello", "nes");
    assert_eq!(raw_sha1_of(&cands).as_deref(), Some(cands[0].sha1.as_str()));
    let none = vec![Sha1Candidate { rule: HeaderRule::SkipModulo { skip: 512, modulus: 1024 }, sha1: "x".into() }];
    assert_eq!(raw_sha1_of(&none), None);
}

#[test]
fn sync_summaries_hold_their_counts() {
    let s = RomHashSyncSummary { system_id: "gb".into(), upstream_entries: 5, written: 4, from_cache: true };
    assert!(s.from_cache && s.written == 4);
    let m = MameTitleSyncSummary { upstream_entries: 2, written: 2 };
    assert_eq!(m.upstream_entries, m.written);
}

fn no_answers(per_track_eligible: bool, file_sha_eligible: bool) -> DiscAnswers {
    DiscAnswers {
        fuzzy_title: None,
        per_track_eligible,
        per_track: None,
        disc_id: None,
        serial_title: None,
        file_sha_eligible,
        file_sha: None,
        sha_title: None,
    }
}

#[test]
fn a_file_name_match_ends_disc_identification() {
    let mut a = no_answers(true, true);
    a.fuzzy_title = Some("Final Fantasy VII (USA) (Disc 1)".into());
    match disc_step(&a) {
        DiscStep::Done(DiscVerdict::Fuzzy(t)) => assert_eq!(t, "Final Fantasy VII (USA) (Disc 1)"),
        other => panic!("{other:?}"),
    }
}

#[test]
fn discs_go_per_track_then_disc_id_then_serial() {
    let mut a = no_answers(true, false);
    assert!(matches!(disc_step(&a), DiscStep::AskPerTrack));
    a.per_track = Some(None);
    assert!(matches!(disc_step(&a), DiscStep::AskDiscId));
    a.disc_id = Some(Ok(Some("SLUS-00892".into())));
    match disc_step(&a) {
        DiscStep::AskSerial(id) => assert_eq!(id, "SLUS-00892"),
        other => panic!("{other:?}"),
    }
    a.serial_title = Some(None);
    match disc_step(&a) {
        DiscStep::Done(v) => match disc_outcome(v, "chd".into(), false) {
            GameOutcome::DiscIdUnmatched { disc_id, stamp_failed } => {
                assert_eq!(disc_id, "SLUS-00892");
                assert!(!stamp_failed);
            }
            other => panic!("{other:?}"),
        },
        other => panic!("{other:?}"),
    }
}

#[test]
fn per_track_is_skipped_where_it_does_not_apply() {
    let a = no_answers(false, false);
    assert!(matches!(disc_step(&a), DiscStep::AskDiscId));
    let mut b = no_answers(true, false);
    b.per_track = Some(Some("Crash Bandicoot (USA)".into()));
    assert!(matches!(disc_step(&b), DiscStep::Done(DiscVerdict::PerTrack(_))));
}

#[test]
fn images_without_a_disc_id_fall_back_to_the_whole_file_hash() {
    let mut a = no_answers(false, true);
    a.disc_id = Some(Ok(None));
    assert!(matches!(disc_step(&a), DiscStep::AskFileSha));
    a.file_sha = Some(Some("abc".into()));
    assert!(matches!(disc_step(&a), DiscStep::AskShaLookup(_)));
    a.sha_title = Some(Some("Ico (USA)".into()));
    match disc_step(&a) {
        DiscStep::Done(v) => match disc_outcome(v, "iso".into(), true) {
            GameOutcome::FileShaMatched { title, stamp_failed } => {
                assert_eq!(title, "Ico (USA)");
                assert!(stamp_failed);
            }
            other => panic!("{other:?}"),
        },
        other => panic!("{other:?}"),
    }
    let mut b = no_answers(false, false);
    b.disc_id = Some(Ok(None));
    match disc_step(&b) {
        DiscStep::Done(v) => assert!(matches!(disc_outcome(v, "cue".into(), false), GameOutcome::NoDiscSignature { ext } if ext == "cue")),
        other => panic!("{other:?}"),
    }
    let mut c = no_answers(false, false);
    c.disc_id = Some(Err("read failed".into()));
    assert!(matches!(disc_step(&c), DiscStep::Done(DiscVerdict::ReadFailed(_))));
}
