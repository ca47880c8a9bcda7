use oa_shell::scummvm_detect::{
    descriptor_body, descriptor_file_name, detect_in_file_names, is_hidden_name, known_games,
    sentinel_match, should_write, DescriptorWrite, MatchedGame,
};
use std::path::PathBuf;

#[test]
fn known_games_table_has_expected_landmark_entries() {
    let ids: Vec<&str> = known_games().iter().map(|g| g.descriptor).collect();
    for expected in &[
        "monkey:scumm",
        "monkey2:scumm",
        "atlantis:scumm",
        "tentacle:scumm",
        "samnmax:scumm",
        "ft:scumm",
        "dig:scumm",
        "comi:scumm",
        "indy3:scumm",
        "sky:sky",
        "queen:queen",
        "lure:lure",
        "drascula:drascula",
        "soltys:cge",
    ] {
        assert!(ids.contains(expected), "missing landmark entry: {expected}");
    }
}

fn names(v: &[&str]) -> Vec<String> {
    v.iter().map(|s| s.to_string()).collect()
}

#[test]
fn detect_matches_monkey_island_sentinel() {
    let g = detect_in_file_names(&names(&["MONKEY.000", "MONKEY.001"])).expect("should match");
    assert_eq!(g.descriptor, "monkey:scumm");
    assert_eq!(g.label, "The Secret of Monkey Island");
}

#[test]
fn detect_is_case_insensitive() {
    let g = detect_in_file_names(&names(&["tentacle.000"])).expect("should match");
    assert_eq!(g.descriptor, "tentacle:scumm");
}

#[test]
fn detect_returns_none_for_unrecognized_dir() {
    assert!(detect_in_file_names(&names(&["README.TXT", "install.exe"])).is_none());
    assert!(detect_in_file_names(&[]).is_none());
}

#[test]
fn freeware_sky_dnr_matches() {
    let g = detect_in_file_names(&names(&["readme.txt", "sky.dnr"])).expect("should match");
    assert_eq!(g.descriptor, "sky:sky");
    assert_eq!(sentinel_match("Sky.Dsk"), Some(12));
    assert_eq!(sentinel_match("SKY.DN"), None);
}

#[test]
fn first_listed_file_wins() {
    let g = detect_in_file_names(&names(&["VOL.CAT", "MONKEY.000"])).expect("should match");
    assert_eq!(g.descriptor, "soltys:cge");
}

#[test]
fn matched_game_copies_the_entry() {
    let g = &known_games()[0];
    let m = MatchedGame::from_static(g);
    assert_eq!(m.descriptor, "monkey:scumm");
    assert_eq!(m.label, "The Secret of Monkey Island");
    assert_eq!(m.notes, g.notes);
}

#[test]
fn descriptor_files_and_bodies() {
    assert_eq!(descriptor_file_name("Monkey Island"), "Monkey Island.scummvm");
    assert_eq!(descriptor_body("  monkey:scumm \n"), "monkey:scumm\n");
    assert!(is_hidden_name(".git"));
    assert!(!is_hidden_name("Monkey"));
    let w = DescriptorWrite { path: PathBuf::from("/x.scummvm"), descriptor: "m:s".into(), overwrite: false };
    assert!(should_write(&w, false));
    assert!(!should_write(&w, true));
    let w2 = DescriptorWrite { overwrite: true, ..w };
    assert!(should_write(&w2, true));
}
