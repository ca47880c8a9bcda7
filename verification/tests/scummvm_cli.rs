use oa_shell::scummvm_cli::{
    detect_output_faults, find_last_path_start, looks_like_absolute_path, parse_detect_output,
};
use std::path::PathBuf;

#[test]
fn parse_modern_2x_format() {
    // Sample output mirroring ScummVM 2.5+ --detect format.
    let output = r#"GameID                          Description                                       Full Path
------------------------------- ------------------------------------------------- -----------------------------------------------
monkey                          The Secret of Monkey Island (VGA Floppy/English)  /home/user/games/MonkeyIsland
tentacle                        Day of the Tentacle (CD/English)                  /home/user/games/DOTT
sky                             Beneath a Steel Sky (Floppy/English)              /home/user/games/Sky
"#;
    let rows = parse_detect_output(output);
    assert_eq!(rows.len(), 3);
    assert_eq!(rows[0].game_id, "monkey");
    assert_eq!(rows[0].description, "The Secret of Monkey Island (VGA Floppy/English)");
    assert_eq!(PathBuf::from(&rows[0].directory), PathBuf::from("/home/user/games/MonkeyIsland"));
    assert_eq!(rows[1].game_id, "tentacle");
    assert_eq!(rows[2].game_id, "sky");
}

#[test]
fn parse_windows_paths() {
    let output = r#"GameID    Description                              Full Path
--------  ---------------------------------------  --------------------------------
monkey    The Secret of Monkey Island (VGA)        C:\Games\MonkeyIsland
tentacle  Day of the Tentacle (CD)                 D:\Games\DOTT
"#;
    let rows = parse_detect_output(output);
    assert_eq!(rows.len(), 2);
    assert_eq!(PathBuf::from(&rows[0].directory), PathBuf::from(r"C:\Games\MonkeyIsland"));
    assert_eq!(PathBuf::from(&rows[1].directory), PathBuf::from(r"D:\Games\DOTT"));
}

#[test]
fn parse_skips_header_and_dashes() {
    let output = "GameID    Description    Full Path\n--- ----- ---\n\nmonkey  Monkey Island (English)  /games/monkey\n";
    let rows = parse_detect_output(output);
    assert_eq!(rows.len(), 1);
    assert_eq!(rows[0].game_id, "monkey");
}

#[test]
fn parse_skips_empty_input() {
    assert!(parse_detect_output("").is_empty());
    assert!(parse_detect_output("\n\n\n").is_empty());
}

#[test]
fn parse_handles_description_with_slashes() {
    // The path is the LAST whitespace-bounded absolute path, not a
    // mid-description slash.
    let output =
        "monkey  The Secret of Monkey Island (VGA/Floppy/English)  /home/user/MonkeyIsland\n";
    let rows = parse_detect_output(output);
    assert_eq!(rows.len(), 1);
    assert_eq!(PathBuf::from(&rows[0].directory), PathBuf::from("/home/user/MonkeyIsland"));
    assert_eq!(
        rows[0].description,
        "The Secret of Monkey Island (VGA/Floppy/English)"
    );
}

#[test]
fn parse_rejects_lines_without_path() {
    let output = "monkey  Monkey Island (no path here)\n";
    let rows = parse_detect_output(output);
    assert!(rows.is_empty());
}

#[test]
fn parse_rejects_invalid_gameid() {
    let output = "mon!key  Monkey Island (Bad ID)  /games/monkey\n";
    let rows = parse_detect_output(output);
    assert!(rows.is_empty());
}

#[test]
fn find_last_path_start_basic_cases() {
    assert_eq!(find_last_path_start("desc  /games/foo"), Some(6));
    assert_eq!(find_last_path_start("desc  C:\\Games\\Foo"), Some(6));
    assert_eq!(find_last_path_start("no path here"), None);
}

#[test]
fn looks_like_absolute_path_smoke() {
    assert!(looks_like_absolute_path("/games/foo"));
    assert!(looks_like_absolute_path("C:\\Games\\Foo"));
    assert!(looks_like_absolute_path("D:/games/foo"));
    assert!(!looks_like_absolute_path("games/foo"));
    assert!(!looks_like_absolute_path("foo"));
    assert!(!looks_like_absolute_path(""));
}

#[test]
fn path_offset_counts_bytes_not_characters() {
    // "é" takes two bytes: the path starts at byte 7, character 6.
    assert_eq!(find_last_path_start("café  /games/foo"), Some(7));
    assert_eq!(find_last_path_start("cafée  /x"), Some(8));
}

#[test]
fn row_without_description_is_skipped() {
    assert!(parse_detect_output("monkey  /games/monkey\n").is_empty());
}

#[test]
fn id_without_anything_after_is_skipped() {
    assert!(parse_detect_output("monkey\n").is_empty());
}

#[test]
fn crlf_lines_and_leading_spaces_are_read() {
    let rows = parse_detect_output("  sky   Beneath a Steel Sky   /g/sky  \r\n");
    assert_eq!(rows.len(), 1);
    assert_eq!(rows[0].game_id, "sky");
    assert_eq!(rows[0].description, "Beneath a Steel Sky");
    assert_eq!(rows[0].directory, "/g/sky");
}

#[test]
fn mid_word_slash_is_not_a_path() {
    assert_eq!(find_last_path_start("a/b c"), None);
    assert_eq!(find_last_path_start("x  /a/b/c"), Some(3));
}

#[test]
fn plain_output_does_not_fault() {
    assert!(!detect_output_faults("monkey  Monkey Island  /games/monkey\n"));
    // U+0801 is encoded E0 A0 81: a whitespace byte inside a character.
    assert!(detect_output_faults("monkey  desc  x\u{0801}/y\n"));
    // U+0805 is encoded E0 A0 85: the walk stops after the character.
    assert!(!detect_output_faults("monkey  desc  x\u{0805}/y\n"));
}
