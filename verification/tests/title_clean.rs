use oa_shell::title_clean::title_from_file_name;
#[test]
fn strips_extension() {
    assert_eq!(title_from_file_name("Castlevania.nes"), "Castlevania");
}

#[test]
fn underscore_becomes_space() {
    assert_eq!(
        title_from_file_name("Super_Mario_World.smc"),
        "Super Mario World"
    );
}

#[test]
fn multiple_underscores_collapse_to_single_space() {
    assert_eq!(title_from_file_name("Foo__Bar___Baz.bin"), "Foo Bar Baz");
}

#[test]
fn no_extension_input() {
    assert_eq!(title_from_file_name("HiddenGame"), "HiddenGame");
}

#[test]
fn embedded_dots_preserved_in_base() {
    // Only the LAST dot is the extension boundary.
    assert_eq!(title_from_file_name("Foo.Bar.smc"), "Foo.Bar");
}

#[test]
fn leading_dotfile_left_alone() {
    // A hidden dotfile has no extension — the dot is at index 0.
    // Underscores still become spaces.
    assert_eq!(title_from_file_name(".thing"), ".thing");
    assert_eq!(title_from_file_name(".my_file"), ".my file");
}

#[test]
fn preserves_region_tags_and_bracket_flags() {
    // title_parse::parse_canonical_title handles these downstream.
    assert_eq!(
        title_from_file_name("Super Mario World (USA) [!].smc"),
        "Super Mario World (USA) [!]"
    );
}

#[test]
fn trims_leading_and_trailing_whitespace() {
    assert_eq!(title_from_file_name("  Foo  .nes"), "Foo");
}

#[test]
fn empty_input_yields_empty() {
    assert_eq!(title_from_file_name(""), "");
}
