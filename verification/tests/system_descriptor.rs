use oa_shell::system_descriptor::{
    default_schema_version, default_true, BiosSemanticsYaml, LibretroDatRef, CURRENT_SCHEMA_VERSION,
};

#[test]
fn defaults_fill_unstated_fields() {
    assert_eq!(CURRENT_SCHEMA_VERSION, 1);
    assert_eq!(default_schema_version(), CURRENT_SCHEMA_VERSION);
    assert!(default_true());
}

#[test]
fn descriptor_values_compare_by_content() {
    let a = LibretroDatRef { subdir: "metadat/no-intro".to_string(), basename: "Nintendo - Game Boy".to_string() };
    assert_eq!(a.clone(), a);
    assert_ne!(BiosSemanticsYaml::AnyOf, BiosSemanticsYaml::AllRequired);
}
