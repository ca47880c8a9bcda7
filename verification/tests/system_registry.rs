use std::path::PathBuf;

use oa_shell::system_descriptor::{
    BiosDescriptor, BiosFileEntry, BiosSemanticsYaml, GameIdKey, GameInfo, GamesDescriptor,
    SystemDescriptor, SystemInfoCurated, CURRENT_SCHEMA_VERSION,
};
use oa_shell::system_descriptor::LibretroDatRef;
use oa_shell::system_registry::{
    libretro_dat_refs_for_system_resolved, load_one_system, FileRead, FolderRead, RegistryError, SystemRegistry,
};

fn descriptor(id: &str, display_name: &str) -> SystemDescriptor {
    SystemDescriptor {
        id: id.to_string(),
        display_name: display_name.to_string(),
        short_name: None,
        schema_version: CURRENT_SCHEMA_VERSION,
        default_core: None,
        default_shader_preset: None,
        extensions: Vec::new(),
        libretro_dat_refs: Vec::new(),
        cores: Vec::new(),
        system_info: None,
    }
}

fn folder(root: &str, name: &str, system: FileRead<SystemDescriptor>) -> FolderRead {
    let folder_path = PathBuf::from(root).join(name);
    FolderRead {
        folder_name: name.to_string(),
        system_yaml_path: folder_path.join("system.yaml"),
        bios_path: folder_path.join("bios.yaml"),
        games_path: folder_path.join("games.yaml"),
        folder_path,
        system,
        bios: FileRead::Absent,
        games: FileRead::Absent,
    }
}

fn psx_bios() -> BiosDescriptor {
    BiosDescriptor {
        schema_version: 1,
        semantics: BiosSemanticsYaml::AnyOf,
        required_for_launch: true,
        files: vec![BiosFileEntry {
            name: "scph5501.bin".to_string(),
            sha1: "0555C6FAE8906F3F09BAF5988F00E55F88E9F30B".to_string(),
            description: "US PSX BIOS".to_string(),
            optional: false,
        }],
        sourcing_hint: None,
    }
}

fn psx_games() -> GamesDescriptor {
    GamesDescriptor {
        schema_version: 1,
        games: vec![GameInfo {
            id_key: GameIdKey {
                system_id: "psx".to_string(),
                rom_title: Some("Test Game".to_string()),
                rom_hash: None,
            },
            date: Some(1999),
        }],
    }
}

#[test]
fn empty_registry_returns_none_for_lookups() {
    let r = SystemRegistry::empty();
    assert!(r.is_empty());
    assert_eq!(r.len(), 0);
    assert!(r.get("psx").is_none());
    assert!(r.source_root().is_none());
}

#[test]
fn default_registry_is_empty() {
    let r = SystemRegistry::default();
    assert!(r.is_empty());
    assert!(r.source_root().is_none());
}

#[test]
fn load_from_empty_dir_yields_empty_registry() {
    let root = PathBuf::from("/cfg/systems");
    let r = SystemRegistry::from_folders(root.clone(), Vec::new()).unwrap();
    assert!(r.is_empty());
    assert_eq!(r.source_root(), Some(&root));
}

#[test]
fn load_minimum_shape_one_system() {
    let f = folder("/cfg", "gb", FileRead::Parsed(descriptor("gb", "Game Boy")));
    let r = SystemRegistry::from_folders(PathBuf::from("/cfg"), vec![f]).unwrap();
    assert_eq!(r.len(), 1);
    let gb = r.get("gb").expect("gb loaded");
    assert_eq!(gb.descriptor.display_name, "Game Boy");
    assert!(gb.bios.is_none());
    assert!(gb.games.is_none());
    assert_eq!(gb.source_path, PathBuf::from("/cfg/gb"));
}

#[test]
fn load_full_shape_with_bios_and_games() {
    let mut f = folder("/cfg", "psx", FileRead::Parsed(descriptor("psx", "PlayStation")));
    f.bios = FileRead::Parsed(psx_bios());
    f.games = FileRead::Parsed(psx_games());
    let r = SystemRegistry::from_folders(PathBuf::from("/cfg"), vec![f]).unwrap();
    let psx = r.get("psx").expect("psx loaded");
    let bios = psx.bios.as_ref().expect("bios loaded");
    assert_eq!(bios.files.len(), 1);
    assert_eq!(bios.files[0].name, "scph5501.bin");
    let games = psx.games.as_ref().expect("games loaded");
    assert_eq!(games.games.len(), 1);
    assert_eq!(games.games[0].id_key.system_id, "psx");
}

#[test]
fn load_hot_fails_on_missing_system_yaml() {
    let f = folder("/cfg", "gb", FileRead::Absent);
    let err = SystemRegistry::from_folders(PathBuf::from("/cfg"), vec![f]).unwrap_err();
    match err {
        RegistryError::MissingSystemYaml { folder } => assert_eq!(folder, PathBuf::from("/cfg/gb")),
        other => panic!("expected MissingSystemYaml, got {other:?}"),
    }
}

#[test]
fn load_hot_fails_on_id_folder_mismatch() {
    let f = folder("/cfg", "gb", FileRead::Parsed(descriptor("snes", "Super Nintendo")));
    let err = SystemRegistry::from_folders(PathBuf::from("/cfg"), vec![f]).unwrap_err();
    match err {
        RegistryError::IdMismatch { folder_name, declared_id, path } => {
            assert_eq!(folder_name, "gb");
            assert_eq!(declared_id, "snes");
            assert_eq!(path, PathBuf::from("/cfg/gb/system.yaml"));
        }
        other => panic!("expected IdMismatch, got {other:?}"),
    }
}

#[test]
fn load_hot_fails_on_malformed_yaml() {
    let f = folder("/cfg", "gb", FileRead::Malformed("unknown field `unknown_field`".to_string()));
    let err = SystemRegistry::from_folders(PathBuf::from("/cfg"), vec![f]).unwrap_err();
    match err {
        RegistryError::Parse { path, message } => {
            assert!(path.ends_with("system.yaml"));
            assert!(message.contains("unknown field"));
        }
        other => panic!("expected Parse error, got {other:?}"),
    }
}

#[test]
fn load_hot_fails_on_unreadable_system_yaml() {
    let f = folder(
        "/cfg",
        "gb",
        FileRead::Unreadable(std::io::Error::new(std::io::ErrorKind::PermissionDenied, "denied")),
    );
    let err = SystemRegistry::from_folders(PathBuf::from("/cfg"), vec![f]).unwrap_err();
    assert!(matches!(err, RegistryError::Io { ref path, .. } if path.ends_with("system.yaml")));
}

#[test]
fn load_hot_fails_on_embedded_system_info_id_mismatch() {
    let mut d = descriptor("gb", "Game Boy");
    d.system_info = Some(SystemInfoCurated {
        system_id: "psx".to_string(),
        manufacturer: Some("Sony".to_string()),
        system_type: None,
        blurb: None,
    });
    let f = folder("/cfg", "gb", FileRead::Parsed(d));
    let err = SystemRegistry::from_folders(PathBuf::from("/cfg"), vec![f]).unwrap_err();
    match err {
        RegistryError::EmbeddedSystemInfoIdMismatch { descriptor_id, embedded_id, .. } => {
            assert_eq!(descriptor_id, "gb");
            assert_eq!(embedded_id, "psx");
        }
        other => panic!("expected EmbeddedSystemInfoIdMismatch, got {other:?}"),
    }
}

#[test]
fn matching_embedded_system_info_is_accepted() {
    let mut d = descriptor("gb", "Game Boy");
    d.system_info = Some(SystemInfoCurated {
        system_id: "gb".to_string(),
        manufacturer: Some("Nintendo".to_string()),
        system_type: Some("Handheld".to_string()),
        blurb: None,
    });
    let f = folder("/cfg", "gb", FileRead::Parsed(d));
    let r = SystemRegistry::from_folders(PathBuf::from("/cfg"), vec![f]).unwrap();
    let panel = r.get("gb").unwrap().descriptor.system_info.as_ref().unwrap();
    assert_eq!(panel.manufacturer.as_deref(), Some("Nintendo"));
}

#[test]
fn load_hot_fails_on_malformed_bios_yaml() {
    let mut f = folder("/cfg", "psx", FileRead::Parsed(descriptor("psx", "PlayStation")));
    f.bios = FileRead::Malformed("unknown variant `invalid_semantics`".to_string());
    let err = SystemRegistry::from_folders(PathBuf::from("/cfg"), vec![f]).unwrap_err();
    match err {
        RegistryError::Parse { path, message } => {
            assert!(path.ends_with("bios.yaml"), "got {}", path.display());
            assert!(message.contains("invalid_semantics"));
        }
        other => panic!("expected Parse error on bios.yaml, got {other:?}"),
    }
}

#[test]
fn malformed_games_yaml_is_reported_after_bios() {
    let mut f = folder("/cfg", "psx", FileRead::Parsed(descriptor("psx", "PlayStation")));
    f.bios = FileRead::Malformed("bad bios".to_string());
    f.games = FileRead::Malformed("bad games".to_string());
    let err = load_one_system(f).unwrap_err();
    assert!(matches!(err, RegistryError::Parse { ref message, .. } if message == "bad bios"));

    let mut g = folder("/cfg", "psx", FileRead::Parsed(descriptor("psx", "PlayStation")));
    g.games = FileRead::Malformed("bad games".to_string());
    let err = load_one_system(g).unwrap_err();
    match err {
        RegistryError::Parse { path, message } => {
            assert!(path.ends_with("games.yaml"));
            assert_eq!(message, "bad games");
        }
        other => panic!("expected Parse error on games.yaml, got {other:?}"),
    }
}

#[test]
fn load_multiple_systems_each_resolves() {
    let folders = vec![
        folder("/cfg", "gb", FileRead::Parsed(descriptor("gb", "Game Boy"))),
        folder("/cfg", "psx", FileRead::Parsed(descriptor("psx", "PlayStation"))),
        folder("/cfg", "nds", FileRead::Parsed(descriptor("nds", "Nintendo DS"))),
    ];
    let r = SystemRegistry::from_folders(PathBuf::from("/cfg"), folders).unwrap();
    assert_eq!(r.len(), 3);
    assert!(r.get("gb").is_some());
    assert!(r.get("psx").is_some());
    assert!(r.get("nds").is_some());
    assert!(r.get("snes").is_none());
    let ids: std::collections::HashSet<String> = r.system_ids().into_iter().collect();
    assert!(ids.contains("gb"));
    assert!(ids.contains("psx"));
    assert!(ids.contains("nds"));
}

#[test]
fn first_failing_folder_in_name_order_is_reported() {
    // Both `psx` and `gb` are broken; `gb` sorts first, whatever the order
    // the folders were listed in.
    let folders = vec![
        folder("/cfg", "psx", FileRead::Absent),
        folder("/cfg", "nds", FileRead::Parsed(descriptor("nds", "Nintendo DS"))),
        folder("/cfg", "gb", FileRead::Parsed(descriptor("snes", "Super Nintendo"))),
    ];
    let err = SystemRegistry::from_folders(PathBuf::from("/cfg"), folders).unwrap_err();
    assert!(matches!(err, RegistryError::IdMismatch { ref folder_name, .. } if folder_name == "gb"));
}

#[test]
fn dat_refs_come_from_the_descriptor() {
    let mut d = descriptor("gb", "Game Boy");
    d.libretro_dat_refs = vec![LibretroDatRef {
        subdir: "metadat/no-intro".to_string(),
        basename: "Nintendo - Game Boy".to_string(),
    }];
    let f = folder("/cfg", "gb", FileRead::Parsed(d));
    let r = SystemRegistry::from_folders(PathBuf::from("/cfg"), vec![f]).unwrap();
    let refs = libretro_dat_refs_for_system_resolved(&r, "gb");
    assert_eq!(refs.len(), 1);
    assert_eq!(refs[0].subdir, "metadat/no-intro");
    assert_eq!(refs[0].basename, "Nintendo - Game Boy");
    assert!(libretro_dat_refs_for_system_resolved(&r, "psx").is_empty());
}

#[test]
fn two_folders_of_one_id_are_refused_with_both_paths() {
    let folders = vec![
        folder("/cfg/a", "psx", FileRead::Parsed(descriptor("psx", "PlayStation"))),
        folder("/cfg", "gb", FileRead::Parsed(descriptor("gb", "Game Boy"))),
        folder("/cfg/b", "psx", FileRead::Parsed(descriptor("psx", "PlayStation"))),
    ];
    match SystemRegistry::from_folders(PathBuf::from("/cfg"), folders) {
        Err(RegistryError::DuplicateId { id, paths }) => {
            assert_eq!(id, "psx");
            assert_eq!(paths, vec![PathBuf::from("/cfg/a/psx"), PathBuf::from("/cfg/b/psx")]);
        }
        other => panic!("expected DuplicateId, got {other:?}"),
    }
}

#[test]
fn a_folder_error_wins_over_a_duplicate_id() {
    let folders = vec![
        folder("/cfg/a", "psx", FileRead::Parsed(descriptor("psx", "PlayStation"))),
        folder("/cfg/b", "psx", FileRead::Parsed(descriptor("psx", "PlayStation"))),
        folder("/cfg", "zz", FileRead::Absent),
    ];
    match SystemRegistry::from_folders(PathBuf::from("/cfg"), folders) {
        Err(RegistryError::MissingSystemYaml { folder }) => assert_eq!(folder, PathBuf::from("/cfg/zz")),
        other => panic!("expected MissingSystemYaml, got {other:?}"),
    }
}
