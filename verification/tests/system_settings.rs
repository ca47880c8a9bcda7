use oa_shell::system_settings::{
    default_keyboard_passthrough, effective_keyboard_passthrough, OverscanCropPrefs,
};

#[test]
fn keyboard_passthrough_default_per_system() {
    assert!(default_keyboard_passthrough("mame"));
    assert!(default_keyboard_passthrough("msx"));
    assert!(default_keyboard_passthrough("msx2"));
    for sys in &["tg16", "pce-cd", "lynx", "nes", "snes", "sms", "gamegear", "atari7800"] {
        assert!(!default_keyboard_passthrough(sys), "{sys}: expected off");
    }
}

#[test]
fn effective_keyboard_passthrough_uses_override_when_set() {
    assert!(effective_keyboard_passthrough("mame", None));
    assert!(!effective_keyboard_passthrough("nes", None));
    assert!(!effective_keyboard_passthrough("mame", Some(false)));
    assert!(effective_keyboard_passthrough("nes", Some(true)));
}

#[test]
fn overscan_zero_only_when_all_edges_zero() {
    assert!(OverscanCropPrefs { top: 0, bottom: 0, left: 0, right: 0 }.is_zero());
    assert!(!OverscanCropPrefs { top: 8, bottom: 8, left: 0, right: 0 }.is_zero());
    assert!(!OverscanCropPrefs { top: 0, bottom: 0, left: 0, right: 1 }.is_zero());
}
