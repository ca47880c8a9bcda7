use oa_shell::media::{MediaSource, MediaVariant};
use oa_shell::platform_media::{platform_media_path_for, PlatformMedia, PlatformSlot};

#[test]
fn platform_slot_parse_round_trip() {
    for &s in PlatformSlot::ALL.iter() {
        assert_eq!(PlatformSlot::parse(s.as_str()), Some(s));
    }
    assert_eq!(PlatformSlot::ALL.len(), 9);
}

#[test]
fn platform_slot_parse_rejects_unknown() {
    assert_eq!(PlatformSlot::parse("box-front"), None);
    assert_eq!(PlatformSlot::parse(""), None);
    assert_eq!(PlatformSlot::parse("Banner"), None);
}

#[test]
fn platform_media_default_is_all_none() {
    let pm = PlatformMedia::default();
    for &slot in PlatformSlot::ALL.iter() {
        assert!(slot.get(&pm).is_none(), "{:?} should default to None", slot);
    }
}

#[test]
fn platform_slot_get_set_round_trip_every_slot() {
    for &slot in PlatformSlot::ALL.iter() {
        let mut pm = PlatformMedia::default();
        let v = MediaVariant {
            source: MediaSource::Manual,
            region: None,
            path: format!("media/platform/{}/test.png", slot.as_str()),
            thumb_path: None,
            width: None,
            height: None,
            sha1: Some(format!("sha-{}", slot.as_str())),
            bytes: None,
        };
        slot.set(&mut pm, Some(v.clone()));
        let read_back = slot.get(&pm).clone().expect("read back");
        assert_eq!(read_back.path, v.path);
        slot.set(&mut pm, None);
        assert!(slot.get(&pm).is_none());
    }
}

#[test]
fn setting_one_platform_slot_leaves_others() {
    let mut pm = PlatformMedia::default();
    let v = MediaVariant {
        source: MediaSource::Manual,
        region: None,
        path: "w.png".into(),
        thumb_path: None,
        width: None,
        height: None,
        sha1: None,
        bytes: None,
    };
    PlatformSlot::Wheel.set(&mut pm, Some(v));
    assert!(pm.wheel.is_some());
    assert!(PlatformSlot::Marquee.get(&pm).is_none());
}

#[test]
fn platform_media_paths() {
    assert_eq!(platform_media_path_for(PlatformSlot::ClearLogo, "snes", "png"), "media/platform/clear-logo/snes.png");
    assert_eq!(platform_media_path_for(PlatformSlot::Wheel, "n64", "webp"), "media/platform/wheel/n64.webp");
}

#[test]
fn platform_variant_is_identified_by_content() {
    let v = oa_shell::platform_media::platform_variant("media/platform/gb/banner.png".to_string(), b"abc");
    assert_eq!(v.sha1.as_deref(), Some("a9993e364706816aba3e25717850c26c9cd0d89d"));
    assert_eq!(v.bytes, Some(3));
    assert_eq!(v.path, "media/platform/gb/banner.png");
    assert!(v.thumb_path.is_none());
}
