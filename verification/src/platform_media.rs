//! Per-system platform media: one image per slot per system (hardware
//! photos, controllers, marquees, wheel art, banners), with the slot
//! names and the media path of each slot.
use vstd::prelude::*;
use crate::media::MediaVariant;
use crate::rom_header::{sha1_hex, sha1_hex_of};
use crate::text::{str_eq, string_of};

verus! {

/// The platform media of one system: at most one image per slot.
#[derive(Clone, Debug)]
pub struct PlatformMedia {
    pub banner: Option<MediaVariant>,
    pub clear_logo: Option<MediaVariant>,
    pub console: Option<MediaVariant>,
    pub controller: Option<MediaVariant>,
    pub fanart: Option<MediaVariant>,
    pub marquee: Option<MediaVariant>,
    pub photo: Option<MediaVariant>,
    pub wheel: Option<MediaVariant>,
    pub background: Option<MediaVariant>,
}

/// A platform media slot.
#[derive(Clone, Copy, Debug, PartialEq, Eq, Hash, Structural)]
pub enum PlatformSlot {
    Banner,
    ClearLogo,
    Console,
    Controller,
    Fanart,
    Marquee,
    Photo,
    Wheel,
    Background,
}

/// The kebab-case name of a slot (its folder name).
pub open spec fn slot_name(s: PlatformSlot) -> Seq<char> {
    match s {
        PlatformSlot::Banner => "banner"@,
        PlatformSlot::ClearLogo => "clear-logo"@,
        PlatformSlot::Console => "console"@,
        PlatformSlot::Controller => "controller"@,
        PlatformSlot::Fanart => "fanart"@,
        PlatformSlot::Marquee => "marquee"@,
        PlatformSlot::Photo => "photo"@,
        PlatformSlot::Wheel => "wheel"@,
        PlatformSlot::Background => "background"@,
    }
}

/// The slot a name stands for.
pub open spec fn slot_of_name(s: Seq<char>) -> Option<PlatformSlot> {
    if s == "banner"@ {
        Some(PlatformSlot::Banner)
    } else if s == "clear-logo"@ {
        Some(PlatformSlot::ClearLogo)
    } else if s == "console"@ {
        Some(PlatformSlot::Console)
    } else if s == "controller"@ {
        Some(PlatformSlot::Controller)
    } else if s == "fanart"@ {
        Some(PlatformSlot::Fanart)
    } else if s == "marquee"@ {
        Some(PlatformSlot::Marquee)
    } else if s == "photo"@ {
        Some(PlatformSlot::Photo)
    } else if s == "wheel"@ {
        Some(PlatformSlot::Wheel)
    } else if s == "background"@ {
        Some(PlatformSlot::Background)
    } else {
        None
    }
}

/// The image `pm` holds in slot `s`.
pub open spec fn slot_image(pm: PlatformMedia, s: PlatformSlot) -> Option<MediaVariant> {
    match s {
        PlatformSlot::Banner => pm.banner,
        PlatformSlot::ClearLogo => pm.clear_logo,
        PlatformSlot::Console => pm.console,
        PlatformSlot::Controller => pm.controller,
        PlatformSlot::Fanart => pm.fanart,
        PlatformSlot::Marquee => pm.marquee,
        PlatformSlot::Photo => pm.photo,
        PlatformSlot::Wheel => pm.wheel,
        PlatformSlot::Background => pm.background,
    }
}

/// `pm` with slot `s` holding `v`.
pub open spec fn with_slot_image(pm: PlatformMedia, s: PlatformSlot, v: Option<MediaVariant>) -> PlatformMedia {
    match s {
        PlatformSlot::Banner => PlatformMedia { banner: v, ..pm },
        PlatformSlot::ClearLogo => PlatformMedia { clear_logo: v, ..pm },
        PlatformSlot::Console => PlatformMedia { console: v, ..pm },
        PlatformSlot::Controller => PlatformMedia { controller: v, ..pm },
        PlatformSlot::Fanart => PlatformMedia { fanart: v, ..pm },
        PlatformSlot::Marquee => PlatformMedia { marquee: v, ..pm },
        PlatformSlot::Photo => PlatformMedia { photo: v, ..pm },
        PlatformSlot::Wheel => PlatformMedia { wheel: v, ..pm },
        PlatformSlot::Background => PlatformMedia { background: v, ..pm },
    }
}

impl Default for PlatformMedia {
    fn default() -> (r: Self)
        ensures
            forall|s: PlatformSlot| #[trigger] slot_image(r, s) is None,
    {
        PlatformMedia {
            banner: None,
            clear_logo: None,
            console: None,
            controller: None,
            fanart: None,
            marquee: None,
            photo: None,
            wheel: None,
            background: None,
        }
    }
}

impl PlatformSlot {
    /// Every slot, in declaration order.
    pub const ALL: [PlatformSlot; 9] = [
        PlatformSlot::Banner,
        PlatformSlot::ClearLogo,
        PlatformSlot::Console,
        PlatformSlot::Controller,
        PlatformSlot::Fanart,
        PlatformSlot::Marquee,
        PlatformSlot::Photo,
        PlatformSlot::Wheel,
        PlatformSlot::Background,
    ];

    /// The slot a kebab-case name stands for (case-sensitive).
    pub fn parse(s: &str) -> (r: Option<Self>)
        ensures
            r == slot_of_name(s@),
    {
        if str_eq(s, "banner") {
            Some(PlatformSlot::Banner)
        } else if str_eq(s, "clear-logo") {
            Some(PlatformSlot::ClearLogo)
        } else if str_eq(s, "console") {
            Some(PlatformSlot::Console)
        } else if str_eq(s, "controller") {
            Some(PlatformSlot::Controller)
        } else if str_eq(s, "fanart") {
            Some(PlatformSlot::Fanart)
        } else if str_eq(s, "marquee") {
            Some(PlatformSlot::Marquee)
        } else if str_eq(s, "photo") {
            Some(PlatformSlot::Photo)
        } else if str_eq(s, "wheel") {
            Some(PlatformSlot::Wheel)
        } else if str_eq(s, "background") {
            Some(PlatformSlot::Background)
        } else {
            None
        }
    }

    /// The kebab-case name of this slot.
    pub fn as_str(&self) -> (r: &'static str)
        ensures
            r@ == slot_name(*self),
    {
        match self {
            PlatformSlot::Banner => "banner",
            PlatformSlot::ClearLogo => "clear-logo",
            PlatformSlot::Console => "console",
            PlatformSlot::Controller => "controller",
            PlatformSlot::Fanart => "fanart",
            PlatformSlot::Marquee => "marquee",
            PlatformSlot::Photo => "photo",
            PlatformSlot::Wheel => "wheel",
            PlatformSlot::Background => "background",
        }
    }

    /// The image `pm` holds in this slot.
    pub fn get<'a>(&self, pm: &'a PlatformMedia) -> (r: &'a Option<MediaVariant>)
        ensures
            *r == slot_image(*pm, *self),
    {
        match self {
            PlatformSlot::Banner => &pm.banner,
            PlatformSlot::ClearLogo => &pm.clear_logo,
            PlatformSlot::Console => &pm.console,
            PlatformSlot::Controller => &pm.controller,
            PlatformSlot::Fanart => &pm.fanart,
            PlatformSlot::Marquee => &pm.marquee,
            PlatformSlot::Photo => &pm.photo,
            PlatformSlot::Wheel => &pm.wheel,
            PlatformSlot::Background => &pm.background,
        }
    }

    /// Store `v` in this slot of `pm`.
    pub fn set(&self, pm: &mut PlatformMedia, v: Option<MediaVariant>)
        ensures
            *final(pm) == with_slot_image(*old(pm), *self, v),
    {
        match self {
            PlatformSlot::Banner => pm.banner = v,
            PlatformSlot::ClearLogo => pm.clear_logo = v,
            PlatformSlot::Console => pm.console = v,
            PlatformSlot::Controller => pm.controller = v,
            PlatformSlot::Fanart => pm.fanart = v,
            PlatformSlot::Marquee => pm.marquee = v,
            PlatformSlot::Photo => pm.photo = v,
            PlatformSlot::Wheel => pm.wheel = v,
            PlatformSlot::Background => pm.background = v,
        }
    }
}

/// Parsing a slot's name gives the slot back.
pub proof fn law_slot_name_round_trip(s: PlatformSlot)
    ensures
        slot_of_name(slot_name(s)) == Some(s),
{
    reveal_strlit("banner");
    reveal_strlit("clear-logo");
    reveal_strlit("console");
    reveal_strlit("controller");
    reveal_strlit("fanart");
    reveal_strlit("marquee");
    reveal_strlit("photo");
    reveal_strlit("wheel");
    reveal_strlit("background");
    match s {
        PlatformSlot::Banner => {  },
        PlatformSlot::ClearLogo => { assert("clear-logo"@.len() != "banner"@.len()); },
        PlatformSlot::Console => { assert("console"@.len() != "banner"@.len()); assert("console"@.len() != "clear-logo"@.len()); },
        PlatformSlot::Controller => { assert("controller"@.len() != "banner"@.len()); assert("controller"@[1] != "clear-logo"@[1]); assert("controller"@.len() != "console"@.len()); },
        PlatformSlot::Fanart => { assert("fanart"@[0] != "banner"@[0]); assert("fanart"@.len() != "clear-logo"@.len()); assert("fanart"@.len() != "console"@.len()); assert("fanart"@.len() != "controller"@.len()); },
        PlatformSlot::Marquee => { assert("marquee"@.len() != "banner"@.len()); assert("marquee"@.len() != "clear-logo"@.len()); assert("marquee"@[0] != "console"@[0]); assert("marquee"@.len() != "controller"@.len()); assert("marquee"@.len() != "fanart"@.len()); },
        PlatformSlot::Photo => { assert("photo"@.len() != "banner"@.len()); assert("photo"@.len() != "clear-logo"@.len()); assert("photo"@.len() != "console"@.len()); assert("photo"@.len() != "controller"@.len()); assert("photo"@.len() != "fanart"@.len()); assert("photo"@.len() != "marquee"@.len()); },
        PlatformSlot::Wheel => { assert("wheel"@.len() != "banner"@.len()); assert("wheel"@.len() != "clear-logo"@.len()); assert("wheel"@.len() != "console"@.len()); assert("wheel"@.len() != "controller"@.len()); assert("wheel"@.len() != "fanart"@.len()); assert("wheel"@.len() != "marquee"@.len()); assert("wheel"@[0] != "photo"@[0]); },
        PlatformSlot::Background => { assert("background"@.len() != "banner"@.len()); assert("background"@[0] != "clear-logo"@[0]); assert("background"@.len() != "console"@.len()); assert("background"@[0] != "controller"@[0]); assert("background"@.len() != "fanart"@.len()); assert("background"@.len() != "marquee"@.len()); assert("background"@.len() != "photo"@.len()); assert("background"@.len() != "wheel"@.len()); },
    }
}

/// Reading a slot gives back what was last stored in it, and storing in
/// one slot leaves the others as they were.
pub proof fn law_slot_set_then_get(pm: PlatformMedia, s: PlatformSlot, v: Option<MediaVariant>, other: PlatformSlot)
    ensures
        slot_image(with_slot_image(pm, s, v), s) == v,
        other != s ==> slot_image(with_slot_image(pm, s, v), other) == slot_image(pm, other),
{
}

/// `media/platform/<slot>/<system_id>.<ext>`.
pub open spec fn platform_media_path(slot: PlatformSlot, system_id: Seq<char>, ext: Seq<char>) -> Seq<char> {
    "media/platform/"@ + slot_name(slot) + seq!['/'] + system_id + seq!['.'] + ext
}

/// The app-data-relative path of a system's image in a slot:
/// `media/platform/<slot>/<system_id>.<ext>`.
pub fn platform_media_path_for(slot: PlatformSlot, system_id: &str, ext: &str) -> (r: String)
    ensures
        r@ == platform_media_path(slot, system_id@, ext@),
{
    let mut out: Vec<char> = Vec::new();
    crate::text::push_str(&mut out, "media/platform/");
    crate::text::push_str(&mut out, slot.as_str());
    out.push('/');
    crate::text::push_str(&mut out, system_id);
    out.push('.');
    crate::text::push_str(&mut out, ext);
    assert(out@ =~= platform_media_path(slot, system_id@, ext@));
    string_of(&out)
}

/// The slot a request names, or `unknown platform slot: <name>`.
pub fn platform_slot_named(name: &str) -> (r: Result<PlatformSlot, String>)
    ensures
        match r {
            Ok(s) => slot_of_name(name@) == Some(s),
            Err(e) => slot_of_name(name@) is None && e@ == "unknown platform slot: "@ + name@,
        },
{
    match PlatformSlot::parse(name) {
        Some(s) => Ok(s),
        None => {
            let mut out: Vec<char> = Vec::new();
            crate::text::push_str(&mut out, "unknown platform slot: ");
            crate::text::push_str(&mut out, name);
            Err(string_of(&out))
        },
    }
}

/// The variant recorded for an operator-supplied platform image stored at
/// `path`: manual, identified by the SHA-1 and size of its `content`, and
/// shown from the file itself (no thumbnail).
pub fn platform_variant(path: String, content: &[u8]) -> (r: MediaVariant)
    ensures
        r.source is Manual,
        r.region is None,
        r.path == path,
        r.thumb_path is None && r.width is None && r.height is None,
        r.sha1 matches Some(h) && h@ == sha1_hex_of(content@),
        r.bytes == Some(content.len() as u64),
{
    MediaVariant {
        source: crate::media::MediaSource::Manual,
        region: None,
        path,
        thumb_path: None,
        width: None,
        height: None,
        sha1: Some(sha1_hex(content)),
        bytes: Some(content.len() as u64),
    }
}

} // verus!
