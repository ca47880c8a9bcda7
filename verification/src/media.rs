//! Game-media data model: media kinds and their names, the variants each
//! game holds per kind, the pinned variant per kind, the active-variant
//! resolver, file naming for media slots, and the libretro-thumbnails
//! repository routing.
use vstd::prelude::*;
use crate::text::{
    chars_of, ends_with, has_prefix, has_suffix, owned, percent_encoded, starts_with, str_eq, string_of, trim, url_encode, views,
};
use vstd::string::StringSliceAdditionalSpecFns;
use crate::rom_header::{sha1_hex, sha1_hex_of};

verus! {

/// Where a media variant came from.
#[derive(Clone, Copy, Debug, PartialEq, Eq, Structural)]
pub enum MediaSource {
    Manual,
    LibretroThumbnails,
}

/// The four canonical regions.
#[derive(Clone, Copy, Debug, PartialEq, Eq, Structural)]
pub enum KnownRegion {
    USA,
    Japan,
    Europe,
    World,
}

/// Region of a media variant: one of the canonical four or any other name
/// (e.g. "Asia", "Brazil").
#[derive(Clone, Debug, PartialEq, Eq)]
pub enum Region {
    Known(KnownRegion),
    Other(String),
}

/// The name of a region.
pub open spec fn region_name(r: Region) -> Seq<char> {
    match r {
        Region::Known(KnownRegion::USA) => "USA"@,
        Region::Known(KnownRegion::Japan) => "Japan"@,
        Region::Known(KnownRegion::Europe) => "Europe"@,
        Region::Known(KnownRegion::World) => "World"@,
        Region::Other(s) => s@,
    }
}

/// Whether `r` is what `Region::parse` gives for the name `s`.
pub open spec fn parses_to(s: Seq<char>, r: Region) -> bool {
    if s == "USA"@ {
        r == Region::Known(KnownRegion::USA)
    } else if s == "Japan"@ {
        r == Region::Known(KnownRegion::Japan)
    } else if s == "Europe"@ {
        r == Region::Known(KnownRegion::Europe)
    } else if s == "World"@ {
        r == Region::Known(KnownRegion::World)
    } else {
        r matches Region::Other(o) && o@ == s
    }
}

impl Region {
    /// The region's name.
    pub fn as_str(&self) -> (r: String)
        ensures
            r@ == region_name(*self),
    {
        match self {
            Region::Known(KnownRegion::USA) => owned("USA"),
            Region::Known(KnownRegion::Japan) => owned("Japan"),
            Region::Known(KnownRegion::Europe) => owned("Europe"),
            Region::Known(KnownRegion::World) => owned("World"),
            Region::Other(s) => s.clone(),
        }
    }

    /// The region a name stands for: one of the canonical four when it
    /// spells one exactly, else `Other` holding the name.
    pub fn parse(s: &str) -> (r: Region)
        ensures
            parses_to(s@, r),
    {
        if str_eq(s, "USA") {
            Region::Known(KnownRegion::USA)
        } else if str_eq(s, "Japan") {
            Region::Known(KnownRegion::Japan)
        } else if str_eq(s, "Europe") {
            Region::Known(KnownRegion::Europe)
        } else if str_eq(s, "World") {
            Region::Known(KnownRegion::World)
        } else {
            Region::Other(owned(s))
        }
    }
}

/// The name of the region parsed from `s` is `s`.
pub proof fn law_region_parse_keeps_name(s: Seq<char>, r: Region)
    requires
        parses_to(s, r),
    ensures
        region_name(r) == s,
{
}

/// Parsing a region's name gives the region back, except for an `Other`
/// that spells one of the canonical four.
pub proof fn law_region_name_round_trip(r: Region)
    requires
        !(r matches Region::Other(o) && (o@ == "USA"@ || o@ == "Japan"@ || o@ == "Europe"@
            || o@ == "World"@)),
    ensures
        parses_to(region_name(r), r),
{
    reveal_strlit("USA");
    reveal_strlit("Japan");
    reveal_strlit("Europe");
    reveal_strlit("World");
    assert("USA"@.len() == 3);
    assert("Japan"@.len() == 5);
    assert("Europe"@.len() == 6);
    assert("World"@.len() == 5);
    assert("Japan"@[0] != "World"@[0]);
}

/// One stored image (or video, music, manual file) of a game slot.
#[derive(Clone, Debug)]
pub struct MediaVariant {
    pub source: MediaSource,
    pub region: Option<Region>,
    /// appData-relative path (e.g. `media/covers/tg16/rom-abc.png`).
    pub path: String,
    /// WebP thumbnail path, when one was generated.
    pub thumb_path: Option<String>,
    pub width: Option<u32>,
    pub height: Option<u32>,
    pub sha1: Option<String>,
    pub bytes: Option<u64>,
}

/// Catalog metadata of a game.
#[derive(Clone, Debug)]
pub struct GameMetadata {
    pub year: Option<u32>,
    pub genre: Option<String>,
    pub developer: Option<String>,
    pub publisher: Option<String>,
    pub players: Option<u32>,
    pub description: Option<String>,
}

impl Default for GameMetadata {
    fn default() -> (r: Self)
        ensures
            r.year is None && r.genre is None && r.developer is None && r.publisher is None
                && r.players is None && r.description is None,
    {
        GameMetadata {
            year: None,
            genre: None,
            developer: None,
            publisher: None,
            players: None,
            description: None,
        }
    }
}

/// The media slots of a game, after LaunchBox's taxonomy plus video,
/// music and manual. `parse` also takes the names of the first five slots
/// (`boxart`, `snap`, `title`, `cart`, `disc`).
#[derive(Clone, Copy, Debug, PartialEq, Eq, Hash, Structural)]
pub enum MediaKind {
    BoxFront,
    BoxBack,
    Box3d,
    BoxSpine,
    BoxFull,
    CartFront,
    CartBack,
    Cart3d,
    Disc,
    ScreenshotGameplay,
    ScreenshotTitle,
    ScreenshotSelect,
    Banner,
    ClearLogo,
    FanartBackground,
    FanartDisc,
    AdvertFront,
    AdvertBack,
    ArcadeCabinet,
    ArcadeMarquee,
    ArcadeControlpanel,
    ArcadeControlsinfo,
    ArcadePlayerselect,
    ArcadeFlyer,
    Video,
    Music,
    Manual,
}

/// The canonical kebab-case name of a kind.
pub open spec fn kind_name(k: MediaKind) -> Seq<char> {
    match k {
        MediaKind::BoxFront => "box-front"@,
        MediaKind::BoxBack => "box-back"@,
        MediaKind::Box3d => "box-3d"@,
        MediaKind::BoxSpine => "box-spine"@,
        MediaKind::BoxFull => "box-full"@,
        MediaKind::CartFront => "cart-front"@,
        MediaKind::CartBack => "cart-back"@,
        MediaKind::Cart3d => "cart-3d"@,
        MediaKind::Disc => "disc"@,
        MediaKind::ScreenshotGameplay => "screenshot-gameplay"@,
        MediaKind::ScreenshotTitle => "screenshot-title"@,
        MediaKind::ScreenshotSelect => "screenshot-select"@,
        MediaKind::Banner => "banner"@,
        MediaKind::ClearLogo => "clear-logo"@,
        MediaKind::FanartBackground => "fanart-background"@,
        MediaKind::FanartDisc => "fanart-disc"@,
        MediaKind::AdvertFront => "advert-front"@,
        MediaKind::AdvertBack => "advert-back"@,
        MediaKind::ArcadeCabinet => "arcade-cabinet"@,
        MediaKind::ArcadeMarquee => "arcade-marquee"@,
        MediaKind::ArcadeControlpanel => "arcade-controlpanel"@,
        MediaKind::ArcadeControlsinfo => "arcade-controlsinfo"@,
        MediaKind::ArcadePlayerselect => "arcade-playerselect"@,
        MediaKind::ArcadeFlyer => "arcade-flyer"@,
        MediaKind::Video => "video"@,
        MediaKind::Music => "music"@,
        MediaKind::Manual => "manual"@,
    }
}

/// The kind a name stands for: a canonical name or one of the first
/// five slots' names.
pub open spec fn kind_of_name(s: Seq<char>) -> Option<MediaKind> {
    if s == "boxart"@ {
        Some(MediaKind::BoxFront)
    } else if s == "snap"@ {
        Some(MediaKind::ScreenshotGameplay)
    } else if s == "title"@ {
        Some(MediaKind::ScreenshotTitle)
    } else if s == "cart"@ {
        Some(MediaKind::CartFront)
    } else if s == "box-front"@ {
        Some(MediaKind::BoxFront)
    } else if s == "box-back"@ {
        Some(MediaKind::BoxBack)
    } else if s == "box-3d"@ {
        Some(MediaKind::Box3d)
    } else if s == "box-spine"@ {
        Some(MediaKind::BoxSpine)
    } else if s == "box-full"@ {
        Some(MediaKind::BoxFull)
    } else if s == "cart-front"@ {
        Some(MediaKind::CartFront)
    } else if s == "cart-back"@ {
        Some(MediaKind::CartBack)
    } else if s == "cart-3d"@ {
        Some(MediaKind::Cart3d)
    } else if s == "disc"@ {
        Some(MediaKind::Disc)
    } else if s == "screenshot-gameplay"@ {
        Some(MediaKind::ScreenshotGameplay)
    } else if s == "screenshot-title"@ {
        Some(MediaKind::ScreenshotTitle)
    } else if s == "screenshot-select"@ {
        Some(MediaKind::ScreenshotSelect)
    } else if s == "banner"@ {
        Some(MediaKind::Banner)
    } else if s == "clear-logo"@ {
        Some(MediaKind::ClearLogo)
    } else if s == "fanart-background"@ {
        Some(MediaKind::FanartBackground)
    } else if s == "fanart-disc"@ {
        Some(MediaKind::FanartDisc)
    } else if s == "advert-front"@ {
        Some(MediaKind::AdvertFront)
    } else if s == "advert-back"@ {
        Some(MediaKind::AdvertBack)
    } else if s == "arcade-cabinet"@ {
        Some(MediaKind::ArcadeCabinet)
    } else if s == "arcade-marquee"@ {
        Some(MediaKind::ArcadeMarquee)
    } else if s == "arcade-controlpanel"@ {
        Some(MediaKind::ArcadeControlpanel)
    } else if s == "arcade-controlsinfo"@ {
        Some(MediaKind::ArcadeControlsinfo)
    } else if s == "arcade-playerselect"@ {
        Some(MediaKind::ArcadePlayerselect)
    } else if s == "arcade-flyer"@ {
        Some(MediaKind::ArcadeFlyer)
    } else if s == "video"@ {
        Some(MediaKind::Video)
    } else if s == "music"@ {
        Some(MediaKind::Music)
    } else if s == "manual"@ {
        Some(MediaKind::Manual)
    } else {
        None
    }
}

/// The libretro-thumbnails directory that holds a kind, for the three
/// kinds it carries.
pub open spec fn thumbnails_subdir(k: MediaKind) -> Option<Seq<char>> {
    match k {
        MediaKind::BoxFront => Some("Named_Boxarts"@),
        MediaKind::ScreenshotGameplay => Some("Named_Snaps"@),
        MediaKind::ScreenshotTitle => Some("Named_Titles"@),
        _ => None,
    }
}

pub open spec fn opt_view(o: Option<&'static str>) -> Option<Seq<char>> {
    match o {
        Some(s) => Some(s@),
        None => None,
    }
}

/// Every kind, in declaration order.
pub open spec fn all_kinds() -> Seq<MediaKind> {
    seq![
        MediaKind::BoxFront,
        MediaKind::BoxBack,
        MediaKind::Box3d,
        MediaKind::BoxSpine,
        MediaKind::BoxFull,
        MediaKind::CartFront,
        MediaKind::CartBack,
        MediaKind::Cart3d,
        MediaKind::Disc,
        MediaKind::ScreenshotGameplay,
        MediaKind::ScreenshotTitle,
        MediaKind::ScreenshotSelect,
        MediaKind::Banner,
        MediaKind::ClearLogo,
        MediaKind::FanartBackground,
        MediaKind::FanartDisc,
        MediaKind::AdvertFront,
        MediaKind::AdvertBack,
        MediaKind::ArcadeCabinet,
        MediaKind::ArcadeMarquee,
        MediaKind::ArcadeControlpanel,
        MediaKind::ArcadeControlsinfo,
        MediaKind::ArcadePlayerselect,
        MediaKind::ArcadeFlyer,
        MediaKind::Video,
        MediaKind::Music,
        MediaKind::Manual,
    ]
}

impl MediaKind {
    /// Every kind, in declaration order.
    pub const ALL: [MediaKind; 27] = [
        MediaKind::BoxFront,
        MediaKind::BoxBack,
        MediaKind::Box3d,
        MediaKind::BoxSpine,
        MediaKind::BoxFull,
        MediaKind::CartFront,
        MediaKind::CartBack,
        MediaKind::Cart3d,
        MediaKind::Disc,
        MediaKind::ScreenshotGameplay,
        MediaKind::ScreenshotTitle,
        MediaKind::ScreenshotSelect,
        MediaKind::Banner,
        MediaKind::ClearLogo,
        MediaKind::FanartBackground,
        MediaKind::FanartDisc,
        MediaKind::AdvertFront,
        MediaKind::AdvertBack,
        MediaKind::ArcadeCabinet,
        MediaKind::ArcadeMarquee,
        MediaKind::ArcadeControlpanel,
        MediaKind::ArcadeControlsinfo,
        MediaKind::ArcadePlayerselect,
        MediaKind::ArcadeFlyer,
        MediaKind::Video,
        MediaKind::Music,
        MediaKind::Manual,
    ];

    /// Every kind, in declaration order, as a vector.
    pub fn all() -> (r: Vec<MediaKind>)
        ensures
            r@ == all_kinds(),
    {
        let r = vec![
            MediaKind::BoxFront,
            MediaKind::BoxBack,
            MediaKind::Box3d,
            MediaKind::BoxSpine,
            MediaKind::BoxFull,
            MediaKind::CartFront,
            MediaKind::CartBack,
            MediaKind::Cart3d,
            MediaKind::Disc,
            MediaKind::ScreenshotGameplay,
            MediaKind::ScreenshotTitle,
            MediaKind::ScreenshotSelect,
            MediaKind::Banner,
            MediaKind::ClearLogo,
            MediaKind::FanartBackground,
            MediaKind::FanartDisc,
            MediaKind::AdvertFront,
            MediaKind::AdvertBack,
            MediaKind::ArcadeCabinet,
            MediaKind::ArcadeMarquee,
            MediaKind::ArcadeControlpanel,
            MediaKind::ArcadeControlsinfo,
            MediaKind::ArcadePlayerselect,
            MediaKind::ArcadeFlyer,
            MediaKind::Video,
            MediaKind::Music,
            MediaKind::Manual,
        ];
        assert(r@ =~= all_kinds());
        r
    }

    /// Parse a kind name: a canonical kebab-case name or one of the first
    /// five slots' names. Case-sensitive; `None` for anything else.
    pub fn parse(s: &str) -> (r: Option<Self>)
        ensures
            r == kind_of_name(s@),
    {
        if str_eq(s, "boxart") {
            Some(MediaKind::BoxFront)
        } else if str_eq(s, "snap") {
            Some(MediaKind::ScreenshotGameplay)
        } else if str_eq(s, "title") {
            Some(MediaKind::ScreenshotTitle)
        } else if str_eq(s, "cart") {
            Some(MediaKind::CartFront)
        } else if str_eq(s, "box-front") {
            Some(MediaKind::BoxFront)
        } else if str_eq(s, "box-back") {
            Some(MediaKind::BoxBack)
        } else if str_eq(s, "box-3d") {
            Some(MediaKind::Box3d)
        } else if str_eq(s, "box-spine") {
            Some(MediaKind::BoxSpine)
        } else if str_eq(s, "box-full") {
            Some(MediaKind::BoxFull)
        } else if str_eq(s, "cart-front") {
            Some(MediaKind::CartFront)
        } else if str_eq(s, "cart-back") {
            Some(MediaKind::CartBack)
        } else if str_eq(s, "cart-3d") {
            Some(MediaKind::Cart3d)
        } else if str_eq(s, "disc") {
            Some(MediaKind::Disc)
        } else if str_eq(s, "screenshot-gameplay") {
            Some(MediaKind::ScreenshotGameplay)
        } else if str_eq(s, "screenshot-title") {
            Some(MediaKind::ScreenshotTitle)
        } else if str_eq(s, "screenshot-select") {
            Some(MediaKind::ScreenshotSelect)
        } else if str_eq(s, "banner") {
            Some(MediaKind::Banner)
        } else if str_eq(s, "clear-logo") {
            Some(MediaKind::ClearLogo)
        } else if str_eq(s, "fanart-background") {
            Some(MediaKind::FanartBackground)
        } else if str_eq(s, "fanart-disc") {
            Some(MediaKind::FanartDisc)
        } else if str_eq(s, "advert-front") {
            Some(MediaKind::AdvertFront)
        } else if str_eq(s, "advert-back") {
            Some(MediaKind::AdvertBack)
        } else if str_eq(s, "arcade-cabinet") {
            Some(MediaKind::ArcadeCabinet)
        } else if str_eq(s, "arcade-marquee") {
            Some(MediaKind::ArcadeMarquee)
        } else if str_eq(s, "arcade-controlpanel") {
            Some(MediaKind::ArcadeControlpanel)
        } else if str_eq(s, "arcade-controlsinfo") {
            Some(MediaKind::ArcadeControlsinfo)
        } else if str_eq(s, "arcade-playerselect") {
            Some(MediaKind::ArcadePlayerselect)
        } else if str_eq(s, "arcade-flyer") {
            Some(MediaKind::ArcadeFlyer)
        } else if str_eq(s, "video") {
            Some(MediaKind::Video)
        } else if str_eq(s, "music") {
            Some(MediaKind::Music)
        } else if str_eq(s, "manual") {
            Some(MediaKind::Manual)
        } else {
            None
        }
    }

    /// Canonical kebab-case name (folder names and JSON keys).
    pub fn as_str(&self) -> (r: &'static str)
        ensures
            r@ == kind_name(*self),
    {
        match self {
            MediaKind::BoxFront => "box-front",
            MediaKind::BoxBack => "box-back",
            MediaKind::Box3d => "box-3d",
            MediaKind::BoxSpine => "box-spine",
            MediaKind::BoxFull => "box-full",
            MediaKind::CartFront => "cart-front",
            MediaKind::CartBack => "cart-back",
            MediaKind::Cart3d => "cart-3d",
            MediaKind::Disc => "disc",
            MediaKind::ScreenshotGameplay => "screenshot-gameplay",
            MediaKind::ScreenshotTitle => "screenshot-title",
            MediaKind::ScreenshotSelect => "screenshot-select",
            MediaKind::Banner => "banner",
            MediaKind::ClearLogo => "clear-logo",
            MediaKind::FanartBackground => "fanart-background",
            MediaKind::FanartDisc => "fanart-disc",
            MediaKind::AdvertFront => "advert-front",
            MediaKind::AdvertBack => "advert-back",
            MediaKind::ArcadeCabinet => "arcade-cabinet",
            MediaKind::ArcadeMarquee => "arcade-marquee",
            MediaKind::ArcadeControlpanel => "arcade-controlpanel",
            MediaKind::ArcadeControlsinfo => "arcade-controlsinfo",
            MediaKind::ArcadePlayerselect => "arcade-playerselect",
            MediaKind::ArcadeFlyer => "arcade-flyer",
            MediaKind::Video => "video",
            MediaKind::Music => "music",
            MediaKind::Manual => "manual",
        }
    }

    /// libretro-thumbnails subdirectory hosting this kind, for the three
    /// kinds that have one.
    pub fn libretro_thumbnails_subdir(&self) -> (r: Option<&'static str>)
        ensures
            opt_view(r) == thumbnails_subdir(*self),
    {
        match self {
            MediaKind::BoxFront => Some("Named_Boxarts"),
            MediaKind::ScreenshotGameplay => Some("Named_Snaps"),
            MediaKind::ScreenshotTitle => Some("Named_Titles"),
            _ => None,
        }
    }
}

/// Parsing the canonical name of a kind gives that kind back.
pub proof fn law_kind_name_round_trip(k: MediaKind)
    ensures
        kind_of_name(kind_name(k)) == Some(k),
{

    reveal_strlit("boxart");
    reveal_strlit("snap");
    reveal_strlit("title");
    reveal_strlit("cart");
    reveal_strlit("box-front");
    reveal_strlit("box-back");
    reveal_strlit("box-3d");
    reveal_strlit("box-spine");
    reveal_strlit("box-full");
    reveal_strlit("cart-front");
    reveal_strlit("cart-back");
    reveal_strlit("cart-3d");
    reveal_strlit("disc");
    reveal_strlit("screenshot-gameplay");
    reveal_strlit("screenshot-title");
    reveal_strlit("screenshot-select");
    reveal_strlit("banner");
    reveal_strlit("clear-logo");
    reveal_strlit("fanart-background");
    reveal_strlit("fanart-disc");
    reveal_strlit("advert-front");
    reveal_strlit("advert-back");
    reveal_strlit("arcade-cabinet");
    reveal_strlit("arcade-marquee");
    reveal_strlit("arcade-controlpanel");
    reveal_strlit("arcade-controlsinfo");
    reveal_strlit("arcade-playerselect");
    reveal_strlit("arcade-flyer");
    reveal_strlit("video");
    reveal_strlit("music");
    reveal_strlit("manual");
    match k {
        MediaKind::BoxFront => { assert("box-front"@.len() != "boxart"@.len()); assert("box-front"@.len() != "snap"@.len()); assert("box-front"@.len() != "title"@.len()); assert("box-front"@.len() != "cart"@.len()); },
        MediaKind::BoxBack => { assert("box-back"@.len() != "boxart"@.len()); assert("box-back"@.len() != "snap"@.len()); assert("box-back"@.len() != "title"@.len()); assert("box-back"@.len() != "cart"@.len()); assert("box-back"@.len() != "box-front"@.len()); },
        MediaKind::Box3d => { assert("box-3d"@[3] != "boxart"@[3]); assert("box-3d"@.len() != "snap"@.len()); assert("box-3d"@.len() != "title"@.len()); assert("box-3d"@.len() != "cart"@.len()); assert("box-3d"@.len() != "box-front"@.len()); assert("box-3d"@.len() != "box-back"@.len()); },
        MediaKind::BoxSpine => { assert("box-spine"@.len() != "boxart"@.len()); assert("box-spine"@.len() != "snap"@.len()); assert("box-spine"@.len() != "title"@.len()); assert("box-spine"@.len() != "cart"@.len()); assert("box-spine"@[4] != "box-front"@[4]); assert("box-spine"@.len() != "box-back"@.len()); assert("box-spine"@.len() != "box-3d"@.len()); },
        MediaKind::BoxFull => { assert("box-full"@.len() != "boxart"@.len()); assert("box-full"@.len() != "snap"@.len()); assert("box-full"@.len() != "title"@.len()); assert("box-full"@.len() != "cart"@.len()); assert("box-full"@.len() != "box-front"@.len()); assert("box-full"@[4] != "box-back"@[4]); assert("box-full"@.len() != "box-3d"@.len()); assert("box-full"@.len() != "box-spine"@.len()); },
        MediaKind::CartFront => { assert("cart-front"@.len() != "boxart"@.len()); assert("cart-front"@.len() != "snap"@.len()); assert("cart-front"@.len() != "title"@.len()); assert("cart-front"@.len() != "cart"@.len()); assert("cart-front"@.len() != "box-front"@.len()); assert("cart-front"@.len() != "box-back"@.len()); assert("cart-front"@.len() != "box-3d"@.len()); assert("cart-front"@.len() != "box-spine"@.len()); assert("cart-front"@.len() != "box-full"@.len()); },
        MediaKind::CartBack => { assert("cart-back"@.len() != "boxart"@.len()); assert("cart-back"@.len() != "snap"@.len()); assert("cart-back"@.len() != "title"@.len()); assert("cart-back"@.len() != "cart"@.len()); assert("cart-back"@[0] != "box-front"@[0]); assert("cart-back"@.len() != "box-back"@.len()); assert("cart-back"@.len() != "box-3d"@.len()); assert("cart-back"@[0] != "box-spine"@[0]); assert("cart-back"@.len() != "box-full"@.len()); assert("cart-back"@.len() != "cart-front"@.len()); },
        MediaKind::Cart3d => { assert("cart-3d"@.len() != "boxart"@.len()); assert("cart-3d"@.len() != "snap"@.len()); assert("cart-3d"@.len() != "title"@.len()); assert("cart-3d"@.len() != "cart"@.len()); assert("cart-3d"@.len() != "box-front"@.len()); assert("cart-3d"@.len() != "box-back"@.len()); assert("cart-3d"@.len() != "box-3d"@.len()); assert("cart-3d"@.len() != "box-spine"@.len()); assert("cart-3d"@.len() != "box-full"@.len()); assert("cart-3d"@.len() != "cart-front"@.len()); assert("cart-3d"@.len() != "cart-back"@.len()); },
        MediaKind::Disc => { assert("disc"@.len() != "boxart"@.len()); assert("disc"@[0] != "snap"@[0]); assert("disc"@.len() != "title"@.len()); assert("disc"@[0] != "cart"@[0]); assert("disc"@.len() != "box-front"@.len()); assert("disc"@.len() != "box-back"@.len()); assert("disc"@.len() != "box-3d"@.len()); assert("disc"@.len() != "box-spine"@.len()); assert("disc"@.len() != "box-full"@.len()); assert("disc"@.len() != "cart-front"@.len()); assert("disc"@.len() != "cart-back"@.len()); assert("disc"@.len() != "cart-3d"@.len()); },
        MediaKind::ScreenshotGameplay => { assert("screenshot-gameplay"@.len() != "boxart"@.len()); assert("screenshot-gameplay"@.len() != "snap"@.len()); assert("screenshot-gameplay"@.len() != "title"@.len()); assert("screenshot-gameplay"@.len() != "cart"@.len()); assert("screenshot-gameplay"@.len() != "box-front"@.len()); assert("screenshot-gameplay"@.len() != "box-back"@.len()); assert("screenshot-gameplay"@.len() != "box-3d"@.len()); assert("screenshot-gameplay"@.len() != "box-spine"@.len()); assert("screenshot-gameplay"@.len() != "box-full"@.len()); assert("screenshot-gameplay"@.len() != "cart-front"@.len()); assert("screenshot-gameplay"@.len() != "cart-back"@.len()); assert("screenshot-gameplay"@.len() != "cart-3d"@.len()); assert("screenshot-gameplay"@.len() != "disc"@.len()); },
        MediaKind::ScreenshotTitle => { assert("screenshot-title"@.len() != "boxart"@.len()); assert("screenshot-title"@.len() != "snap"@.len()); assert("screenshot-title"@.len() != "title"@.len()); assert("screenshot-title"@.len() != "cart"@.len()); assert("screenshot-title"@.len() != "box-front"@.len()); assert("screenshot-title"@.len() != "box-back"@.len()); assert("screenshot-title"@.len() != "box-3d"@.len()); assert("screenshot-title"@.len() != "box-spine"@.len()); assert("screenshot-title"@.len() != "box-full"@.len()); assert("screenshot-title"@.len() != "cart-front"@.len()); assert("screenshot-title"@.len() != "cart-back"@.len()); assert("screenshot-title"@.len() != "cart-3d"@.len()); assert("screenshot-title"@.len() != "disc"@.len()); assert("screenshot-title"@.len() != "screenshot-gameplay"@.len()); },
        MediaKind::ScreenshotSelect => { assert("screenshot-select"@.len() != "boxart"@.len()); assert("screenshot-select"@.len() != "snap"@.len()); assert("screenshot-select"@.len() != "title"@.len()); assert("screenshot-select"@.len() != "cart"@.len()); assert("screenshot-select"@.len() != "box-front"@.len()); assert("screenshot-select"@.len() != "box-back"@.len()); assert("screenshot-select"@.len() != "box-3d"@.len()); assert("screenshot-select"@.len() != "box-spine"@.len()); assert("screenshot-select"@.len() != "box-full"@.len()); assert("screenshot-select"@.len() != "cart-front"@.len()); assert("screenshot-select"@.len() != "cart-back"@.len()); assert("screenshot-select"@.len() != "cart-3d"@.len()); assert("screenshot-select"@.len() != "disc"@.len()); assert("screenshot-select"@.len() != "screenshot-gameplay"@.len()); assert("screenshot-select"@.len() != "screenshot-title"@.len()); },
        MediaKind::Banner => { assert("banner"@[1] != "boxart"@[1]); assert("banner"@.len() != "snap"@.len()); assert("banner"@.len() != "title"@.len()); assert("banner"@.len() != "cart"@.len()); assert("banner"@.len() != "box-front"@.len()); assert("banner"@.len() != "box-back"@.len()); assert("banner"@[1] != "box-3d"@[1]); assert("banner"@.len() != "box-spine"@.len()); assert("banner"@.len() != "box-full"@.len()); assert("banner"@.len() != "cart-front"@.len()); assert("banner"@.len() != "cart-back"@.len()); assert("banner"@.len() != "cart-3d"@.len()); assert("banner"@.len() != "disc"@.len()); assert("banner"@.len() != "screenshot-gameplay"@.len()); assert("banner"@.len() != "screenshot-title"@.len()); assert("banner"@.len() != "screenshot-select"@.len()); },
        MediaKind::ClearLogo => { assert("clear-logo"@.len() != "boxart"@.len()); assert("clear-logo"@.len() != "snap"@.len()); assert("clear-logo"@.len() != "title"@.len()); assert("clear-logo"@.len() != "cart"@.len()); assert("clear-logo"@.len() != "box-front"@.len()); assert("clear-logo"@.len() != "box-back"@.len()); assert("clear-logo"@.len() != "box-3d"@.len()); assert("clear-logo"@.len() != "box-spine"@.len()); assert("clear-logo"@.len() != "box-full"@.len()); assert("clear-logo"@[1] != "cart-front"@[1]); assert("clear-logo"@.len() != "cart-back"@.len()); assert("clear-logo"@.len() != "cart-3d"@.len()); assert("clear-logo"@.len() != "disc"@.len()); assert("clear-logo"@.len() != "screenshot-gameplay"@.len()); assert("clear-logo"@.len() != "screenshot-title"@.len()); assert("clear-logo"@.len() != "screenshot-select"@.len()); assert("clear-logo"@.len() != "banner"@.len()); },
        MediaKind::FanartBackground => { assert("fanart-background"@.len() != "boxart"@.len()); assert("fanart-background"@.len() != "snap"@.len()); assert("fanart-background"@.len() != "title"@.len()); assert("fanart-background"@.len() != "cart"@.len()); assert("fanart-background"@.len() != "box-front"@.len()); assert("fanart-background"@.len() != "box-back"@.len()); assert("fanart-background"@.len() != "box-3d"@.len()); assert("fanart-background"@.len() != "box-spine"@.len()); assert("fanart-background"@.len() != "box-full"@.len()); assert("fanart-background"@.len() != "cart-front"@.len()); assert("fanart-background"@.len() != "cart-back"@.len()); assert("fanart-background"@.len() != "cart-3d"@.len()); assert("fanart-background"@.len() != "disc"@.len()); assert("fanart-background"@.len() != "screenshot-gameplay"@.len()); assert("fanart-background"@.len() != "screenshot-title"@.len()); assert("fanart-background"@[0] != "screenshot-select"@[0]); assert("fanart-background"@.len() != "banner"@.len()); assert("fanart-background"@.len() != "clear-logo"@.len()); },
        MediaKind::FanartDisc => { assert("fanart-disc"@.len() != "boxart"@.len()); assert("fanart-disc"@.len() != "snap"@.len()); assert("fanart-disc"@.len() != "title"@.len()); assert("fanart-disc"@.len() != "cart"@.len()); assert("fanart-disc"@.len() != "box-front"@.len()); assert("fanart-disc"@.len() != "box-back"@.len()); assert("fanart-disc"@.len() != "box-3d"@.len()); assert("fanart-disc"@.len() != "box-spine"@.len()); assert("fanart-disc"@.len() != "box-full"@.len()); assert("fanart-disc"@.len() != "cart-front"@.len()); assert("fanart-disc"@.len() != "cart-back"@.len()); assert("fanart-disc"@.len() != "cart-3d"@.len()); assert("fanart-disc"@.len() != "disc"@.len()); assert("fanart-disc"@.len() != "screenshot-gameplay"@.len()); assert("fanart-disc"@.len() != "screenshot-title"@.len()); assert("fanart-disc"@.len() != "screenshot-select"@.len()); assert("fanart-disc"@.len() != "banner"@.len()); assert("fanart-disc"@.len() != "clear-logo"@.len()); assert("fanart-disc"@.len() != "fanart-background"@.len()); },
        MediaKind::AdvertFront => { assert("advert-front"@.len() != "boxart"@.len()); assert("advert-front"@.len() != "snap"@.len()); assert("advert-front"@.len() != "title"@.len()); assert("advert-front"@.len() != "cart"@.len()); assert("advert-front"@.len() != "box-front"@.len()); assert("advert-front"@.len() != "box-back"@.len()); assert("advert-front"@.len() != "box-3d"@.len()); assert("advert-front"@.len() != "box-spine"@.len()); assert("advert-front"@.len() != "box-full"@.len()); assert("advert-front"@.len() != "cart-front"@.len()); assert("advert-front"@.len() != "cart-back"@.len()); assert("advert-front"@.len() != "cart-3d"@.len()); assert("advert-front"@.len() != "disc"@.len()); assert("advert-front"@.len() != "screenshot-gameplay"@.len()); assert("advert-front"@.len() != "screenshot-title"@.len()); assert("advert-front"@.len() != "screenshot-select"@.len()); assert("advert-front"@.len() != "banner"@.len()); assert("advert-front"@.len() != "clear-logo"@.len()); assert("advert-front"@.len() != "fanart-background"@.len()); assert("advert-front"@.len() != "fanart-disc"@.len()); },
        MediaKind::AdvertBack => { assert("advert-back"@.len() != "boxart"@.len()); assert("advert-back"@.len() != "snap"@.len()); assert("advert-back"@.len() != "title"@.len()); assert("advert-back"@.len() != "cart"@.len()); assert("advert-back"@.len() != "box-front"@.len()); assert("advert-back"@.len() != "box-back"@.len()); assert("advert-back"@.len() != "box-3d"@.len()); assert("advert-back"@.len() != "box-spine"@.len()); assert("advert-back"@.len() != "box-full"@.len()); assert("advert-back"@.len() != "cart-front"@.len()); assert("advert-back"@.len() != "cart-back"@.len()); assert("advert-back"@.len() != "cart-3d"@.len()); assert("advert-back"@.len() != "disc"@.len()); assert("advert-back"@.len() != "screenshot-gameplay"@.len()); assert("advert-back"@.len() != "screenshot-title"@.len()); assert("advert-back"@.len() != "screenshot-select"@.len()); assert("advert-back"@.len() != "banner"@.len()); assert("advert-back"@.len() != "clear-logo"@.len()); assert("advert-back"@.len() != "fanart-background"@.len()); assert("advert-back"@[0] != "fanart-disc"@[0]); assert("advert-back"@.len() != "advert-front"@.len()); },
        MediaKind::ArcadeCabinet => { assert("arcade-cabinet"@.len() != "boxart"@.len()); assert("arcade-cabinet"@.len() != "snap"@.len()); assert("arcade-cabinet"@.len() != "title"@.len()); assert("arcade-cabinet"@.len() != "cart"@.len()); assert("arcade-cabinet"@.len() != "box-front"@.len()); assert("arcade-cabinet"@.len() != "box-back"@.len()); assert("arcade-cabinet"@.len() != "box-3d"@.len()); assert("arcade-cabinet"@.len() != "box-spine"@.len()); assert("arcade-cabinet"@.len() != "box-full"@.len()); assert("arcade-cabinet"@.len() != "cart-front"@.len()); assert("arcade-cabinet"@.len() != "cart-back"@.len()); assert("arcade-cabinet"@.len() != "cart-3d"@.len()); assert("arcade-cabinet"@.len() != "disc"@.len()); assert("arcade-cabinet"@.len() != "screenshot-gameplay"@.len()); assert("arcade-cabinet"@.len() != "screenshot-title"@.len()); assert("arcade-cabinet"@.len() != "screenshot-select"@.len()); assert("arcade-cabinet"@.len() != "banner"@.len()); assert("arcade-cabinet"@.len() != "clear-logo"@.len()); assert("arcade-cabinet"@.len() != "fanart-background"@.len()); assert("arcade-cabinet"@.len() != "fanart-disc"@.len()); assert("arcade-cabinet"@.len() != "advert-front"@.len()); assert("arcade-cabinet"@.len() != "advert-back"@.len()); },
        MediaKind::ArcadeMarquee => { assert("arcade-marquee"@.len() != "boxart"@.len()); assert("arcade-marquee"@.len() != "snap"@.len()); assert("arcade-marquee"@.len() != "title"@.len()); assert("arcade-marquee"@.len() != "cart"@.len()); assert("arcade-marquee"@.len() != "box-front"@.len()); assert("arcade-marquee"@.len() != "box-back"@.len()); assert("arcade-marquee"@.len() != "box-3d"@.len()); assert("arcade-marquee"@.len() != "box-spine"@.len()); assert("arcade-marquee"@.len() != "box-full"@.len()); assert("arcade-marquee"@.len() != "cart-front"@.len()); assert("arcade-marquee"@.len() != "cart-back"@.len()); assert("arcade-marquee"@.len() != "cart-3d"@.len()); assert("arcade-marquee"@.len() != "disc"@.len()); assert("arcade-marquee"@.len() != "screenshot-gameplay"@.len()); assert("arcade-marquee"@.len() != "screenshot-title"@.len()); assert("arcade-marquee"@.len() != "screenshot-select"@.len()); assert("arcade-marquee"@.len() != "banner"@.len()); assert("arcade-marquee"@.len() != "clear-logo"@.len()); assert("arcade-marquee"@.len() != "fanart-background"@.len()); assert("arcade-marquee"@.len() != "fanart-disc"@.len()); assert("arcade-marquee"@.len() != "advert-front"@.len()); assert("arcade-marquee"@.len() != "advert-back"@.len()); assert("arcade-marquee"@[7] != "arcade-cabinet"@[7]); },
        MediaKind::ArcadeControlpanel => { assert("arcade-controlpanel"@.len() != "boxart"@.len()); assert("arcade-controlpanel"@.len() != "snap"@.len()); assert("arcade-controlpanel"@.len() != "title"@.len()); assert("arcade-controlpanel"@.len() != "cart"@.len()); assert("arcade-controlpanel"@.len() != "box-front"@.len()); assert("arcade-controlpanel"@.len() != "box-back"@.len()); assert("arcade-controlpanel"@.len() != "box-3d"@.len()); assert("arcade-controlpanel"@.len() != "box-spine"@.len()); assert("arcade-controlpanel"@.len() != "box-full"@.len()); assert("arcade-controlpanel"@.len() != "cart-front"@.len()); assert("arcade-controlpanel"@.len() != "cart-back"@.len()); assert("arcade-controlpanel"@.len() != "cart-3d"@.len()); assert("arcade-controlpanel"@.len() != "disc"@.len()); assert("arcade-controlpanel"@[0] != "screenshot-gameplay"@[0]); assert("arcade-controlpanel"@.len() != "screenshot-title"@.len()); assert("arcade-controlpanel"@.len() != "screenshot-select"@.len()); assert("arcade-controlpanel"@.len() != "banner"@.len()); assert("arcade-controlpanel"@.len() != "clear-logo"@.len()); assert("arcade-controlpanel"@.len() != "fanart-background"@.len()); assert("arcade-controlpanel"@.len() != "fanart-disc"@.len()); assert("arcade-controlpanel"@.len() != "advert-front"@.len()); assert("arcade-controlpanel"@.len() != "advert-back"@.len()); assert("arcade-controlpanel"@.len() != "arcade-cabinet"@.len()); assert("arcade-controlpanel"@.len() != "arcade-marquee"@.len()); },
        MediaKind::ArcadeControlsinfo => { assert("arcade-controlsinfo"@.len() != "boxart"@.len()); assert("arcade-controlsinfo"@.len() != "snap"@.len()); assert("arcade-controlsinfo"@.len() != "title"@.len()); assert("arcade-controlsinfo"@.len() != "cart"@.len()); assert("arcade-controlsinfo"@.len() != "box-front"@.len()); assert("arcade-controlsinfo"@.len() != "box-back"@.len()); assert("arcade-controlsinfo"@.len() != "box-3d"@.len()); assert("arcade-controlsinfo"@.len() != "box-spine"@.len()); assert("arcade-controlsinfo"@.len() != "box-full"@.len()); assert("arcade-controlsinfo"@.len() != "cart-front"@.len()); assert("arcade-controlsinfo"@.len() != "cart-back"@.len()); assert("arcade-controlsinfo"@.len() != "cart-3d"@.len()); assert("arcade-controlsinfo"@.len() != "disc"@.len()); assert("arcade-controlsinfo"@[0] != "screenshot-gameplay"@[0]); assert("arcade-controlsinfo"@.len() != "screenshot-title"@.len()); assert("arcade-controlsinfo"@.len() != "screenshot-select"@.len()); assert("arcade-controlsinfo"@.len() != "banner"@.len()); assert("arcade-controlsinfo"@.len() != "clear-logo"@.len()); assert("arcade-controlsinfo"@.len() != "fanart-background"@.len()); assert("arcade-controlsinfo"@.len() != "fanart-disc"@.len()); assert("arcade-controlsinfo"@.len() != "advert-front"@.len()); assert("arcade-controlsinfo"@.len() != "advert-back"@.len()); assert("arcade-controlsinfo"@.len() != "arcade-cabinet"@.len()); assert("arcade-controlsinfo"@.len() != "arcade-marquee"@.len()); assert("arcade-controlsinfo"@[14] != "arcade-controlpanel"@[14]); },
        MediaKind::ArcadePlayerselect => { assert("arcade-playerselect"@.len() != "boxart"@.len()); assert("arcade-playerselect"@.len() != "snap"@.len()); assert("arcade-playerselect"@.len() != "title"@.len()); assert("arcade-playerselect"@.len() != "cart"@.len()); assert("arcade-playerselect"@.len() != "box-front"@.len()); assert("arcade-playerselect"@.len() != "box-back"@.len()); assert("arcade-playerselect"@.len() != "box-3d"@.len()); assert("arcade-playerselect"@.len() != "box-spine"@.len()); assert("arcade-playerselect"@.len() != "box-full"@.len()); assert("arcade-playerselect"@.len() != "cart-front"@.len()); assert("arcade-playerselect"@.len() != "cart-back"@.len()); assert("arcade-playerselect"@.len() != "cart-3d"@.len()); assert("arcade-playerselect"@.len() != "disc"@.len()); assert("arcade-playerselect"@[0] != "screenshot-gameplay"@[0]); assert("arcade-playerselect"@.len() != "screenshot-title"@.len()); assert("arcade-playerselect"@.len() != "screenshot-select"@.len()); assert("arcade-playerselect"@.len() != "banner"@.len()); assert("arcade-playerselect"@.len() != "clear-logo"@.len()); assert("arcade-playerselect"@.len() != "fanart-background"@.len()); assert("arcade-playerselect"@.len() != "fanart-disc"@.len()); assert("arcade-playerselect"@.len() != "advert-front"@.len()); assert("arcade-playerselect"@.len() != "advert-back"@.len()); assert("arcade-playerselect"@.len() != "arcade-cabinet"@.len()); assert("arcade-playerselect"@.len() != "arcade-marquee"@.len()); assert("arcade-playerselect"@[7] != "arcade-controlpanel"@[7]); assert("arcade-playerselect"@[7] != "arcade-controlsinfo"@[7]); },
        MediaKind::ArcadeFlyer => { assert("arcade-flyer"@.len() != "boxart"@.len()); assert("arcade-flyer"@.len() != "snap"@.len()); assert("arcade-flyer"@.len() != "title"@.len()); assert("arcade-flyer"@.len() != "cart"@.len()); assert("arcade-flyer"@.len() != "box-front"@.len()); assert("arcade-flyer"@.len() != "box-back"@.len()); assert("arcade-flyer"@.len() != "box-3d"@.len()); assert("arcade-flyer"@.len() != "box-spine"@.len()); assert("arcade-flyer"@.len() != "box-full"@.len()); assert("arcade-flyer"@.len() != "cart-front"@.len()); assert("arcade-flyer"@.len() != "cart-back"@.len()); assert("arcade-flyer"@.len() != "cart-3d"@.len()); assert("arcade-flyer"@.len() != "disc"@.len()); assert("arcade-flyer"@.len() != "screenshot-gameplay"@.len()); assert("arcade-flyer"@.len() != "screenshot-title"@.len()); assert("arcade-flyer"@.len() != "screenshot-select"@.len()); assert("arcade-flyer"@.len() != "banner"@.len()); assert("arcade-flyer"@.len() != "clear-logo"@.len()); assert("arcade-flyer"@.len() != "fanart-background"@.len()); assert("arcade-flyer"@.len() != "fanart-disc"@.len()); assert("arcade-flyer"@[1] != "advert-front"@[1]); assert("arcade-flyer"@.len() != "advert-back"@.len()); assert("arcade-flyer"@.len() != "arcade-cabinet"@.len()); assert("arcade-flyer"@.len() != "arcade-marquee"@.len()); assert("arcade-flyer"@.len() != "arcade-controlpanel"@.len()); assert("arcade-flyer"@.len() != "arcade-controlsinfo"@.len()); assert("arcade-flyer"@.len() != "arcade-playerselect"@.len()); },
        MediaKind::Video => { assert("video"@.len() != "boxart"@.len()); assert("video"@.len() != "snap"@.len()); assert("video"@[0] != "title"@[0]); assert("video"@.len() != "cart"@.len()); assert("video"@.len() != "box-front"@.len()); assert("video"@.len() != "box-back"@.len()); assert("video"@.len() != "box-3d"@.len()); assert("video"@.len() != "box-spine"@.len()); assert("video"@.len() != "box-full"@.len()); assert("video"@.len() != "cart-front"@.len()); assert("video"@.len() != "cart-back"@.len()); assert("video"@.len() != "cart-3d"@.len()); assert("video"@.len() != "disc"@.len()); assert("video"@.len() != "screenshot-gameplay"@.len()); assert("video"@.len() != "screenshot-title"@.len()); assert("video"@.len() != "screenshot-select"@.len()); assert("video"@.len() != "banner"@.len()); assert("video"@.len() != "clear-logo"@.len()); assert("video"@.len() != "fanart-background"@.len()); assert("video"@.len() != "fanart-disc"@.len()); assert("video"@.len() != "advert-front"@.len()); assert("video"@.len() != "advert-back"@.len()); assert("video"@.len() != "arcade-cabinet"@.len()); assert("video"@.len() != "arcade-marquee"@.len()); assert("video"@.len() != "arcade-controlpanel"@.len()); assert("video"@.len() != "arcade-controlsinfo"@.len()); assert("video"@.len() != "arcade-playerselect"@.len()); assert("video"@.len() != "arcade-flyer"@.len()); },
        MediaKind::Music => { assert("music"@.len() != "boxart"@.len()); assert("music"@.len() != "snap"@.len()); assert("music"@[0] != "title"@[0]); assert("music"@.len() != "cart"@.len()); assert("music"@.len() != "box-front"@.len()); assert("music"@.len() != "box-back"@.len()); assert("music"@.len() != "box-3d"@.len()); assert("music"@.len() != "box-spine"@.len()); assert("music"@.len() != "box-full"@.len()); assert("music"@.len() != "cart-front"@.len()); assert("music"@.len() != "cart-back"@.len()); assert("music"@.len() != "cart-3d"@.len()); assert("music"@.len() != "disc"@.len()); assert("music"@.len() != "screenshot-gameplay"@.len()); assert("music"@.len() != "screenshot-title"@.len()); assert("music"@.len() != "screenshot-select"@.len()); assert("music"@.len() != "banner"@.len()); assert("music"@.len() != "clear-logo"@.len()); assert("music"@.len() != "fanart-background"@.len()); assert("music"@.len() != "fanart-disc"@.len()); assert("music"@.len() != "advert-front"@.len()); assert("music"@.len() != "advert-back"@.len()); assert("music"@.len() != "arcade-cabinet"@.len()); assert("music"@.len() != "arcade-marquee"@.len()); assert("music"@.len() != "arcade-controlpanel"@.len()); assert("music"@.len() != "arcade-controlsinfo"@.len()); assert("music"@.len() != "arcade-playerselect"@.len()); assert("music"@.len() != "arcade-flyer"@.len()); assert("music"@[0] != "video"@[0]); },
        MediaKind::Manual => { assert("manual"@[0] != "boxart"@[0]); assert("manual"@.len() != "snap"@.len()); assert("manual"@.len() != "title"@.len()); assert("manual"@.len() != "cart"@.len()); assert("manual"@.len() != "box-front"@.len()); assert("manual"@.len() != "box-back"@.len()); assert("manual"@[0] != "box-3d"@[0]); assert("manual"@.len() != "box-spine"@.len()); assert("manual"@.len() != "box-full"@.len()); assert("manual"@.len() != "cart-front"@.len()); assert("manual"@.len() != "cart-back"@.len()); assert("manual"@.len() != "cart-3d"@.len()); assert("manual"@.len() != "disc"@.len()); assert("manual"@.len() != "screenshot-gameplay"@.len()); assert("manual"@.len() != "screenshot-title"@.len()); assert("manual"@.len() != "screenshot-select"@.len()); assert("manual"@[0] != "banner"@[0]); assert("manual"@.len() != "clear-logo"@.len()); assert("manual"@.len() != "fanart-background"@.len()); assert("manual"@.len() != "fanart-disc"@.len()); assert("manual"@.len() != "advert-front"@.len()); assert("manual"@.len() != "advert-back"@.len()); assert("manual"@.len() != "arcade-cabinet"@.len()); assert("manual"@.len() != "arcade-marquee"@.len()); assert("manual"@.len() != "arcade-controlpanel"@.len()); assert("manual"@.len() != "arcade-controlsinfo"@.len()); assert("manual"@.len() != "arcade-playerselect"@.len()); assert("manual"@.len() != "arcade-flyer"@.len()); assert("manual"@.len() != "video"@.len()); assert("manual"@.len() != "music"@.len()); },
    }
}

/// Each canonical name names exactly one kind: distinct kinds have
/// distinct names.
pub proof fn law_kind_names_distinct(a: MediaKind, b: MediaKind)
    requires
        a != b,
    ensures
        kind_name(a) != kind_name(b),
{
    law_kind_name_round_trip(a);
    law_kind_name_round_trip(b);
}

/// Every kind is listed in `all_kinds`, exactly once.
pub proof fn law_all_kinds_complete(k: MediaKind)
    ensures
        all_kinds().contains(k),
        all_kinds().len() == 27,
        forall|i: int, j: int|
            0 <= i < j < all_kinds().len() ==> all_kinds()[i] != all_kinds()[j],
{
    match k {
        MediaKind::BoxFront => assert(all_kinds()[0] == k),
        MediaKind::BoxBack => assert(all_kinds()[1] == k),
        MediaKind::Box3d => assert(all_kinds()[2] == k),
        MediaKind::BoxSpine => assert(all_kinds()[3] == k),
        MediaKind::BoxFull => assert(all_kinds()[4] == k),
        MediaKind::CartFront => assert(all_kinds()[5] == k),
        MediaKind::CartBack => assert(all_kinds()[6] == k),
        MediaKind::Cart3d => assert(all_kinds()[7] == k),
        MediaKind::Disc => assert(all_kinds()[8] == k),
        MediaKind::ScreenshotGameplay => assert(all_kinds()[9] == k),
        MediaKind::ScreenshotTitle => assert(all_kinds()[10] == k),
        MediaKind::ScreenshotSelect => assert(all_kinds()[11] == k),
        MediaKind::Banner => assert(all_kinds()[12] == k),
        MediaKind::ClearLogo => assert(all_kinds()[13] == k),
        MediaKind::FanartBackground => assert(all_kinds()[14] == k),
        MediaKind::FanartDisc => assert(all_kinds()[15] == k),
        MediaKind::AdvertFront => assert(all_kinds()[16] == k),
        MediaKind::AdvertBack => assert(all_kinds()[17] == k),
        MediaKind::ArcadeCabinet => assert(all_kinds()[18] == k),
        MediaKind::ArcadeMarquee => assert(all_kinds()[19] == k),
        MediaKind::ArcadeControlpanel => assert(all_kinds()[20] == k),
        MediaKind::ArcadeControlsinfo => assert(all_kinds()[21] == k),
        MediaKind::ArcadePlayerselect => assert(all_kinds()[22] == k),
        MediaKind::ArcadeFlyer => assert(all_kinds()[23] == k),
        MediaKind::Video => assert(all_kinds()[24] == k),
        MediaKind::Music => assert(all_kinds()[25] == k),
        MediaKind::Manual => assert(all_kinds()[26] == k),
    }
}

/// Per-slot pinned variant index; `None` leaves the choice to region
/// priority.
#[derive(Clone, Copy, Debug)]
pub struct SelectedMedia {
    pub box_front_index: Option<usize>,
    pub box_back_index: Option<usize>,
    pub box_3d_index: Option<usize>,
    pub box_spine_index: Option<usize>,
    pub box_full_index: Option<usize>,
    pub cart_front_index: Option<usize>,
    pub cart_back_index: Option<usize>,
    pub cart_3d_index: Option<usize>,
    pub disc_index: Option<usize>,
    pub screenshot_gameplay_index: Option<usize>,
    pub screenshot_title_index: Option<usize>,
    pub screenshot_select_index: Option<usize>,
    pub banner_index: Option<usize>,
    pub clear_logo_index: Option<usize>,
    pub fanart_background_index: Option<usize>,
    pub fanart_disc_index: Option<usize>,
    pub advert_front_index: Option<usize>,
    pub advert_back_index: Option<usize>,
    pub arcade_cabinet_index: Option<usize>,
    pub arcade_marquee_index: Option<usize>,
    pub arcade_controlpanel_index: Option<usize>,
    pub arcade_controlsinfo_index: Option<usize>,
    pub arcade_playerselect_index: Option<usize>,
    pub arcade_flyer_index: Option<usize>,
    pub video_index: Option<usize>,
    pub music_index: Option<usize>,
    pub manual_index: Option<usize>,
}

/// The pin that `s` holds for kind `k`.
pub open spec fn pin_of(s: SelectedMedia, k: MediaKind) -> Option<usize> {
    match k {
        MediaKind::BoxFront => s.box_front_index,
        MediaKind::BoxBack => s.box_back_index,
        MediaKind::Box3d => s.box_3d_index,
        MediaKind::BoxSpine => s.box_spine_index,
        MediaKind::BoxFull => s.box_full_index,
        MediaKind::CartFront => s.cart_front_index,
        MediaKind::CartBack => s.cart_back_index,
        MediaKind::Cart3d => s.cart_3d_index,
        MediaKind::Disc => s.disc_index,
        MediaKind::ScreenshotGameplay => s.screenshot_gameplay_index,
        MediaKind::ScreenshotTitle => s.screenshot_title_index,
        MediaKind::ScreenshotSelect => s.screenshot_select_index,
        MediaKind::Banner => s.banner_index,
        MediaKind::ClearLogo => s.clear_logo_index,
        MediaKind::FanartBackground => s.fanart_background_index,
        MediaKind::FanartDisc => s.fanart_disc_index,
        MediaKind::AdvertFront => s.advert_front_index,
        MediaKind::AdvertBack => s.advert_back_index,
        MediaKind::ArcadeCabinet => s.arcade_cabinet_index,
        MediaKind::ArcadeMarquee => s.arcade_marquee_index,
        MediaKind::ArcadeControlpanel => s.arcade_controlpanel_index,
        MediaKind::ArcadeControlsinfo => s.arcade_controlsinfo_index,
        MediaKind::ArcadePlayerselect => s.arcade_playerselect_index,
        MediaKind::ArcadeFlyer => s.arcade_flyer_index,
        MediaKind::Video => s.video_index,
        MediaKind::Music => s.music_index,
        MediaKind::Manual => s.manual_index,
    }
}

/// `s` with the pin for kind `k` set to `idx`.
pub open spec fn with_pin(s: SelectedMedia, k: MediaKind, idx: Option<usize>) -> SelectedMedia {
    match k {
        MediaKind::BoxFront => SelectedMedia { box_front_index: idx, ..s },
        MediaKind::BoxBack => SelectedMedia { box_back_index: idx, ..s },
        MediaKind::Box3d => SelectedMedia { box_3d_index: idx, ..s },
        MediaKind::BoxSpine => SelectedMedia { box_spine_index: idx, ..s },
        MediaKind::BoxFull => SelectedMedia { box_full_index: idx, ..s },
        MediaKind::CartFront => SelectedMedia { cart_front_index: idx, ..s },
        MediaKind::CartBack => SelectedMedia { cart_back_index: idx, ..s },
        MediaKind::Cart3d => SelectedMedia { cart_3d_index: idx, ..s },
        MediaKind::Disc => SelectedMedia { disc_index: idx, ..s },
        MediaKind::ScreenshotGameplay => SelectedMedia { screenshot_gameplay_index: idx, ..s },
        MediaKind::ScreenshotTitle => SelectedMedia { screenshot_title_index: idx, ..s },
        MediaKind::ScreenshotSelect => SelectedMedia { screenshot_select_index: idx, ..s },
        MediaKind::Banner => SelectedMedia { banner_index: idx, ..s },
        MediaKind::ClearLogo => SelectedMedia { clear_logo_index: idx, ..s },
        MediaKind::FanartBackground => SelectedMedia { fanart_background_index: idx, ..s },
        MediaKind::FanartDisc => SelectedMedia { fanart_disc_index: idx, ..s },
        MediaKind::AdvertFront => SelectedMedia { advert_front_index: idx, ..s },
        MediaKind::AdvertBack => SelectedMedia { advert_back_index: idx, ..s },
        MediaKind::ArcadeCabinet => SelectedMedia { arcade_cabinet_index: idx, ..s },
        MediaKind::ArcadeMarquee => SelectedMedia { arcade_marquee_index: idx, ..s },
        MediaKind::ArcadeControlpanel => SelectedMedia { arcade_controlpanel_index: idx, ..s },
        MediaKind::ArcadeControlsinfo => SelectedMedia { arcade_controlsinfo_index: idx, ..s },
        MediaKind::ArcadePlayerselect => SelectedMedia { arcade_playerselect_index: idx, ..s },
        MediaKind::ArcadeFlyer => SelectedMedia { arcade_flyer_index: idx, ..s },
        MediaKind::Video => SelectedMedia { video_index: idx, ..s },
        MediaKind::Music => SelectedMedia { music_index: idx, ..s },
        MediaKind::Manual => SelectedMedia { manual_index: idx, ..s },
    }
}

impl Default for SelectedMedia {
    fn default() -> (r: Self)
        ensures
            forall|k: MediaKind| #[trigger] pin_of(r, k) is None,
    {
        SelectedMedia {
            box_front_index: None,
            box_back_index: None,
            box_3d_index: None,
            box_spine_index: None,
            box_full_index: None,
            cart_front_index: None,
            cart_back_index: None,
            cart_3d_index: None,
            disc_index: None,
            screenshot_gameplay_index: None,
            screenshot_title_index: None,
            screenshot_select_index: None,
            banner_index: None,
            clear_logo_index: None,
            fanart_background_index: None,
            fanart_disc_index: None,
            advert_front_index: None,
            advert_back_index: None,
            arcade_cabinet_index: None,
            arcade_marquee_index: None,
            arcade_controlpanel_index: None,
            arcade_controlsinfo_index: None,
            arcade_playerselect_index: None,
            arcade_flyer_index: None,
            video_index: None,
            music_index: None,
            manual_index: None,
        }
    }
}

impl SelectedMedia {
    /// Set the pinned-variant index for `kind`; `None` clears the pin.
    pub fn set_for_kind(&mut self, kind: MediaKind, idx: Option<usize>)
        ensures
            *final(self) == with_pin(*old(self), kind, idx),
    {
        match kind {
            MediaKind::BoxFront => self.box_front_index = idx,
            MediaKind::BoxBack => self.box_back_index = idx,
            MediaKind::Box3d => self.box_3d_index = idx,
            MediaKind::BoxSpine => self.box_spine_index = idx,
            MediaKind::BoxFull => self.box_full_index = idx,
            MediaKind::CartFront => self.cart_front_index = idx,
            MediaKind::CartBack => self.cart_back_index = idx,
            MediaKind::Cart3d => self.cart_3d_index = idx,
            MediaKind::Disc => self.disc_index = idx,
            MediaKind::ScreenshotGameplay => self.screenshot_gameplay_index = idx,
            MediaKind::ScreenshotTitle => self.screenshot_title_index = idx,
            MediaKind::ScreenshotSelect => self.screenshot_select_index = idx,
            MediaKind::Banner => self.banner_index = idx,
            MediaKind::ClearLogo => self.clear_logo_index = idx,
            MediaKind::FanartBackground => self.fanart_background_index = idx,
            MediaKind::FanartDisc => self.fanart_disc_index = idx,
            MediaKind::AdvertFront => self.advert_front_index = idx,
            MediaKind::AdvertBack => self.advert_back_index = idx,
            MediaKind::ArcadeCabinet => self.arcade_cabinet_index = idx,
            MediaKind::ArcadeMarquee => self.arcade_marquee_index = idx,
            MediaKind::ArcadeControlpanel => self.arcade_controlpanel_index = idx,
            MediaKind::ArcadeControlsinfo => self.arcade_controlsinfo_index = idx,
            MediaKind::ArcadePlayerselect => self.arcade_playerselect_index = idx,
            MediaKind::ArcadeFlyer => self.arcade_flyer_index = idx,
            MediaKind::Video => self.video_index = idx,
            MediaKind::Music => self.music_index = idx,
            MediaKind::Manual => self.manual_index = idx,
        }
    }

    /// The pinned-variant index for `kind`.
    pub fn get_for_kind(&self, kind: MediaKind) -> (r: Option<usize>)
        ensures
            r == pin_of(*self, kind),
    {
        match kind {
            MediaKind::BoxFront => self.box_front_index,
            MediaKind::BoxBack => self.box_back_index,
            MediaKind::Box3d => self.box_3d_index,
            MediaKind::BoxSpine => self.box_spine_index,
            MediaKind::BoxFull => self.box_full_index,
            MediaKind::CartFront => self.cart_front_index,
            MediaKind::CartBack => self.cart_back_index,
            MediaKind::Cart3d => self.cart_3d_index,
            MediaKind::Disc => self.disc_index,
            MediaKind::ScreenshotGameplay => self.screenshot_gameplay_index,
            MediaKind::ScreenshotTitle => self.screenshot_title_index,
            MediaKind::ScreenshotSelect => self.screenshot_select_index,
            MediaKind::Banner => self.banner_index,
            MediaKind::ClearLogo => self.clear_logo_index,
            MediaKind::FanartBackground => self.fanart_background_index,
            MediaKind::FanartDisc => self.fanart_disc_index,
            MediaKind::AdvertFront => self.advert_front_index,
            MediaKind::AdvertBack => self.advert_back_index,
            MediaKind::ArcadeCabinet => self.arcade_cabinet_index,
            MediaKind::ArcadeMarquee => self.arcade_marquee_index,
            MediaKind::ArcadeControlpanel => self.arcade_controlpanel_index,
            MediaKind::ArcadeControlsinfo => self.arcade_controlsinfo_index,
            MediaKind::ArcadePlayerselect => self.arcade_playerselect_index,
            MediaKind::ArcadeFlyer => self.arcade_flyer_index,
            MediaKind::Video => self.video_index,
            MediaKind::Music => self.music_index,
            MediaKind::Manual => self.manual_index,
        }
    }
}

/// Reading a pin gives back what was last set for that kind, and setting
/// one kind's pin leaves every other kind's pin as it was.
pub proof fn law_pin_set_then_get(s: SelectedMedia, k: MediaKind, idx: Option<usize>, other: MediaKind)
    ensures
        pin_of(with_pin(s, k, idx), k) == idx,
        other != k ==> pin_of(with_pin(s, k, idx), other) == pin_of(s, other),
{
}
/// All media of one game: a list of variants per slot, the pinned
/// variant per slot and room for catalog metadata.
#[derive(Clone, Debug)]
pub struct GameMedia {
    pub box_front: Vec<MediaVariant>,
    pub box_back: Vec<MediaVariant>,
    pub box_3d: Vec<MediaVariant>,
    pub box_spine: Vec<MediaVariant>,
    pub box_full: Vec<MediaVariant>,
    pub cart_front: Vec<MediaVariant>,
    pub cart_back: Vec<MediaVariant>,
    pub cart_3d: Vec<MediaVariant>,
    pub disc: Vec<MediaVariant>,
    pub screenshot_gameplay: Vec<MediaVariant>,
    pub screenshot_title: Vec<MediaVariant>,
    pub screenshot_select: Vec<MediaVariant>,
    pub banner: Vec<MediaVariant>,
    pub clear_logo: Vec<MediaVariant>,
    pub fanart_background: Vec<MediaVariant>,
    pub fanart_disc: Vec<MediaVariant>,
    pub advert_front: Vec<MediaVariant>,
    pub advert_back: Vec<MediaVariant>,
    pub arcade_cabinet: Vec<MediaVariant>,
    pub arcade_marquee: Vec<MediaVariant>,
    pub arcade_controlpanel: Vec<MediaVariant>,
    pub arcade_controlsinfo: Vec<MediaVariant>,
    pub arcade_playerselect: Vec<MediaVariant>,
    pub arcade_flyer: Vec<MediaVariant>,
    pub video: Vec<MediaVariant>,
    pub music: Vec<MediaVariant>,
    pub manual: Vec<MediaVariant>,
    pub selected: Option<SelectedMedia>,
    pub metadata: Option<GameMetadata>,
}

/// The variants that `gm` holds for kind `k`.
pub open spec fn slot(gm: GameMedia, k: MediaKind) -> Vec<MediaVariant> {
    match k {
        MediaKind::BoxFront => gm.box_front,
        MediaKind::BoxBack => gm.box_back,
        MediaKind::Box3d => gm.box_3d,
        MediaKind::BoxSpine => gm.box_spine,
        MediaKind::BoxFull => gm.box_full,
        MediaKind::CartFront => gm.cart_front,
        MediaKind::CartBack => gm.cart_back,
        MediaKind::Cart3d => gm.cart_3d,
        MediaKind::Disc => gm.disc,
        MediaKind::ScreenshotGameplay => gm.screenshot_gameplay,
        MediaKind::ScreenshotTitle => gm.screenshot_title,
        MediaKind::ScreenshotSelect => gm.screenshot_select,
        MediaKind::Banner => gm.banner,
        MediaKind::ClearLogo => gm.clear_logo,
        MediaKind::FanartBackground => gm.fanart_background,
        MediaKind::FanartDisc => gm.fanart_disc,
        MediaKind::AdvertFront => gm.advert_front,
        MediaKind::AdvertBack => gm.advert_back,
        MediaKind::ArcadeCabinet => gm.arcade_cabinet,
        MediaKind::ArcadeMarquee => gm.arcade_marquee,
        MediaKind::ArcadeControlpanel => gm.arcade_controlpanel,
        MediaKind::ArcadeControlsinfo => gm.arcade_controlsinfo,
        MediaKind::ArcadePlayerselect => gm.arcade_playerselect,
        MediaKind::ArcadeFlyer => gm.arcade_flyer,
        MediaKind::Video => gm.video,
        MediaKind::Music => gm.music,
        MediaKind::Manual => gm.manual,
    }
}

/// `gm` with the variants of kind `k` replaced by `v`.
pub open spec fn with_slot(gm: GameMedia, k: MediaKind, v: Vec<MediaVariant>) -> GameMedia {
    match k {
        MediaKind::BoxFront => GameMedia { box_front: v, ..gm },
        MediaKind::BoxBack => GameMedia { box_back: v, ..gm },
        MediaKind::Box3d => GameMedia { box_3d: v, ..gm },
        MediaKind::BoxSpine => GameMedia { box_spine: v, ..gm },
        MediaKind::BoxFull => GameMedia { box_full: v, ..gm },
        MediaKind::CartFront => GameMedia { cart_front: v, ..gm },
        MediaKind::CartBack => GameMedia { cart_back: v, ..gm },
        MediaKind::Cart3d => GameMedia { cart_3d: v, ..gm },
        MediaKind::Disc => GameMedia { disc: v, ..gm },
        MediaKind::ScreenshotGameplay => GameMedia { screenshot_gameplay: v, ..gm },
        MediaKind::ScreenshotTitle => GameMedia { screenshot_title: v, ..gm },
        MediaKind::ScreenshotSelect => GameMedia { screenshot_select: v, ..gm },
        MediaKind::Banner => GameMedia { banner: v, ..gm },
        MediaKind::ClearLogo => GameMedia { clear_logo: v, ..gm },
        MediaKind::FanartBackground => GameMedia { fanart_background: v, ..gm },
        MediaKind::FanartDisc => GameMedia { fanart_disc: v, ..gm },
        MediaKind::AdvertFront => GameMedia { advert_front: v, ..gm },
        MediaKind::AdvertBack => GameMedia { advert_back: v, ..gm },
        MediaKind::ArcadeCabinet => GameMedia { arcade_cabinet: v, ..gm },
        MediaKind::ArcadeMarquee => GameMedia { arcade_marquee: v, ..gm },
        MediaKind::ArcadeControlpanel => GameMedia { arcade_controlpanel: v, ..gm },
        MediaKind::ArcadeControlsinfo => GameMedia { arcade_controlsinfo: v, ..gm },
        MediaKind::ArcadePlayerselect => GameMedia { arcade_playerselect: v, ..gm },
        MediaKind::ArcadeFlyer => GameMedia { arcade_flyer: v, ..gm },
        MediaKind::Video => GameMedia { video: v, ..gm },
        MediaKind::Music => GameMedia { music: v, ..gm },
        MediaKind::Manual => GameMedia { manual: v, ..gm },
    }
}

impl Default for GameMedia {
    fn default() -> (r: Self)
        ensures
            forall|k: MediaKind| #[trigger] slot(r, k)@.len() == 0,
            r.selected is None,
            r.metadata is None,
    {
        GameMedia {
            box_front: Vec::new(),
            box_back: Vec::new(),
            box_3d: Vec::new(),
            box_spine: Vec::new(),
            box_full: Vec::new(),
            cart_front: Vec::new(),
            cart_back: Vec::new(),
            cart_3d: Vec::new(),
            disc: Vec::new(),
            screenshot_gameplay: Vec::new(),
            screenshot_title: Vec::new(),
            screenshot_select: Vec::new(),
            banner: Vec::new(),
            clear_logo: Vec::new(),
            fanart_background: Vec::new(),
            fanart_disc: Vec::new(),
            advert_front: Vec::new(),
            advert_back: Vec::new(),
            arcade_cabinet: Vec::new(),
            arcade_marquee: Vec::new(),
            arcade_controlpanel: Vec::new(),
            arcade_controlsinfo: Vec::new(),
            arcade_playerselect: Vec::new(),
            arcade_flyer: Vec::new(),
            video: Vec::new(),
            music: Vec::new(),
            manual: Vec::new(),
            selected: None,
            metadata: None,
        }
    }
}

impl MediaKind {
    /// The variants `gm` holds for this kind.
    pub fn variants<'a>(&self, gm: &'a GameMedia) -> (r: &'a [MediaVariant])
        ensures
            r@ == slot(*gm, *self)@,
    {
        match self {
            MediaKind::BoxFront => gm.box_front.as_slice(),
            MediaKind::BoxBack => gm.box_back.as_slice(),
            MediaKind::Box3d => gm.box_3d.as_slice(),
            MediaKind::BoxSpine => gm.box_spine.as_slice(),
            MediaKind::BoxFull => gm.box_full.as_slice(),
            MediaKind::CartFront => gm.cart_front.as_slice(),
            MediaKind::CartBack => gm.cart_back.as_slice(),
            MediaKind::Cart3d => gm.cart_3d.as_slice(),
            MediaKind::Disc => gm.disc.as_slice(),
            MediaKind::ScreenshotGameplay => gm.screenshot_gameplay.as_slice(),
            MediaKind::ScreenshotTitle => gm.screenshot_title.as_slice(),
            MediaKind::ScreenshotSelect => gm.screenshot_select.as_slice(),
            MediaKind::Banner => gm.banner.as_slice(),
            MediaKind::ClearLogo => gm.clear_logo.as_slice(),
            MediaKind::FanartBackground => gm.fanart_background.as_slice(),
            MediaKind::FanartDisc => gm.fanart_disc.as_slice(),
            MediaKind::AdvertFront => gm.advert_front.as_slice(),
            MediaKind::AdvertBack => gm.advert_back.as_slice(),
            MediaKind::ArcadeCabinet => gm.arcade_cabinet.as_slice(),
            MediaKind::ArcadeMarquee => gm.arcade_marquee.as_slice(),
            MediaKind::ArcadeControlpanel => gm.arcade_controlpanel.as_slice(),
            MediaKind::ArcadeControlsinfo => gm.arcade_controlsinfo.as_slice(),
            MediaKind::ArcadePlayerselect => gm.arcade_playerselect.as_slice(),
            MediaKind::ArcadeFlyer => gm.arcade_flyer.as_slice(),
            MediaKind::Video => gm.video.as_slice(),
            MediaKind::Music => gm.music.as_slice(),
            MediaKind::Manual => gm.manual.as_slice(),
        }
    }

    /// The variants `gm` holds for this kind, to change in place.
    pub fn variants_mut<'a>(&self, gm: &'a mut GameMedia) -> (r: &'a mut Vec<MediaVariant>)
        ensures
            *r == slot(*old(gm), *self),
            *final(gm) == with_slot(*old(gm), *self, *final(r)),
    {
        match self {
            MediaKind::BoxFront => &mut gm.box_front,
            MediaKind::BoxBack => &mut gm.box_back,
            MediaKind::Box3d => &mut gm.box_3d,
            MediaKind::BoxSpine => &mut gm.box_spine,
            MediaKind::BoxFull => &mut gm.box_full,
            MediaKind::CartFront => &mut gm.cart_front,
            MediaKind::CartBack => &mut gm.cart_back,
            MediaKind::Cart3d => &mut gm.cart_3d,
            MediaKind::Disc => &mut gm.disc,
            MediaKind::ScreenshotGameplay => &mut gm.screenshot_gameplay,
            MediaKind::ScreenshotTitle => &mut gm.screenshot_title,
            MediaKind::ScreenshotSelect => &mut gm.screenshot_select,
            MediaKind::Banner => &mut gm.banner,
            MediaKind::ClearLogo => &mut gm.clear_logo,
            MediaKind::FanartBackground => &mut gm.fanart_background,
            MediaKind::FanartDisc => &mut gm.fanart_disc,
            MediaKind::AdvertFront => &mut gm.advert_front,
            MediaKind::AdvertBack => &mut gm.advert_back,
            MediaKind::ArcadeCabinet => &mut gm.arcade_cabinet,
            MediaKind::ArcadeMarquee => &mut gm.arcade_marquee,
            MediaKind::ArcadeControlpanel => &mut gm.arcade_controlpanel,
            MediaKind::ArcadeControlsinfo => &mut gm.arcade_controlsinfo,
            MediaKind::ArcadePlayerselect => &mut gm.arcade_playerselect,
            MediaKind::ArcadeFlyer => &mut gm.arcade_flyer,
            MediaKind::Video => &mut gm.video,
            MediaKind::Music => &mut gm.music,
            MediaKind::Manual => &mut gm.manual,
        }
    }

    /// The pin that `sel`, if any, holds for this kind.
    pub fn pinned_index(&self, sel: Option<&SelectedMedia>) -> (r: Option<usize>)
        ensures
            r == match sel {
                Some(s) => pin_of(*s, *self),
                None => None,
            },
    {
        match sel {
            Some(s) => s.get_for_kind(*self),
            None => None,
        }
    }
}

/// Replacing a kind's variants changes that kind alone.
pub proof fn law_slot_replace(gm: GameMedia, k: MediaKind, v: Vec<MediaVariant>, other: MediaKind)
    ensures
        slot(with_slot(gm, k, v), k) == v,
        other != k ==> slot(with_slot(gm, k, v), other) == slot(gm, other),
        with_slot(gm, k, v).selected == gm.selected,
{
}

// ---------------------------------------------------------------------
// Preferences
// ---------------------------------------------------------------------

/// The character sequences of a list of strings.
pub open spec fn names(v: Seq<String>) -> Seq<Seq<char>> {
    v.map_values(|s: String| s@)
}

/// Media preferences: region priority for the default variant, the kinds
/// the thumbnails sync fetches, and whether it fetches for identified
/// games only.
#[derive(Clone, Debug)]
pub struct MediaPrefs {
    /// Ordered region priority used when no variant is pinned; first match
    /// wins.
    pub region_priority: Vec<String>,
    /// Kind names the libretro-thumbnails sync fetches per ROM.
    pub kinds_to_fetch: Vec<String>,
    /// When true, the sync fetches only for hash-identified ROMs.
    pub only_sync_identified: bool,
}

pub open spec fn default_kind_names() -> Seq<Seq<char>> {
    seq!["box-front"@, "screenshot-gameplay"@, "screenshot-title"@]
}

pub open spec fn default_region_names() -> Seq<Seq<char>> {
    seq!["USA"@, "World"@, "Europe"@, "Japan"@]
}

fn default_kinds_to_fetch() -> (r: Vec<String>)
    ensures
        names(r@) == default_kind_names(),
{
    let r = vec![owned("box-front"), owned("screenshot-gameplay"), owned("screenshot-title")];
    assert(names(r@) =~= default_kind_names());
    r
}

fn default_only_sync_identified() -> (r: bool)
    ensures
        r,
{
    true
}

impl Default for MediaPrefs {
    fn default() -> (r: Self)
        ensures
            names(r.region_priority@) == default_region_names(),
            names(r.kinds_to_fetch@) == default_kind_names(),
            r.only_sync_identified,
    {
        let region_priority = vec![owned("USA"), owned("World"), owned("Europe"), owned("Japan")];
        assert(names(region_priority@) =~= default_region_names());
        MediaPrefs {
            region_priority,
            kinds_to_fetch: default_kinds_to_fetch(),
            only_sync_identified: default_only_sync_identified(),
        }
    }
}

// ---------------------------------------------------------------------
// Active variant
// ---------------------------------------------------------------------

/// The region name of a variant; empty when it has no region.
pub open spec fn variant_region(v: MediaVariant) -> Seq<char> {
    match v.region {
        Some(r) => region_name(r),
        None => Seq::empty(),
    }
}

/// Index of the first variant of region `name`, or `vs.len()`.
pub open spec fn region_index(vs: Seq<MediaVariant>, name: Seq<char>) -> nat
    decreases vs.len(),
{
    if vs.len() == 0 {
        0
    } else if variant_region(vs[0]) == name {
        0
    } else {
        1 + region_index(vs.drop_first(), name)
    }
}

/// The first variant whose region comes first in `prio`, if any variant
/// has a region listed there.
pub open spec fn by_region_priority(vs: Seq<MediaVariant>, prio: Seq<Seq<char>>) -> Option<int>
    decreases prio.len(),
{
    if prio.len() == 0 {
        None
    } else if region_index(vs, prio[0]) < vs.len() {
        Some(region_index(vs, prio[0]) as int)
    } else {
        by_region_priority(vs, prio.drop_first())
    }
}

/// The variant shown by default: the pin when it is in range, else the
/// first variant of the earliest region in `prio`, else the first.
pub open spec fn active_index(vs: Seq<MediaVariant>, pinned: Option<usize>, prio: Seq<Seq<char>>) -> Option<int> {
    if vs.len() == 0 {
        None
    } else if pinned matches Some(i) && i < vs.len() {
        Some(pinned->0 as int)
    } else {
        match by_region_priority(vs, prio) {
            Some(i) => Some(i),
            None => Some(0),
        }
    }
}

proof fn lemma_region_index_at(vs: Seq<MediaVariant>, name: Seq<char>, i: int)
    requires
        0 <= i <= vs.len(),
        forall|j: int| 0 <= j < i ==> variant_region(#[trigger] vs[j]) != name,
        i == vs.len() || variant_region(vs[i]) == name,
    ensures
        region_index(vs, name) == i,
    decreases i,
{
    if i > 0 {
        let t = vs.drop_first();
        assert forall|j: int| 0 <= j < i - 1 implies variant_region(#[trigger] t[j]) != name by {
            assert(t[j] == vs[j + 1]);
        }
        if i < vs.len() {
            assert(t[i - 1] == vs[i]);
        }
        lemma_region_index_at(t, name, i - 1);
    }
}

proof fn lemma_by_region_priority_bound(vs: Seq<MediaVariant>, prio: Seq<Seq<char>>)
    ensures
        by_region_priority(vs, prio) matches Some(i) ==> 0 <= i < vs.len(),
    decreases prio.len(),
{
    if prio.len() > 0 && region_index(vs, prio[0]) >= vs.len() {
        lemma_by_region_priority_bound(vs, prio.drop_first());
    }
}

/// Index of the first variant of region `name`, or `vs.len()`.
fn find_region(vs: &[MediaVariant], name: &String) -> (r: usize)
    ensures
        r == region_index(vs@, name@),
{
    let mut i: usize = 0;
    while i < vs.len()
        invariant
            i <= vs.len(),
            forall|j: int| 0 <= j < i ==> variant_region(#[trigger] vs@[j]) != name@,
        decreases vs.len() - i,
    {
        let here: String = match &vs[i].region {
            Some(r) => r.as_str(),
            None => String::new(),
        };
        if here == *name {
            proof {
                lemma_region_index_at(vs@, name@, i as int);
            }
            return i;
        }
        i += 1;
    }
    proof {
        lemma_region_index_at(vs@, name@, i as int);
    }
    i
}

/// Index of the variant to display by default: an in-range pin first,
/// then the first variant of the earliest region in `region_priority`,
/// then 0; `None` when there are no variants.
pub fn resolve_active_index(
    variants: &[MediaVariant],
    pinned: Option<usize>,
    region_priority: &[String],
) -> (r: Option<usize>)
    ensures
        r matches Some(i) ==> i < variants.len(),
        match active_index(variants@, pinned, names(region_priority@)) {
            Some(i) => r == Some(i as usize),
            None => r is None,
        },
{
    if variants.len() == 0 {
        return None;
    }
    if let Some(i) = pinned {
        if i < variants.len() {
            return Some(i);
        }
    }
    let ghost prio = names(region_priority@);
    let mut p: usize = 0;
    assert(prio.skip(0) =~= prio);
    while p < region_priority.len()
        invariant
            p <= region_priority.len(),
            prio == names(region_priority@),
            variants.len() > 0,
            !(pinned matches Some(i) && i < variants.len()),
            by_region_priority(variants@, prio) == by_region_priority(
                variants@,
                prio.skip(p as int),
            ),
        decreases region_priority.len() - p,
    {
        let k = find_region(variants, &region_priority[p]);
        proof {
            let rest = prio.skip(p as int);
            assert(rest[0] == region_priority@[p as int]@);
            assert(rest.drop_first() =~= prio.skip(p + 1));
        }
        if k < variants.len() {
            assert(by_region_priority(variants@, prio.skip(p as int)) == Some(k as int));
            assert(active_index(variants@, pinned, prio) == Some(k as int));
            return Some(k);
        }
        p += 1;
    }
    proof {
        assert(prio.skip(p as int) =~= Seq::<Seq<char>>::empty());
    }
    Some(0)
}

// ---------------------------------------------------------------------
// File names
// ---------------------------------------------------------------------

/// Characters Windows forbids in file names, and the C0 controls.
pub open spec fn forbidden_char(c: char) -> bool {
    c == '<' || c == '>' || c == ':' || c == '"' || c == '/' || c == '\\' || c == '|' || c == '?'
        || c == '*' || (c as u32) < 0x20
}

/// `s` with each forbidden character replaced by `_`.
pub open spec fn replace_forbidden(s: Seq<char>) -> Seq<char> {
    s.map_values(|c: char| if forbidden_char(c) { '_' } else { c })
}

/// `s` without trailing dots and spaces.
pub open spec fn strip_dots_spaces(s: Seq<char>) -> Seq<char>
    decreases s.len(),
{
    if s.len() > 0 && (s.last() == '.' || s.last() == ' ') {
        strip_dots_spaces(s.drop_last())
    } else {
        s
    }
}

/// The reserved DOS device names: CON, PRN, AUX, NUL, COM1-9, LPT1-9.
pub open spec fn reserved_dos_name(u: Seq<char>) -> bool {
    ||| u == seq!['C', 'O', 'N']
    ||| u == seq!['P', 'R', 'N']
    ||| u == seq!['A', 'U', 'X']
    ||| u == seq!['N', 'U', 'L']
    ||| u.len() == 4 && (u.take(3) == seq!['C', 'O', 'M'] || u.take(3) == seq!['L', 'P', 'T'])
        && '1' <= u[3] <= '9'
}

/// A file-name stem safe on every supported OS: forbidden characters
/// become `_`, trailing dots and spaces go, a reserved DOS name (in any
/// case) gets `_` appended, and an empty result is `_`.
pub open spec fn sanitized_stem(s: Seq<char>) -> Seq<char> {
    let t = strip_dots_spaces(replace_forbidden(s));
    if t.len() == 0 {
        seq!['_']
    } else if reserved_dos_name(crate::text::ascii_upper(t)) {
        t.push('_')
    } else {
        t
    }
}

proof fn lemma_strip_dots_spaces_prefix(s: Seq<char>)
    ensures
        strip_dots_spaces(s).len() <= s.len(),
        strip_dots_spaces(s) == s.take(strip_dots_spaces(s).len() as int),
    decreases s.len(),
{
    if s.len() > 0 && (s.last() == '.' || s.last() == ' ') {
        lemma_strip_dots_spaces_prefix(s.drop_last());
        assert(s.drop_last().take(strip_dots_spaces(s).len() as int) =~= s.take(strip_dots_spaces(s).len() as int));
    } else {
        assert(s.take(s.len() as int) =~= s);
    }
}

/// A sanitized stem is safe as a file name: it is never empty, holds no
/// forbidden character and is no reserved DOS device name in any case.
pub proof fn law_sanitized_stem_is_safe(s: Seq<char>)
    ensures
        sanitized_stem(s).len() > 0,
        forall|i: int| 0 <= i < sanitized_stem(s).len() ==> !forbidden_char(#[trigger] sanitized_stem(s)[i]),
        !reserved_dos_name(crate::text::ascii_upper(sanitized_stem(s))),
{
    let r = replace_forbidden(s);
    let t = strip_dots_spaces(r);
    lemma_strip_dots_spaces_prefix(r);
    assert forall|i: int| 0 <= i < t.len() implies !forbidden_char(#[trigger] t[i]) by {
        assert(t[i] == r.take(t.len() as int)[i]);
    }
    if t.len() == 0 {
        let o = seq!['_'];
        assert(crate::text::ascii_upper(o) =~= seq!['_']);
    } else if reserved_dos_name(crate::text::ascii_upper(t)) {
        let o = t.push('_');
        let u = crate::text::ascii_upper(o);
        assert(u.len() == o.len());
        assert(u[o.len() - 1] == '_');
        assert forall|i: int| 0 <= i < o.len() implies !forbidden_char(#[trigger] o[i]) by {
            if i < t.len() {
                assert(o[i] == t[i]);
            }
        }
        if u.len() == 3 {
            assert(u[2] == '_');
        }
    }
}

fn is_forbidden_filename_char(c: char) -> (r: bool)
    ensures
        r == forbidden_char(c),
{
    c == '<' || c == '>' || c == ':' || c == '"' || c == '/' || c == '\\' || c == '|' || c == '?'
        || c == '*' || (c as u32) < 0x20
}

fn is_reserved_dos_name(u: &[char]) -> (r: bool)
    ensures
        r == reserved_dos_name(u@),
{
    if u.len() == 3 {
        let r = (u[0] == 'C' && u[1] == 'O' && u[2] == 'N') || (u[0] == 'P' && u[1] == 'R' && u[2]
            == 'N') || (u[0] == 'A' && u[1] == 'U' && u[2] == 'X') || (u[0] == 'N' && u[1] == 'U'
            && u[2] == 'L');
        proof {
            if r {
                if u[0] == 'C' {
                    assert(u@ =~= seq!['C', 'O', 'N']);
                } else if u[0] == 'P' {
                    assert(u@ =~= seq!['P', 'R', 'N']);
                } else if u[0] == 'A' {
                    assert(u@ =~= seq!['A', 'U', 'X']);
                } else {
                    assert(u@ =~= seq!['N', 'U', 'L']);
                }
            } else {
                assert(u@ != seq!['C', 'O', 'N'] ==> u@[0] != 'C' || u@[1] != 'O' || u@[2] != 'N');
            }
        }
        return r;
    }
    if u.len() == 4 {
        let r = ((u[0] == 'C' && u[1] == 'O' && u[2] == 'M') || (u[0] == 'L' && u[1] == 'P' && u[2]
            == 'T')) && '1' <= u[3] && u[3] <= '9';
        proof {
            let h = u@.take(3);
            assert(h.len() == 3 && h[0] == u@[0] && h[1] == u@[1] && h[2] == u@[2]);
            if r {
                if u[0] == 'C' {
                    assert(h =~= seq!['C', 'O', 'M']);
                } else {
                    assert(h =~= seq!['L', 'P', 'T']);
                }
            }
        }
        return r;
    }
    false
}

fn sanitize_chars(stem: &[char]) -> (r: Vec<char>)
    ensures
        r@ == sanitized_stem(stem@),
{
    let mut out: Vec<char> = Vec::new();
    let mut i: usize = 0;
    while i < stem.len()
        invariant
            i <= stem.len(),
            out@ == replace_forbidden(stem@.take(i as int)),
        decreases stem.len() - i,
    {
        let c = stem[i];
        out.push(if is_forbidden_filename_char(c) { '_' } else { c });
        i += 1;
        assert(out@ =~= replace_forbidden(stem@.take(i as int)));
    }
    assert(stem@.take(stem.len() as int) =~= stem@);
    let ghost mapped = out@;
    while out.len() > 0 && (out[out.len() - 1] == '.' || out[out.len() - 1] == ' ')
        invariant
            strip_dots_spaces(mapped) == strip_dots_spaces(out@),
        decreases out.len(),
    {
        let ghost before = out@;
        out.pop();
        assert(out@ =~= before.drop_last());
    }
    if out.len() == 0 {
        return vec!['_'];
    }
    let upper = crate::text::upper_ascii(&out);
    if is_reserved_dos_name(&upper) {
        out.push('_');
    }
    out
}

/// Sanitize a file-name stem (no extension) for cross-platform safety:
/// forbidden characters become `_`, trailing `.` and spaces are trimmed,
/// a reserved DOS device name (case-insensitive) gets `_` appended, and
/// an empty result is `_`.
pub fn sanitize_filename_stem(stem: &str) -> (r: String)
    ensures
        r@ == sanitized_stem(stem@),
{
    let cs = chars_of(stem);
    string_of(&sanitize_chars(&cs))
}

pub open spec fn is_sep(c: char) -> bool {
    c == '/' || c == '\\'
}

/// Index of the last separator in `p`, or -1.
pub open spec fn last_sep(p: Seq<char>) -> int
    decreases p.len(),
{
    if p.len() == 0 {
        -1
    } else if is_sep(p.last()) {
        p.len() - 1
    } else {
        last_sep(p.drop_last())
    }
}

pub proof fn lemma_last_sep_bound(p: Seq<char>)
    ensures
        -1 <= last_sep(p) < p.len(),
        last_sep(p) >= 0 ==> is_sep(p[last_sep(p)]),
        forall|j: int| last_sep(p) < j < p.len() ==> !is_sep(#[trigger] p[j]),
    decreases p.len(),
{
    if p.len() > 0 && !is_sep(p.last()) {
        lemma_last_sep_bound(p.drop_last());
        assert forall|j: int| last_sep(p) < j < p.len() implies !is_sep(#[trigger] p[j]) by {
            if j < p.len() - 1 {
                assert(p[j] == p.drop_last()[j]);
            }
        }
    }
}

/// The last component of a path split at `/` and `\`, with empty and `.`
/// components passed over; `None` when there is none or it is `..`.
pub open spec fn file_name(p: Seq<char>) -> Option<Seq<char>>
    decreases p.len(),
{
    let j = last_sep(p);
    let comp = p.skip(j + 1);
    if comp.len() == 0 || comp == seq!['.'] {
        if j < 0 {
            None
        } else {
            proof {
                lemma_last_sep_bound(p);
            }
            file_name(p.take(j))
        }
    } else if comp == seq!['.', '.'] {
        None
    } else {
        Some(comp)
    }
}

/// The file name without its extension: the part before the last `.`,
/// unless that dot is the first character or there is none.
pub open spec fn stem_of_name(name: Seq<char>) -> Seq<char> {
    let d = crate::title_clean::last_index_of(name, '.');
    if d > 0 {
        name.take(d)
    } else {
        name
    }
}

/// The extension of a file name: what follows the last `.`, unless that
/// dot is the first character or there is none.
pub open spec fn ext_of_name(name: Seq<char>) -> Option<Seq<char>> {
    let d = crate::title_clean::last_index_of(name, '.');
    if d > 0 {
        Some(name.skip(d + 1))
    } else {
        None
    }
}

/// The stem of a path's file name; empty when it has none.
pub open spec fn path_stem(p: Seq<char>) -> Seq<char> {
    match file_name(p) {
        Some(n) => stem_of_name(n),
        None => Seq::empty(),
    }
}

/// Index of the last separator in `p`, or `None`.
fn rfind_sep(p: &[char]) -> (r: Option<usize>)
    ensures
        match r {
            Some(j) => j as int == last_sep(p@),
            None => last_sep(p@) == -1,
        },
{
    let mut e: usize = p.len();
    assert(p@.take(e as int) =~= p@);
    while e > 0
        invariant
            e <= p.len(),
            last_sep(p@) == last_sep(p@.take(e as int)),
        decreases e,
    {
        let ghost t = p@.take(e as int);
        assert(t.drop_last() =~= p@.take(e - 1));
        if p[e - 1] == '/' || p[e - 1] == '\\' {
            return Some(e - 1);
        }
        e -= 1;
    }
    None
}

/// The last component of a path, as `file_name` describes it.
pub(crate) fn file_name_chars(p: &[char]) -> (r: Option<Vec<char>>)
    ensures
        match file_name(p@) {
            Some(n) => r matches Some(v) && v@ == n,
            None => r is None,
        },
{
    let mut end: usize = p.len();
    assert(p@.take(end as int) =~= p@);
    loop
        invariant
            end <= p.len(),
            file_name(p@) == file_name(p@.take(end as int)),
        decreases end,
    {
        let cur = crate::text::slice_to_vec(p, 0, end);
        assert(cur@ =~= p@.take(end as int));
        let j = rfind_sep(&cur);
        proof {
            lemma_last_sep_bound(cur@);
        }
        let start: usize = match j {
            Some(k) => k + 1,
            None => 0,
        };
        let comp = crate::text::slice_to_vec(&cur, start, cur.len());
        assert(comp@ =~= cur@.skip(last_sep(cur@) + 1));
        if comp.len() == 0 || (comp.len() == 1 && comp[0] == '.') {
            proof {
                if comp.len() == 1 {
                    assert(comp@ =~= seq!['.']);
                }
            }
            match j {
                None => {
                    return None;
                },
                Some(k) => {
                    assert(cur@.take(k as int) =~= p@.take(k as int));
                    end = k;
                },
            }
        } else if comp.len() == 2 && comp[0] == '.' && comp[1] == '.' {
            assert(comp@ =~= seq!['.', '.']);
            return None;
        } else {
            assert(comp@ != seq!['.']);
            assert(comp@ != seq!['.', '.']);
            assert(file_name(cur@) == Some(comp@));
            return Some(comp);
        }
    }
}

/// The stem of a file name, as `stem_of_name` describes it.
pub(crate) fn stem_chars(name: &[char]) -> (r: Vec<char>)
    ensures
        r@ == stem_of_name(name@),
{
    proof {
        crate::title_clean::lemma_last_index_of_bound(name@, '.');
    }
    match crate::title_clean::rfind_char(name, '.') {
        Some(d) if d > 0 => {
            let r = crate::text::slice_to_vec(name, 0, d);
            assert(r@ =~= name@.take(d as int));
            r
        },
        _ => {
            let r = crate::text::slice_to_vec(name, 0, name.len());
            assert(r@ =~= name@);
            r
        },
    }
}

/// The rom stem of a ROM file path: the file name without its extension,
/// sanitized for cross-platform safety. The path is split at both `/` and
/// `\`.
pub fn rom_stem_from_path(file_path: &str) -> (r: String)
    ensures
        r@ == sanitized_stem(path_stem(file_path@)),
{
    let cs = chars_of(file_path);
    let stem: Vec<char> = match file_name_chars(&cs) {
        Some(n) => stem_chars(&n),
        None => Vec::new(),
    };
    string_of(&sanitize_chars(&stem))
}


// ---------------------------------------------------------------------
// libretro-thumbnails repositories
// ---------------------------------------------------------------------

/// The character sequences of a list of string slices.
pub open spec fn str_names(v: Seq<&'static str>) -> Seq<Seq<char>> {
    v.map_values(|s: &'static str| s@)
}

/// The libretro-thumbnails repositories holding a system's art; empty for
/// a system without one.
pub open spec fn repos_of(id: Seq<char>) -> Seq<Seq<char>> {
    if id == "tg16"@ {
        seq!["NEC_-_PC_Engine_-_TurboGrafx_16"@]
    } else if id == "pce-cd"@ {
        seq!["NEC_-_PC_Engine_CD_-_TurboGrafx-CD"@]
    } else if id == "lynx"@ {
        seq!["Atari_-_Lynx"@]
    } else if id == "nes"@ {
        seq!["Nintendo_-_Nintendo_Entertainment_System"@]
    } else if id == "snes"@ {
        seq!["Nintendo_-_Super_Nintendo_Entertainment_System"@]
    } else if id == "atari7800"@ {
        seq!["Atari_-_7800"@]
    } else if id == "mame"@ {
        seq!["MAME"@]
    } else if id == "genesis"@ {
        seq!["Sega_-_Mega_Drive_-_Genesis"@]
    } else if id == "segacd"@ {
        seq!["Sega_-_Mega-CD_-_Sega_CD"@]
    } else if id == "sega32x"@ {
        seq!["Sega_-_32X"@]
    } else if id == "saturn"@ {
        seq!["Sega_-_Saturn"@]
    } else if id == "psx"@ {
        seq!["Sony_-_PlayStation"@]
    } else if id == "neogeo"@ {
        seq!["SNK_-_Neo_Geo"@]
    } else if id == "neocd"@ {
        seq!["SNK_-_Neo_Geo_CD"@]
    } else if id == "ngp"@ {
        seq!["SNK_-_Neo_Geo_Pocket_Color"@]
    } else if id == "jaguar"@ {
        seq!["Atari_-_Jaguar"@]
    } else if id == "3do"@ {
        seq!["The_3DO_Company_-_3DO"@]
    } else if id == "pcfx"@ {
        seq!["NEC_-_PC-FX"@]
    } else if id == "n64"@ {
        seq!["Nintendo_-_Nintendo_64"@]
    } else if id == "gamecube"@ {
        seq!["Nintendo_-_GameCube"@]
    } else if id == "dreamcast"@ {
        seq!["Sega_-_Dreamcast"@]
    } else if id == "psp"@ {
        seq!["Sony_-_PlayStation_Portable"@]
    } else if id == "ps2"@ {
        seq!["Sony_-_PlayStation_2"@]
    } else if id == "nds"@ {
        seq!["Nintendo_-_Nintendo_DS"@]
    } else if id == "sms"@ {
        seq!["Sega_-_Master_System_-_Mark_III"@]
    } else if id == "gamegear"@ {
        seq!["Sega_-_Game_Gear"@]
    } else if id == "msx"@ {
        seq!["Microsoft_-_MSX"@]
    } else if id == "msx2"@ {
        seq!["Microsoft_-_MSX2"@]
    } else if id == "coleco"@ {
        seq!["Coleco_-_ColecoVision"@]
    } else if id == "intv"@ {
        seq!["Mattel_-_Intellivision"@]
    } else if id == "o2"@ {
        seq!["Magnavox_-_Odyssey2"@]
    } else if id == "channelf"@ {
        seq!["Fairchild_-_Channel_F"@]
    } else if id == "vectrex"@ {
        seq!["GCE_-_Vectrex"@]
    } else if id == "virtualboy"@ {
        seq!["Nintendo_-_Virtual_Boy"@]
    } else if id == "wonderswan"@ {
        seq!["Bandai_-_WonderSwan"@, "Bandai_-_WonderSwan_Color"@]
    } else if id == "gb"@ {
        seq!["Nintendo_-_Game_Boy"@]
    } else if id == "gbc"@ {
        seq!["Nintendo_-_Game_Boy_Color"@]
    } else if id == "gba"@ {
        seq!["Nintendo_-_Game_Boy_Advance"@]
    } else if id == "2600"@ {
        seq!["Atari_-_2600"@]
    } else if id == "5200"@ {
        seq!["Atari_-_5200"@]
    } else if id == "pokemini"@ {
        seq!["Nintendo_-_Pokemon_Mini"@]
    } else {
        Seq::empty()
    }
}

/// The libretro-thumbnails repositories holding a system's cover art;
/// empty for an unknown system.
pub fn repos_for_system_id(system_id: &str) -> (r: &'static [&'static str])
    ensures
        str_names(r@) == repos_of(system_id@),
{
    if str_eq(system_id, "tg16") {
        let r: &'static [&'static str] = &["NEC_-_PC_Engine_-_TurboGrafx_16"];
        assert(str_names(r@) =~= repos_of(system_id@));
        r
    } else if str_eq(system_id, "pce-cd") {
        let r: &'static [&'static str] = &["NEC_-_PC_Engine_CD_-_TurboGrafx-CD"];
        assert(str_names(r@) =~= repos_of(system_id@));
        r
    } else if str_eq(system_id, "lynx") {
        let r: &'static [&'static str] = &["Atari_-_Lynx"];
        assert(str_names(r@) =~= repos_of(system_id@));
        r
    } else if str_eq(system_id, "nes") {
        let r: &'static [&'static str] = &["Nintendo_-_Nintendo_Entertainment_System"];
        assert(str_names(r@) =~= repos_of(system_id@));
        r
    } else if str_eq(system_id, "snes") {
        let r: &'static [&'static str] = &["Nintendo_-_Super_Nintendo_Entertainment_System"];
        assert(str_names(r@) =~= repos_of(system_id@));
        r
    } else if str_eq(system_id, "atari7800") {
        let r: &'static [&'static str] = &["Atari_-_7800"];
        assert(str_names(r@) =~= repos_of(system_id@));
        r
    } else if str_eq(system_id, "mame") {
        let r: &'static [&'static str] = &["MAME"];
        assert(str_names(r@) =~= repos_of(system_id@));
        r
    } else if str_eq(system_id, "genesis") {
        let r: &'static [&'static str] = &["Sega_-_Mega_Drive_-_Genesis"];
        assert(str_names(r@) =~= repos_of(system_id@));
        r
    } else if str_eq(system_id, "segacd") {
        let r: &'static [&'static str] = &["Sega_-_Mega-CD_-_Sega_CD"];
        assert(str_names(r@) =~= repos_of(system_id@));
        r
    } else if str_eq(system_id, "sega32x") {
        let r: &'static [&'static str] = &["Sega_-_32X"];
        assert(str_names(r@) =~= repos_of(system_id@));
        r
    } else if str_eq(system_id, "saturn") {
        let r: &'static [&'static str] = &["Sega_-_Saturn"];
        assert(str_names(r@) =~= repos_of(system_id@));
        r
    } else if str_eq(system_id, "psx") {
        let r: &'static [&'static str] = &["Sony_-_PlayStation"];
        assert(str_names(r@) =~= repos_of(system_id@));
        r
    } else if str_eq(system_id, "neogeo") {
        let r: &'static [&'static str] = &["SNK_-_Neo_Geo"];
        assert(str_names(r@) =~= repos_of(system_id@));
        r
    } else if str_eq(system_id, "neocd") {
        let r: &'static [&'static str] = &["SNK_-_Neo_Geo_CD"];
        assert(str_names(r@) =~= repos_of(system_id@));
        r
    } else if str_eq(system_id, "ngp") {
        let r: &'static [&'static str] = &["SNK_-_Neo_Geo_Pocket_Color"];
        assert(str_names(r@) =~= repos_of(system_id@));
        r
    } else if str_eq(system_id, "jaguar") {
        let r: &'static [&'static str] = &["Atari_-_Jaguar"];
        assert(str_names(r@) =~= repos_of(system_id@));
        r
    } else if str_eq(system_id, "3do") {
        let r: &'static [&'static str] = &["The_3DO_Company_-_3DO"];
        assert(str_names(r@) =~= repos_of(system_id@));
        r
    } else if str_eq(system_id, "pcfx") {
        let r: &'static [&'static str] = &["NEC_-_PC-FX"];
        assert(str_names(r@) =~= repos_of(system_id@));
        r
    } else if str_eq(system_id, "n64") {
        let r: &'static [&'static str] = &["Nintendo_-_Nintendo_64"];
        assert(str_names(r@) =~= repos_of(system_id@));
        r
    } else if str_eq(system_id, "gamecube") {
        let r: &'static [&'static str] = &["Nintendo_-_GameCube"];
        assert(str_names(r@) =~= repos_of(system_id@));
        r
    } else if str_eq(system_id, "dreamcast") {
        let r: &'static [&'static str] = &["Sega_-_Dreamcast"];
        assert(str_names(r@) =~= repos_of(system_id@));
        r
    } else if str_eq(system_id, "psp") {
        let r: &'static [&'static str] = &["Sony_-_PlayStation_Portable"];
        assert(str_names(r@) =~= repos_of(system_id@));
        r
    } else if str_eq(system_id, "ps2") {
        let r: &'static [&'static str] = &["Sony_-_PlayStation_2"];
        assert(str_names(r@) =~= repos_of(system_id@));
        r
    } else if str_eq(system_id, "nds") {
        let r: &'static [&'static str] = &["Nintendo_-_Nintendo_DS"];
        assert(str_names(r@) =~= repos_of(system_id@));
        r
    } else if str_eq(system_id, "sms") {
        let r: &'static [&'static str] = &["Sega_-_Master_System_-_Mark_III"];
        assert(str_names(r@) =~= repos_of(system_id@));
        r
    } else if str_eq(system_id, "gamegear") {
        let r: &'static [&'static str] = &["Sega_-_Game_Gear"];
        assert(str_names(r@) =~= repos_of(system_id@));
        r
    } else if str_eq(system_id, "msx") {
        let r: &'static [&'static str] = &["Microsoft_-_MSX"];
        assert(str_names(r@) =~= repos_of(system_id@));
        r
    } else if str_eq(system_id, "msx2") {
        let r: &'static [&'static str] = &["Microsoft_-_MSX2"];
        assert(str_names(r@) =~= repos_of(system_id@));
        r
    } else if str_eq(system_id, "coleco") {
        let r: &'static [&'static str] = &["Coleco_-_ColecoVision"];
        assert(str_names(r@) =~= repos_of(system_id@));
        r
    } else if str_eq(system_id, "intv") {
        let r: &'static [&'static str] = &["Mattel_-_Intellivision"];
        assert(str_names(r@) =~= repos_of(system_id@));
        r
    } else if str_eq(system_id, "o2") {
        let r: &'static [&'static str] = &["Magnavox_-_Odyssey2"];
        assert(str_names(r@) =~= repos_of(system_id@));
        r
    } else if str_eq(system_id, "channelf") {
        let r: &'static [&'static str] = &["Fairchild_-_Channel_F"];
        assert(str_names(r@) =~= repos_of(system_id@));
        r
    } else if str_eq(system_id, "vectrex") {
        let r: &'static [&'static str] = &["GCE_-_Vectrex"];
        assert(str_names(r@) =~= repos_of(system_id@));
        r
    } else if str_eq(system_id, "virtualboy") {
        let r: &'static [&'static str] = &["Nintendo_-_Virtual_Boy"];
        assert(str_names(r@) =~= repos_of(system_id@));
        r
    } else if str_eq(system_id, "wonderswan") {
        let r: &'static [&'static str] = &["Bandai_-_WonderSwan", "Bandai_-_WonderSwan_Color"];
        assert(str_names(r@) =~= repos_of(system_id@));
        r
    } else if str_eq(system_id, "gb") {
        let r: &'static [&'static str] = &["Nintendo_-_Game_Boy"];
        assert(str_names(r@) =~= repos_of(system_id@));
        r
    } else if str_eq(system_id, "gbc") {
        let r: &'static [&'static str] = &["Nintendo_-_Game_Boy_Color"];
        assert(str_names(r@) =~= repos_of(system_id@));
        r
    } else if str_eq(system_id, "gba") {
        let r: &'static [&'static str] = &["Nintendo_-_Game_Boy_Advance"];
        assert(str_names(r@) =~= repos_of(system_id@));
        r
    } else if str_eq(system_id, "2600") {
        let r: &'static [&'static str] = &["Atari_-_2600"];
        assert(str_names(r@) =~= repos_of(system_id@));
        r
    } else if str_eq(system_id, "5200") {
        let r: &'static [&'static str] = &["Atari_-_5200"];
        assert(str_names(r@) =~= repos_of(system_id@));
        r
    } else if str_eq(system_id, "pokemini") {
        let r: &'static [&'static str] = &["Nintendo_-_Pokemon_Mini"];
        assert(str_names(r@) =~= repos_of(system_id@));
        r
    } else {
        let r: &'static [&'static str] = &[];
        assert(str_names(r@) =~= repos_of(system_id@));
        r
    }
}

/// Byte count of the head of a dump the GameCube/Wii classifier reads:
/// one byte of a raw `.iso`, the 48-byte header of an `.rvz`, none for
/// any other extension.
pub open spec fn peek_len(file_path: Seq<char>) -> nat {
    match dump_ext(file_path) {
        Some(e) => if e == "iso"@ {
            1
        } else if e == "rvz"@ {
            48
        } else {
            0
        },
        None => 0,
    }
}

/// The lower-cased extension of a path's file name.
pub open spec fn dump_ext(file_path: Seq<char>) -> Option<Seq<char>> {
    match file_name(file_path) {
        Some(n) => match ext_of_name(n) {
            Some(e) => Some(crate::text::ascii_lower(e)),
            None => None,
        },
        None => None,
    }
}

/// The console byte of a raw disc image: its first byte.
pub open spec fn iso_console_byte(head: Seq<u8>) -> Option<u8> {
    if head.len() >= 1 {
        Some(head[0])
    } else {
        None
    }
}

/// The console byte inside an RVZ container: byte 40, the first byte of
/// the embedded disc header, when the 48-byte header is there and starts
/// with the `RVZ\x01` magic.
pub open spec fn rvz_console_byte(head: Seq<u8>) -> Option<u8> {
    if head.len() >= 48 && head[0] == 0x52 && head[1] == 0x56 && head[2] == 0x5A && head[3] == 0x01 {
        Some(head[40])
    } else {
        None
    }
}

/// `R` (Revolution) and `S` lead the game ids of Wii discs.
pub open spec fn wii_console_byte(b: Option<u8>) -> bool {
    b == Some(0x52u8) || b == Some(0x53u8)
}

/// Whether a Dolphin-loadable dump is a Wii dump: `.wbfs` and `.wad` are;
/// `.gcm`, `.gcz` and `.ciso` are not; `.iso` and `.rvz` are when their
/// console byte is a Wii one, read from `head`, the bytes read from the
/// start of the file (`None` when it could not be read); anything else is
/// not.
pub open spec fn wii_dump(file_path: Seq<char>, head: Option<Seq<u8>>) -> bool {
    match dump_ext(file_path) {
        Some(e) => if e == "wbfs"@ || e == "wad"@ {
            true
        } else if e == "iso"@ {
            match head {
                Some(h) => wii_console_byte(iso_console_byte(h)),
                None => false,
            }
        } else if e == "rvz"@ {
            match head {
                Some(h) => wii_console_byte(rvz_console_byte(h)),
                None => false,
            }
        } else {
            false
        },
        None => false,
    }
}

/// The lower-cased extension of a path's file name.
pub(crate) fn dump_ext_chars(file_path: &str) -> (r: Option<Vec<char>>)
    ensures
        match dump_ext(file_path@) {
            Some(e) => r matches Some(v) && v@ == e,
            None => r is None,
        },
{
    let cs = chars_of(file_path);
    match file_name_chars(&cs) {
        None => None,
        Some(n) => {
            proof {
                crate::title_clean::lemma_last_index_of_bound(n@, '.');
            }
            match crate::title_clean::rfind_char(&n, '.') {
                Some(d) => {
                    assert(d < n.len());
                    if d > 0 {
                        let e = crate::text::slice_to_vec(&n, d + 1, n.len());
                        assert(e@ =~= n@.skip(d + 1));
                        Some(crate::text::lower_ascii(&e))
                    } else {
                        None
                    }
                },
                None => None,
            }
        },
    }
}

/// Byte count of the head of the dump at `file_path` that `is_wii_dump`
/// reads: 1 for `.iso`, 48 for `.rvz`, 0 otherwise.
pub fn peek_len_for(file_path: &str) -> (r: usize)
    ensures
        r == peek_len(file_path@),
{
    match dump_ext_chars(file_path) {
        Some(e) => {
            if crate::text::seq_eq(&e, &chars_of("iso")) {
                1
            } else if crate::text::seq_eq(&e, &chars_of("rvz")) {
                48
            } else {
                0
            }
        },
        None => 0,
    }
}

/// The console byte of a raw disc image.
pub fn dolphin_console_byte(head: &[u8]) -> (r: Option<u8>)
    ensures
        r == iso_console_byte(head@),
{
    if head.len() >= 1 {
        Some(head[0])
    } else {
        None
    }
}

/// The console byte inside an RVZ container.
pub fn rvz_console_byte_of(head: &[u8]) -> (r: Option<u8>)
    ensures
        r == rvz_console_byte(head@),
{
    if head.len() >= 48 && head[0] == 0x52 && head[1] == 0x56 && head[2] == 0x5A && head[3] == 0x01 {
        Some(head[40])
    } else {
        None
    }
}

/// Whether a Dolphin-loadable dump is a Wii dump (see `wii_dump`);
/// `head` holds the first `peek_len_for(file_path)` bytes of the file, or
/// is `None` when they could not be read.
pub fn is_wii_dump(file_path: &str, head: Option<&[u8]>) -> (r: bool)
    ensures
        r == wii_dump(file_path@, match head {
            Some(h) => Some(h@),
            None => None,
        }),
{
    match dump_ext_chars(file_path) {
        None => false,
        Some(e) => {
            if crate::text::seq_eq(&e, &chars_of("wbfs")) || crate::text::seq_eq(
                &e,
                &chars_of("wad"),
            ) {
                true
            } else if crate::text::seq_eq(&e, &chars_of("iso")) {
                match head {
                    Some(h) => {
                        let b = dolphin_console_byte(h);
                        b == Some(0x52u8) || b == Some(0x53u8)
                    },
                    None => false,
                }
            } else if crate::text::seq_eq(&e, &chars_of("rvz")) {
                match head {
                    Some(h) => {
                        let b = rvz_console_byte_of(h);
                        b == Some(0x52u8) || b == Some(0x53u8)
                    },
                    None => false,
                }
            } else {
                false
            }
        },
    }
}

/// The repositories for one library entry: GameCube entries go to the Wii
/// repository when the dump is a Wii dump and to the GameCube one
/// otherwise; every other system goes by its id.
pub open spec fn entry_repos(system_id: Seq<char>, file_path: Seq<char>, head: Option<Seq<u8>>) -> Seq<Seq<char>> {
    if system_id == "gamecube"@ {
        if wii_dump(file_path, head) {
            seq!["Nintendo_-_Wii"@]
        } else {
            seq!["Nintendo_-_GameCube"@]
        }
    } else {
        repos_of(system_id)
    }
}

/// One ROM of the frontend's library, as the thumbnails sync gets it.
#[derive(Clone, Debug)]
pub struct SyncRomEntry {
    pub id: String,
    pub title: String,
    pub file_path: String,
    pub system_id: String,
    /// SHA-1 stamped on the game by ROM identification, when known.
    pub sha1: Option<String>,
}

/// The libretro-thumbnails repositories holding an entry's cover art.
/// `head` holds the first `peek_len_for(&entry.file_path)` bytes of the
/// entry's file, or is `None` when they could not be read.
pub fn repos_for_entry(entry: &SyncRomEntry, head: Option<&[u8]>) -> (r: &'static [&'static str])
    ensures
        str_names(r@) == entry_repos(entry.system_id@, entry.file_path@, match head {
            Some(h) => Some(h@),
            None => None,
        }),
{
    if str_eq(entry.system_id.as_str(), "gamecube") {
        if is_wii_dump(entry.file_path.as_str(), head) {
            let r: &'static [&'static str] = &["Nintendo_-_Wii"];
            assert(str_names(r@) =~= seq!["Nintendo_-_Wii"@]);
            r
        } else {
            let r: &'static [&'static str] = &["Nintendo_-_GameCube"];
            assert(str_names(r@) =~= seq!["Nintendo_-_GameCube"@]);
            r
        }
    } else {
        repos_for_system_id(entry.system_id.as_str())
    }
}

/// The PC Engine family repository for an extension: SuperGrafx for
/// `sgx`, CD for the disc formats, else HuCard.
pub open spec fn repo_of_extension(ext: Seq<char>) -> Seq<char> {
    if ext == "sgx"@ {
        "NEC_-_PC_Engine_SuperGrafx"@
    } else if ext == "cue"@ || ext == "chd"@ || ext == "ccd"@ || ext == "toc"@ || ext == "m3u"@
        || ext == "iso"@ {
        "NEC_-_PC_Engine_CD_-_TurboGrafx-CD"@
    } else {
        "NEC_-_PC_Engine_-_TurboGrafx_16"@
    }
}

/// The PC Engine family repository for an extension.
pub fn repo_for_extension(ext: &str) -> (r: &'static str)
    ensures
        r@ == repo_of_extension(ext@),
{
    if str_eq(ext, "sgx") {
        "NEC_-_PC_Engine_SuperGrafx"
    } else if str_eq(ext, "cue") || str_eq(ext, "chd") || str_eq(ext, "ccd") || str_eq(ext, "toc")
        || str_eq(ext, "m3u") || str_eq(ext, "iso") {
        "NEC_-_PC_Engine_CD_-_TurboGrafx-CD"
    } else {
        "NEC_-_PC_Engine_-_TurboGrafx_16"
    }
}

/// Per-ROM progress of a thumbnails sync.
#[derive(Clone, Debug)]
pub struct SyncProgress {
    pub system_id: String,
    pub done: usize,
    pub total: usize,
    pub current_rom_title: String,
    pub last_action: String,
}

/// Final tally of a thumbnails sync.
#[derive(Clone, Debug)]
pub struct SyncSummary {
    pub system_id: String,
    pub total: usize,
    pub matched: usize,
    pub downloaded: usize,
    pub cached: usize,
    pub unmatched: usize,
    pub errors: usize,
}

/// The repositories an entry's art comes from, given the head bytes of
/// its file.
pub open spec fn entry_repo_names(e: SyncRomEntry, head: Option<Vec<u8>>) -> Seq<Seq<char>> {
    entry_repos(e.system_id@, e.file_path@, match head {
        Some(h) => Some(h@),
        None => None,
    })
}

/// How many of the first `n` entries have no repository.
pub open spec fn no_repo_count(entries: Seq<SyncRomEntry>, heads: Seq<Option<Vec<u8>>>, n: int) -> nat
    decreases n,
{
    if n <= 0 {
        0
    } else {
        no_repo_count(entries, heads, n - 1) + if entry_repo_names(entries[n - 1], heads[n - 1]).len() == 0 {
            1nat
        } else {
            0nat
        }
    }
}

/// Some group named `n` lists item `i`.
pub open spec fn listed_under(groups: Seq<(String, Vec<usize>)>, n: Seq<char>, i: int) -> bool {
    exists|g: int| 0 <= g < groups.len() && (#[trigger] groups[g]).0@ == n && groups[g].1@.contains(i as usize)
}

/// A group is well formed: a non-empty, non-decreasing list of items
/// below `bound`, each of which carries the group's name.
pub open spec fn group_ok(grp: (String, Vec<usize>), lists: Seq<Seq<Seq<char>>>, bound: int) -> bool {
    &&& grp.1.len() > 0
    &&& forall|p: int, q: int| 0 <= p < q < grp.1.len() ==> grp.1@[p] <= grp.1@[q]
    &&& forall|p: int|
        0 <= p < grp.1.len() ==> (#[trigger] grp.1@[p]) < bound && lists[grp.1@[p] as int].contains(grp.0@)
}

/// `groups` groups items by the names each carries (`lists[i]` for item
/// `i`): one group per name, in increasing order of name, listing in order
/// every item carrying that name.
pub open spec fn grouped_by(groups: Seq<(String, Vec<usize>)>, lists: Seq<Seq<Seq<char>>>) -> bool {
    &&& forall|a: int, b: int|
        0 <= a < b < groups.len() ==> crate::text::lex_lt(#[trigger] groups[a].0@, #[trigger] groups[b].0@)
    &&& forall|g: int| 0 <= g < groups.len() ==> #[trigger] group_ok(groups[g], lists, lists.len() as int)
    &&& forall|i: int, k: int|
        0 <= i < lists.len() && 0 <= k < lists[i].len() ==> #[trigger] listed_under(groups, lists[i][k], i)
}

/// The names of each item.
pub open spec fn name_lists(names: Seq<Vec<String>>) -> Seq<Seq<Seq<char>>> {
    names.map_values(|v: Vec<String>| v@.map_values(|s: String| s@))
}

/// The repositories of each entry.
pub open spec fn repo_lists(entries: Seq<SyncRomEntry>, heads: Seq<Option<Vec<u8>>>) -> Seq<Seq<Seq<char>>> {
    Seq::new(entries.len(), |i: int| entry_repo_names(entries[i], heads[i]))
}

proof fn lemma_group_push(grp: (String, Vec<usize>), lists: Seq<Seq<Seq<char>>>, i: int, out: (String, Vec<usize>))
    requires
        group_ok(grp, lists, i + 1),
        0 <= i < lists.len(),
        i <= usize::MAX,
        lists[i].contains(grp.0@),
        out.0 == grp.0,
        out.1@ == grp.1@.push(i as usize),
    ensures
        group_ok(out, lists, i + 1),
        out.1@.contains(i as usize),
{
    assert(out.1@[grp.1.len() as int] == i as usize);
    assert forall|p: int| 0 <= p < out.1.len() implies (#[trigger] out.1@[p]) < i + 1 && lists[out.1@[p] as int].contains(
        out.0@,
    ) by {
        if p < grp.1.len() {
            assert(out.1@[p] == grp.1@[p]);
        }
    }
    assert forall|p: int, q: int| 0 <= p < q < out.1.len() implies out.1@[p] <= out.1@[q] by {
        if q < grp.1.len() {
            assert(out.1@[p] == grp.1@[p] && out.1@[q] == grp.1@[q]);
        } else {
            assert(out.1@[p] == grp.1@[p]);
        }
    }
}

/// Group items by the names each carries (`names[i]` for item `i`), in
/// increasing order of name; an item of several names joins each group,
/// an item of none joins no group.
pub fn group_by_names(names: &Vec<Vec<String>>) -> (r: Vec<(String, Vec<usize>)>)
    ensures
        grouped_by(r@, name_lists(names@)),
{
    let ghost lists = name_lists(names@);
    let mut groups: Vec<(String, Vec<usize>)> = Vec::new();
    let mut i: usize = 0;
    while i < names.len()
        invariant
            i <= names.len(),
            lists == name_lists(names@),
            forall|a: int, b: int|
                0 <= a < b < groups.len() ==> crate::text::lex_lt(#[trigger] groups@[a].0@, #[trigger] groups@[b].0@),
            forall|g: int| 0 <= g < groups.len() ==> #[trigger] group_ok(groups@[g], lists, i as int),
            forall|i2: int, k: int|
                0 <= i2 < i && 0 <= k < lists[i2].len() ==> #[trigger] listed_under(groups@, lists[i2][k], i2),
        decreases names.len() - i,
    {
        let repos = &names[i];
        let ghost mine = lists[i as int];
        assert(mine == repos@.map_values(|s: String| s@));
        proof {
            assert forall|g: int| 0 <= g < groups.len() implies #[trigger] group_ok(groups@[g], lists, i + 1) by {
                assert(group_ok(groups@[g], lists, i as int));
            }
        }
        {
            let mut k: usize = 0;
            while k < repos.len()
                invariant
                    k <= repos.len(),
                    i < names.len(),
                    lists == name_lists(names@),
                    repos == &names@[i as int],
                    mine == lists[i as int],
                    mine == repos@.map_values(|s: String| s@),
                    forall|a: int, b: int|
                        0 <= a < b < groups.len() ==> crate::text::lex_lt(
                            #[trigger] groups@[a].0@,
                            #[trigger] groups@[b].0@,
                        ),
                    forall|g: int| 0 <= g < groups.len() ==> #[trigger] group_ok(groups@[g], lists, i + 1),
                    forall|i2: int, k2: int|
                        0 <= i2 < i && 0 <= k2 < lists[i2].len() ==> #[trigger] listed_under(groups@, lists[i2][k2], i2),
                    forall|k2: int| 0 <= k2 < k ==> #[trigger] listed_under(groups@, mine[k2], i as int),
                decreases repos.len() - k,
            {
                let repo: &String = &repos[k];
                let name = chars_of(repo.as_str());
                assert(mine[k as int] == repo@);
                assert(mine.contains(repo@));
                let mut q: usize = 0;
                while q < groups.len() && crate::text::lex_less(&chars_of(groups[q].0.as_str()), &name)
                    invariant
                        q <= groups.len(),
                        forall|z: int| 0 <= z < q ==> crate::text::lex_lt((#[trigger] groups@[z]).0@, name@),
                    decreases groups.len() - q,
                {
                    q += 1;
                }
                let ghost before = groups@;
                if q < groups.len() && str_eq(groups[q].0.as_str(), repo.as_str()) {
                    let mut grp = groups.remove(q);
                    let ghost old_grp = grp;
                    grp.1.push(i);
                    proof {
                        lemma_group_push(old_grp, lists, i as int, grp);
                    }
                    groups.insert(q, grp);
                    proof {
                        assert(groups@ =~= before.update(q as int, grp));
                        assert forall|a: int, b: int|
                            0 <= a < b < groups.len() implies crate::text::lex_lt(
                                #[trigger] groups@[a].0@,
                                #[trigger] groups@[b].0@,
                            ) by {
                            assert(groups@[a].0 == before[a].0 && groups@[b].0 == before[b].0);
                        }
                        assert forall|g: int| 0 <= g < groups.len() implies #[trigger] group_ok(groups@[g], lists, i + 1) by {
                            if g != q {
                                assert(groups@[g] == before[g]);
                            }
                        }
                        assert forall|i2: int, k2: int|
                            0 <= i2 < i && 0 <= k2 < lists[i2].len() implies #[trigger] listed_under(groups@, lists[i2][k2], i2) by {
                            let n = lists[i2][k2];
                            assert(listed_under(before, n, i2));
                            let g = choose|g: int| 0 <= g < before.len() && (#[trigger] before[g]).0@ == n && before[g].1@.contains(i2 as usize);
                            if g == q {
                                let p = choose|p: int| 0 <= p < old_grp.1@.len() && old_grp.1@[p] == i2 as usize;
                                assert(grp.1@[p] == i2 as usize);
                                assert(groups@[g].1@.contains(i2 as usize));
                            } else {
                                assert(groups@[g] == before[g]);
                            }
                        }
                        assert forall|k2: int| 0 <= k2 < k + 1 implies #[trigger] listed_under(groups@, mine[k2], i as int) by {
                            if k2 == k {
                                assert(groups@[q as int].0@ == mine[k2]);
                            } else {
                                assert(listed_under(before, mine[k2], i as int));
                                let g = choose|g: int| 0 <= g < before.len() && (#[trigger] before[g]).0@ == mine[k2] && before[g].1@.contains(i as usize);
                                if g == q {
                                    let p = choose|p: int| 0 <= p < old_grp.1@.len() && old_grp.1@[p] == i as usize;
                                    assert(grp.1@[p] == i as usize);
                                    assert(groups@[g].1@.contains(i as usize));
                                } else {
                                    assert(groups@[g] == before[g]);
                                }
                            }
                        }
                    }
                } else {
                    proof {
                        if q < groups.len() {
                            crate::text::lemma_lex_lt_total(groups@[q as int].0@, name@);
                        }
                    }
                    let fresh = vec![i];
                    let grp = (repo.clone(), fresh);
                    proof {
                        assert(grp.1@[0] == i);
                        assert(group_ok(grp, lists, i + 1));
                    }
                    groups.insert(q, grp);
                    proof {
                        assert forall|a: int, b: int|
                            0 <= a < b < groups.len() implies crate::text::lex_lt(
                                #[trigger] groups@[a].0@,
                                #[trigger] groups@[b].0@,
                            ) by {
                            if b < q {
                                assert(groups@[a] == before[a] && groups@[b] == before[b]);
                            } else if b == q {
                                assert(groups@[a] == before[a]);
                            } else if a < q {
                                assert(groups@[a] == before[a] && groups@[b] == before[b - 1]);
                                crate::text::lemma_lex_lt_transitive(groups@[a].0@, name@, before[q as int].0@);
                                if b - 1 > q {
                                    crate::text::lemma_lex_lt_transitive(groups@[a].0@, before[q as int].0@, before[b - 1].0@);
                                }
                            } else if a == q {
                                assert(groups@[b] == before[b - 1]);
                                if b - 1 > q {
                                    crate::text::lemma_lex_lt_transitive(name@, before[q as int].0@, before[b - 1].0@);
                                }
                            } else {
                                assert(groups@[a] == before[a - 1] && groups@[b] == before[b - 1]);
                            }
                        }
                        assert forall|g: int| 0 <= g < groups.len() implies #[trigger] group_ok(groups@[g], lists, i + 1) by {
                            if g < q {
                                assert(groups@[g] == before[g]);
                            } else if g > q {
                                assert(groups@[g] == before[g - 1]);
                            }
                        }
                        assert forall|i2: int, k2: int|
                            0 <= i2 < i && 0 <= k2 < lists[i2].len() implies #[trigger] listed_under(groups@, lists[i2][k2], i2) by {
                            let n = lists[i2][k2];
                            assert(listed_under(before, n, i2));
                            let g = choose|g: int| 0 <= g < before.len() && (#[trigger] before[g]).0@ == n && before[g].1@.contains(i2 as usize);
                            if g < q {
                                assert(groups@[g] == before[g]);
                            } else {
                                assert(groups@[g + 1] == before[g]);
                            }
                        }
                        assert forall|k2: int| 0 <= k2 < k + 1 implies #[trigger] listed_under(groups@, mine[k2], i as int) by {
                            if k2 == k {
                                assert(groups@[q as int].0@ == mine[k2]);
                                assert(groups@[q as int].1@[0] == i as usize);
                            } else {
                                assert(listed_under(before, mine[k2], i as int));
                                let g = choose|g: int| 0 <= g < before.len() && (#[trigger] before[g]).0@ == mine[k2] && before[g].1@.contains(i as usize);
                                if g < q {
                                    assert(groups@[g] == before[g]);
                                } else {
                                    assert(groups@[g + 1] == before[g]);
                                }
                            }
                        }
                    }
                }
                k += 1;
            }
        }
        i += 1;
    }
    groups
}

/// Group entries by the libretro-thumbnails repositories holding their
/// art (`heads[i]` holding the head bytes of entry `i`'s file), in
/// increasing order of repository name; an entry of several repositories
/// joins each. Also counts the entries of no repository, which are left out.
pub fn group_by_repo(entries: &[SyncRomEntry], heads: &[Option<Vec<u8>>]) -> (r: (Vec<(String, Vec<usize>)>, usize))
    requires
        entries.len() == heads.len(),
    ensures
        grouped_by(r.0@, repo_lists(entries@, heads@)),
        r.1 == no_repo_count(entries@, heads@, entries.len() as int),
{
    let mut names: Vec<Vec<String>> = Vec::new();
    let mut skipped: usize = 0;
    let mut i: usize = 0;
    while i < entries.len()
        invariant
            i <= entries.len(),
            entries.len() == heads.len(),
            names.len() == i,
            skipped == no_repo_count(entries@, heads@, i as int),
            skipped <= i,
            forall|j: int| 0 <= j < i ==> #[trigger] name_lists(names@)[j] == entry_repo_names(entries@[j], heads@[j]),
        decreases entries.len() - i,
    {
        let head: Option<&[u8]> = match &heads[i] {
            Some(h) => Some(h.as_slice()),
            None => None,
        };
        let repos = repos_for_entry(&entries[i], head);
        let mut own: Vec<String> = Vec::new();
        let mut k: usize = 0;
        while k < repos.len()
            invariant
                k <= repos.len(),
                own.len() == k,
                forall|z: int| 0 <= z < k ==> (#[trigger] own@[z])@ == repos@[z]@,
            decreases repos.len() - k,
        {
            own.push(owned(repos[k]));
            k += 1;
        }
        assert(own@.map_values(|s: String| s@) =~= str_names(repos@));
        if repos.len() == 0 {
            skipped = skipped + 1;
        }
        let ghost before = names@;
        names.push(own);
        proof {
            assert forall|j: int| 0 <= j < i + 1 implies #[trigger] name_lists(names@)[j] == entry_repo_names(
                entries@[j],
                heads@[j],
            ) by {
                if j < i {
                    assert(names@[j] == before[j]);
                    assert(name_lists(before)[j] == entry_repo_names(entries@[j], heads@[j]));
                }
            }
        }
        i += 1;
    }
    let groups = group_by_names(&names);
    assert(name_lists(names@) =~= repo_lists(entries@, heads@));
    (groups, skipped)
}

/// The total size of the groups.
pub open spec fn group_sizes(groups: Seq<(String, Vec<usize>)>) -> nat
    decreases groups.len(),
{
    if groups.len() == 0 {
        0
    } else {
        group_sizes(groups.drop_last()) + groups.last().1@.len()
    }
}

/// The work units of a sync: one download attempt per entry, per
/// repository it is grouped under, per kind synced.
pub fn sync_work_units(groups: &Vec<(String, Vec<usize>)>, n_kinds: usize) -> (r: usize)
    requires
        group_sizes(groups@) <= usize::MAX,
        group_sizes(groups@) * n_kinds <= usize::MAX,
    ensures
        r == group_sizes(groups@) * n_kinds,
{
    let mut sum: usize = 0;
    let mut g: usize = 0;
    while g < groups.len()
        invariant
            g <= groups.len(),
            sum == group_sizes(groups@.take(g as int)),
            group_sizes(groups@) <= usize::MAX,
            group_sizes(groups@) * n_kinds <= usize::MAX,
        decreases groups.len() - g,
    {
        proof {
            assert(groups@.take(g + 1).drop_last() =~= groups@.take(g as int));
            lemma_group_sizes_prefix(groups@, g + 1);
        }
        sum = sum + groups[g].1.len();
        g += 1;
    }
    assert(groups@.take(groups.len() as int) =~= groups@);
    sum * n_kinds
}

proof fn lemma_group_sizes_prefix(groups: Seq<(String, Vec<usize>)>, n: int)
    requires
        0 <= n <= groups.len(),
    ensures
        group_sizes(groups.take(n)) <= group_sizes(groups),
    decreases groups.len(),
{
    if n < groups.len() {
        assert(groups.drop_last().take(n) =~= groups.take(n));
        lemma_group_sizes_prefix(groups.drop_last(), n);
    } else {
        assert(groups.take(n) =~= groups);
    }
}

/// How long a fetched repository tree is reused: a day.
pub const TREE_CACHE_TTL_SECS: u64 = 86_400;

/// Whether a cached repository tree fetched at `fetched_at` (seconds since
/// the epoch) may still be used at `now`: less than a day has passed.
/// A clock behind the fetch time counts as no time passed.
pub fn tree_cache_fresh(fetched_at: u64, now: u64) -> (r: bool)
    ensures
        r == (if now >= fetched_at { now - fetched_at } else { 0 } < TREE_CACHE_TTL_SECS),
{
    now.saturating_sub(fetched_at) < TREE_CACHE_TTL_SECS
}

/// The variants of `vs` that are not manual, in order.
pub open spec fn non_manual(vs: Seq<MediaVariant>) -> Seq<MediaVariant>
    decreases vs.len(),
{
    if vs.len() == 0 {
        Seq::empty()
    } else if vs.last().source is Manual {
        non_manual(vs.drop_last())
    } else {
        non_manual(vs.drop_last()).push(vs.last())
    }
}

/// A game's media with `variant`, the operator's own art, as the first and
/// only manual variant of `kind`, and any pin of `kind` dropped so that it
/// shows.
pub open spec fn with_manual(gm: GameMedia, kind: MediaKind, variant: MediaVariant, slot_after: Vec<MediaVariant>) -> GameMedia {
    GameMedia {
        selected: match gm.selected {
            Some(s) => Some(with_pin(s, kind, None)),
            None => None,
        },
        ..with_slot(gm, kind, slot_after)
    }
}

/// Make `variant` the operator's art for `kind`: it replaces any earlier
/// manual variant and comes first, the synced variants following in
/// their order; a pin of `kind` is dropped.
pub fn install_manual_variant(gm: &mut GameMedia, kind: MediaKind, variant: MediaVariant)
    ensures
        slot(*final(gm), kind)@ == seq![variant] + non_manual(slot(*old(gm), kind)@),
        *final(gm) == with_manual(*old(gm), kind, variant, slot(*final(gm), kind)),
{
    let ghost orig = slot(*gm, kind)@;
    let mut olds: Vec<MediaVariant> = Vec::new();
    {
        let vs = kind.variants_mut(gm);
        std::mem::swap(vs, &mut olds);
    }
    assert(olds@ == orig);
    let mut kept: Vec<MediaVariant> = vec![variant];
    let mut k: usize = 0;
    assert(orig.len() == olds.len());
    while olds.len() > 0
        invariant
            k <= orig.len(),
            orig.len() <= usize::MAX,
            olds@ == orig.skip(k as int),
            kept@ == seq![variant] + non_manual(orig.take(k as int)),
        decreases olds.len(),
    {
        let v = olds.remove(0);
        proof {
            assert(v == orig[k as int]);
            assert(orig.take(k + 1).drop_last() =~= orig.take(k as int));
            assert(orig.take(k + 1).last() == v);
            assert(olds@ =~= orig.skip(k + 1));
        }
        let manual = match v.source {
            MediaSource::Manual => true,
            _ => false,
        };
        if !manual {
            kept.push(v);
            assert(kept@ =~= seq![variant] + non_manual(orig.take(k + 1)));
        }
        k += 1;
    }
    assert(orig.take(k as int) =~= orig);
    {
        let vs = kind.variants_mut(gm);
        *vs = kept;
    }
    match &mut gm.selected {
        Some(sel) => sel.set_for_kind(kind, None),
        None => {},
    }
}

/// Where the thumbnail of a manual variant is kept: keyed by the first 16
/// characters of its SHA-1, `media/thumbs/<system>/<sha>.webp`.
pub fn manual_thumb_path(system_id: &str, sha1: &str) -> (r: String)
    ensures
        r@ == "media/thumbs/"@ + system_id@ + seq!['/'] + sha1@.take(
            if sha1@.len() < 16 { sha1@.len() as int } else { 16 },
        ) + ".webp"@,
{
    let sha = chars_of(sha1);
    let n: usize = if sha.len() < 16 { sha.len() } else { 16 };
    let mut out: Vec<char> = Vec::new();
    crate::text::push_str(&mut out, "media/thumbs/");
    crate::text::push_str(&mut out, system_id);
    out.push('/');
    let head = crate::text::slice_to_vec(&sha, 0, n);
    crate::text::push_all(&mut out, &head);
    crate::text::push_str(&mut out, ".webp");
    string_of(&out)
}

/// The thumbnail path of manual art with SHA-1 `sha1`.
pub open spec fn manual_thumb_of(system_id: Seq<char>, sha1: Seq<char>) -> Seq<char> {
    "media/thumbs/"@ + system_id + seq!['/'] + sha1.take(if sha1.len() < 16 { sha1.len() as int } else { 16 })
        + ".webp"@
}

/// Where operator-supplied art is stored and what identifies it.
#[derive(Clone, Debug)]
pub struct ManualArt {
    /// The slot's canonical media path.
    pub cover_path: String,
    /// The thumbnail path, keyed by the content's SHA-1.
    pub thumb_path: String,
    /// SHA-1 of the content, lower-case hex.
    pub sha1: String,
}

/// Place operator-supplied art for `kind` of a game: its canonical slot
/// path with extension `ext`, and the thumbnail path and SHA-1 of its
/// `content`.
pub fn manual_art(system_id: &str, kind: MediaKind, rom_stem: &str, ext: &str, content: &[u8]) -> (r: ManualArt)
    ensures
        r.cover_path@ == media_path(system_id@, kind, rom_stem@, ext@, None),
        r.sha1@ == sha1_hex_of(content@),
        r.thumb_path@ == manual_thumb_of(system_id@, sha1_hex_of(content@)),
{
    let sha1 = sha1_hex(content);
    let cover_path = media_path_for_slot(system_id, kind, rom_stem, ext, None);
    let thumb_path = manual_thumb_path(system_id, sha1.as_str());
    ManualArt { cover_path, thumb_path, sha1 }
}

/// The variant recorded for placed manual art of `len` bytes, with the
/// dimensions of its thumbnail source when one was made.
pub fn manual_variant(art: ManualArt, width: Option<u32>, height: Option<u32>, len: u64) -> (r: MediaVariant)
    ensures
        r.source is Manual,
        r.region is None,
        r.path == art.cover_path,
        r.thumb_path == Some(art.thumb_path),
        r.width == width && r.height == height,
        r.sha1 == Some(art.sha1),
        r.bytes == Some(len),
{
    MediaVariant {
        source: MediaSource::Manual,
        region: None,
        path: art.cover_path,
        thumb_path: Some(art.thumb_path),
        width,
        height,
        sha1: Some(art.sha1),
        bytes: Some(len),
    }
}

/// The kind a manual cover is set for, or the message refusing it.
pub open spec fn cover_kind_choice(kind: Option<&str>) -> Result<MediaKind, Seq<char>> {
    match kind {
        None => Ok(MediaKind::BoxFront),
        Some(k) => if k@.len() == 0 {
            Ok(MediaKind::BoxFront)
        } else {
            match kind_of_name(k@) {
                Some(m) => Ok(m),
                None => Err("unknown kind: "@ + k@),
            }
        },
    }
}

/// The kind a manual cover is set for: box fronts when none (or an empty
/// name) is given, else the named kind; an unknown name is refused with
/// `unknown kind: <name>`.
pub fn manual_cover_kind(kind: Option<&str>) -> (r: Result<MediaKind, String>)
    ensures
        match r {
            Ok(m) => cover_kind_choice(kind) == Ok::<MediaKind, Seq<char>>(m),
            Err(e) => cover_kind_choice(kind) == Err::<MediaKind, Seq<char>>(e@),
        },
{
    match kind {
        None => Ok(MediaKind::BoxFront),
        Some(k) => {
            if chars_of(k).len() == 0 {
                Ok(MediaKind::BoxFront)
            } else {
                match MediaKind::parse(k) {
                    Some(m) => Ok(m),
                    None => {
                        let mut out: Vec<char> = Vec::new();
                        crate::text::push_str(&mut out, "unknown kind: ");
                        crate::text::push_str(&mut out, k);
                        Err(string_of(&out))
                    },
                }
            }
        },
    }
}

/// The file stem of a game's manual art: from its archive entry or file
/// path when the library knows the game, else from its id.
pub fn manual_rom_stem(library_row: Option<(&str, Option<&str>)>, rom_id: &str) -> (r: String)
    ensures
        match library_row {
            Some((path, inner)) => r@ == sanitized_stem(path_stem(match inner {
                Some(i) => i@,
                None => path@,
            })),
            None => r@ == sanitized_stem(rom_id@),
        },
{
    match library_row {
        Some((path, inner)) => match inner {
            Some(i) => rom_stem_from_path(i),
            None => rom_stem_from_path(path),
        },
        None => sanitize_filename_stem(rom_id),
    }
}

/// What `image::guess_format` makes of a buffer: one of the three formats
/// the shell stores, another format (by name), or no image (the message).
#[derive(Clone, Debug, PartialEq, Eq)]
pub enum ImageGuess {
    Png,
    Jpeg,
    WebP,
    Other(String),
    NotAnImage(String),
}

pub enum ImageGuessModel {
    Png,
    Jpeg,
    WebP,
    Other(Seq<char>),
    NotAnImage(Seq<char>),
}

impl View for ImageGuess {
    type V = ImageGuessModel;

    open spec fn view(&self) -> ImageGuessModel {
        match self {
            ImageGuess::Png => ImageGuessModel::Png,
            ImageGuess::Jpeg => ImageGuessModel::Jpeg,
            ImageGuess::WebP => ImageGuessModel::WebP,
            ImageGuess::Other(n) => ImageGuessModel::Other(n@),
            ImageGuess::NotAnImage(e) => ImageGuessModel::NotAnImage(e@),
        }
    }
}

/// What `image::guess_format` makes of `bytes`, by their leading magic
/// numbers.
pub uninterp spec fn image_format_guess(bytes: Seq<u8>) -> ImageGuessModel;

/// The PNG signature.
pub open spec fn png_signature(b: Seq<u8>) -> bool {
    bytes_start_with(b, seq![0x89u8, 0x50, 0x4E, 0x47, 0x0D, 0x0A, 0x1A, 0x0A])
}

/// The JPEG start-of-image marker.
pub open spec fn jpeg_signature(b: Seq<u8>) -> bool {
    bytes_start_with(b, seq![0xFFu8, 0xD8, 0xFF])
}

/// A RIFF container of WebP data: `RIFF`, four size bytes, `WEBP`.
pub open spec fn webp_signature(b: Seq<u8>) -> bool {
    b.len() >= 12 && bytes_start_with(b, seq![0x52u8, 0x49, 0x46, 0x46]) && b.subrange(8, 12) == seq![
        0x57u8,
        0x45,
        0x42,
        0x50,
    ]
}

/// `image::guess_format`: the format the leading bytes of a buffer announce,
/// by the first matching entry of its magic-number table. It depends on the
/// bytes alone. Stated: PNG, JPEG and WebP are guessed exactly for their
/// signatures (their table entries come first and no earlier entry can
/// match such bytes); what other formats and errors it names is not stated.
#[verifier::external_body]
fn guess_image(bytes: &[u8]) -> (r: ImageGuess)
    ensures
        r@ == image_format_guess(bytes@),
        r@ is Png <==> png_signature(bytes@),
        r@ is Jpeg <==> jpeg_signature(bytes@),
        r@ is WebP <==> webp_signature(bytes@),
{
    match image::guess_format(bytes) {
        Ok(image::ImageFormat::Png) => ImageGuess::Png,
        Ok(image::ImageFormat::Jpeg) => ImageGuess::Jpeg,
        Ok(image::ImageFormat::WebP) => ImageGuess::WebP,
        Ok(other) => ImageGuess::Other(format!("{other:?}")),
        Err(e) => ImageGuess::NotAnImage(format!("{e}")),
    }
}

/// The extension art of a guessed format is stored under, or why it is
/// refused.
pub open spec fn guessed_ext(g: ImageGuessModel) -> Result<Seq<char>, Seq<char>> {
    match g {
        ImageGuessModel::Png => Ok("png"@),
        ImageGuessModel::Jpeg => Ok("jpg"@),
        ImageGuessModel::WebP => Ok("webp"@),
        ImageGuessModel::Other(n) => Err("unsupported image format: "@ + n),
        ImageGuessModel::NotAnImage(e) => Err("not an image: "@ + e),
    }
}

/// The extension art of a guessed format is stored under: PNG, JPEG and
/// WebP are kept, anything else is refused.
pub fn ext_for_guess(g: &ImageGuess) -> (r: Result<&'static str, String>)
    ensures
        match r {
            Ok(e) => guessed_ext(g@) == Ok::<Seq<char>, Seq<char>>(e@),
            Err(m) => guessed_ext(g@) == Err::<Seq<char>, Seq<char>>(m@),
        },
{
    match g {
        ImageGuess::Png => Ok("png"),
        ImageGuess::Jpeg => Ok("jpg"),
        ImageGuess::WebP => Ok("webp"),
        ImageGuess::Other(n) => {
            let mut out: Vec<char> = Vec::new();
            crate::text::push_str(&mut out, "unsupported image format: ");
            crate::text::push_str(&mut out, n.as_str());
            Err(string_of(&out))
        },
        ImageGuess::NotAnImage(e) => {
            let mut out: Vec<char> = Vec::new();
            crate::text::push_str(&mut out, "not an image: ");
            crate::text::push_str(&mut out, e.as_str());
            Err(string_of(&out))
        },
    }
}

/// The extension operator-supplied art is stored under, from its bytes.
pub fn detect_format(bytes: &[u8]) -> (r: Result<&'static str, String>)
    ensures
        r is Ok <==> png_signature(bytes@) || jpeg_signature(bytes@) || webp_signature(bytes@),
        png_signature(bytes@) ==> (r matches Ok(e) && e@ == "png"@),
        jpeg_signature(bytes@) ==> (r matches Ok(e) && e@ == "jpg"@),
        webp_signature(bytes@) ==> (r matches Ok(e) && e@ == "webp"@),
        match r {
            Ok(e) => guessed_ext(image_format_guess(bytes@)) == Ok::<Seq<char>, Seq<char>>(e@),
            Err(m) => guessed_ext(image_format_guess(bytes@)) == Err::<Seq<char>, Seq<char>>(m@),
        },
{
    let g = guess_image(bytes);
    ext_for_guess(&g)
}

/// How syncing one ROM for one kind ended.
#[derive(Clone, Copy, Debug, PartialEq, Eq)]
pub enum SyncResult {
    /// New art was downloaded and recorded.
    Downloaded,
    /// The recorded art is already on disk.
    Cached,
    /// No upstream art matches the ROM.
    NoMatch,
    /// Fetching or storing the art failed.
    Failed,
}

/// Count one ROM's sync result into the tallies.
pub fn record_sync_result(summary: &mut SyncSummary, r: SyncResult)
    requires
        old(summary).matched < usize::MAX,
        old(summary).downloaded < usize::MAX,
        old(summary).cached < usize::MAX,
        old(summary).unmatched < usize::MAX,
        old(summary).errors < usize::MAX,
    ensures
        final(summary).matched == old(summary).matched + if r is Downloaded || r is Cached { 1int } else { 0 },
        final(summary).downloaded == old(summary).downloaded + if r is Downloaded { 1int } else { 0 },
        final(summary).cached == old(summary).cached + if r is Cached { 1int } else { 0 },
        final(summary).unmatched == old(summary).unmatched + if r is NoMatch { 1int } else { 0 },
        final(summary).errors == old(summary).errors + if r is Failed { 1int } else { 0 },
        final(summary).system_id == old(summary).system_id,
        final(summary).total == old(summary).total,
{
    match r {
        SyncResult::Downloaded => {
            summary.matched = summary.matched + 1;
            summary.downloaded = summary.downloaded + 1;
        },
        SyncResult::Cached => {
            summary.matched = summary.matched + 1;
            summary.cached = summary.cached + 1;
        },
        SyncResult::NoMatch => {
            summary.unmatched = summary.unmatched + 1;
        },
        SyncResult::Failed => {
            summary.errors = summary.errors + 1;
        },
    }
}

/// The progress line of one ROM's sync result.
pub open spec fn sync_action_text(kind: MediaKind, r: SyncResult) -> Seq<char> {
    kind_name(kind) + match r {
        SyncResult::Downloaded => ": downloaded"@,
        SyncResult::Cached => ": cached"@,
        SyncResult::NoMatch => ": no match"@,
        SyncResult::Failed => ": error"@,
    }
}

/// The progress line of one ROM's sync result.
pub fn sync_action(kind: MediaKind, r: SyncResult) -> (s: String)
    ensures
        s@ == sync_action_text(kind, r),
{
    let mut out: Vec<char> = Vec::new();
    crate::text::push_str(&mut out, kind.as_str());
    match r {
        SyncResult::Downloaded => crate::text::push_str(&mut out, ": downloaded"),
        SyncResult::Cached => crate::text::push_str(&mut out, ": cached"),
        SyncResult::NoMatch => crate::text::push_str(&mut out, ": no match"),
        SyncResult::Failed => crate::text::push_str(&mut out, ": error"),
    }
    string_of(&out)
}

/// Count `units` sync attempts lost to an unreachable repository, as
/// errors; their progress line is `repo unavailable: <repo>`.
pub fn record_repo_unavailable(summary: &mut SyncSummary, units: usize, repo: &str) -> (line: String)
    requires
        old(summary).errors + units <= usize::MAX,
    ensures
        *final(summary) == (SyncSummary { errors: (old(summary).errors + units) as usize, ..*old(summary) }),
        line@ == "repo unavailable: "@ + repo@,
{
    summary.errors = summary.errors + units;
    let mut out: Vec<char> = Vec::new();
    crate::text::push_str(&mut out, "repo unavailable: ");
    crate::text::push_str(&mut out, repo);
    string_of(&out)
}

/// Count the `n` ROMs of a repository that has no folder for `kind`, as
/// unmatched; their progress line is `<kind>: not in repo`.
pub fn record_kind_missing(summary: &mut SyncSummary, n: usize, kind: MediaKind) -> (line: String)
    requires
        old(summary).unmatched + n <= usize::MAX,
    ensures
        *final(summary) == (SyncSummary { unmatched: (old(summary).unmatched + n) as usize, ..*old(summary) }),
        line@ == kind_name(kind) + ": not in repo"@,
{
    summary.unmatched = summary.unmatched + n;
    let mut out: Vec<char> = Vec::new();
    crate::text::push_str(&mut out, kind.as_str());
    crate::text::push_str(&mut out, ": not in repo");
    string_of(&out)
}

/// `path` with every ASCII letter lower-cased.
pub open spec fn lower_name(s: Seq<char>) -> Seq<char> {
    crate::text::ascii_lower(s)
}

/// The upstream file that carries a hash-identified ROM's art: the first
/// whose name without extension equals the canonical title, ignoring ASCII
/// case.
pub fn canonical_upstream_match(parsed: &[crate::normalize::ParsedUpstream], canonical: &str) -> (r: Option<usize>)
    ensures
        match r {
            Some(i) => i < parsed.len() && lower_name(stem_of_name(parsed@[i as int].filename@)) == lower_name(
                canonical@,
            ) && forall|j: int|
                0 <= j < i ==> lower_name(stem_of_name((#[trigger] parsed@[j]).filename@)) != lower_name(canonical@),
            None => forall|j: int|
                0 <= j < parsed.len() ==> lower_name(stem_of_name((#[trigger] parsed@[j]).filename@)) != lower_name(
                    canonical@,
                ),
        },
{
    let needle = crate::text::lower_ascii(&chars_of(canonical));
    let mut i: usize = 0;
    while i < parsed.len()
        invariant
            i <= parsed.len(),
            needle@ == lower_name(canonical@),
            forall|j: int|
                0 <= j < i ==> lower_name(stem_of_name((#[trigger] parsed@[j]).filename@)) != lower_name(canonical@),
        decreases parsed.len() - i,
    {
        let name = chars_of(parsed[i].filename.as_str());
        let stem = stem_chars(&name);
        let lowered = crate::text::lower_ascii(&stem);
        if crate::text::seq_eq(&lowered, &needle) {
            return Some(i);
        }
        i += 1;
    }
    None
}

/// Where a libretro-thumbnails file is downloaded from:
/// `https://github.com/libretro-thumbnails/<repo>/raw/master/<subdir>/<file>`,
/// the file name percent-encoded.
pub fn thumbnail_url(repo: &str, subdir: &str, filename: &str) -> (r: String)
    ensures
        r@ == "https://github.com/libretro-thumbnails/"@ + repo@ + "/raw/master/"@ + subdir@ + seq!['/']
            + percent_encoded(filename.spec_bytes()),
{
    let enc = url_encode(filename);
    let mut out: Vec<char> = Vec::new();
    crate::text::push_str(&mut out, "https://github.com/libretro-thumbnails/");
    crate::text::push_str(&mut out, repo);
    crate::text::push_str(&mut out, "/raw/master/");
    crate::text::push_str(&mut out, subdir);
    out.push('/');
    crate::text::push_str(&mut out, enc.as_str());
    string_of(&out)
}

/// The bytes read as characters, one per byte.
pub open spec fn byte_chars(b: Seq<u8>) -> Seq<char> {
    b.map_values(|x: u8| x as char)
}

/// How a byte shows in a preview: a printable ASCII character or a space
/// as itself, anything else as `.`.
pub open spec fn preview_char(b: u8) -> char {
    if 0x20 <= b <= 0x7E {
        b as char
    } else {
        '.'
    }
}

/// The first `n` bytes (all, when fewer) as a preview.
pub open spec fn head_preview_of(b: Seq<u8>, n: nat) -> Seq<char> {
    b.take(if b.len() < n { b.len() as int } else { n as int }).map_values(|x: u8| preview_char(x))
}

/// The first `n` bytes of a response as text: printable ASCII characters
/// and spaces as they are, every other byte as `.`.
pub fn head_preview(bytes: &[u8], n: usize) -> (r: String)
    ensures
        r@ == head_preview_of(bytes@, n as nat),
{
    let m: usize = if bytes.len() < n { bytes.len() } else { n };
    let ghost want = head_preview_of(bytes@, n as nat);
    let mut out: Vec<char> = Vec::new();
    let mut i: usize = 0;
    while i < m
        invariant
            m <= bytes.len(),
            m == if bytes@.len() < n { bytes@.len() as int } else { n as int },
            i <= m,
            want == head_preview_of(bytes@, n as nat),
            want.len() == m,
            out@ == want.take(i as int),
        decreases m - i,
    {
        let b = bytes[i];
        let c: char = if 0x20 <= b && b <= 0x7E {
            b as char
        } else {
            '.'
        };
        assert(want[i as int] == preview_char(bytes@[i as int]));
        out.push(c);
        assert(out@ =~= want.take(i + 1));
        i += 1;
    }
    assert(want.take(m as int) =~= want);
    string_of(&out)
}

/// What one downloaded hop of a thumbnail turned out to be.
#[derive(Clone, Debug)]
pub enum DownloadStep {
    /// An image: the download is done.
    Image,
    /// A same-directory symlink: download this file next.
    Follow(String),
    /// Anything else: the download fails with this message.
    Refuse(String),
}

/// The message a non-image, non-symlink response fails with.
pub open spec fn non_image_message(url: Seq<char>, b: Seq<u8>) -> Seq<char> {
    "non-image response from "@ + url + " ("@ + decimal(b.len()) + " bytes, head=`"@ + head_preview_of(b, 48)
        + "`)"@
}

/// Decide what a downloaded hop is: an image ends the download; a git
/// symlink to a file in the same directory names the file to fetch next,
/// its text trimmed; anything else is refused with the response's size
/// and first 48 bytes.
pub fn download_step(url: &str, bytes: &[u8]) -> (r: DownloadStep)
    ensures
        image_magic(bytes@) ==> r is Image,
        !image_magic(bytes@) && same_dir_symlink_target(bytes@) ==> (r matches DownloadStep::Follow(t) && t@
            == trim(byte_chars(bytes@))),
        !image_magic(bytes@) && !same_dir_symlink_target(bytes@) ==> (r matches DownloadStep::Refuse(m) && m@
            == non_image_message(url@, bytes@)),
{
    if is_image_magic(bytes) {
        return DownloadStep::Image;
    }
    if looks_like_same_dir_symlink_target(bytes) {
        let mut cs: Vec<char> = Vec::new();
        let mut i: usize = 0;
        while i < bytes.len()
            invariant
                i <= bytes.len(),
                cs@ == byte_chars(bytes@).take(i as int),
            decreases bytes.len() - i,
        {
            cs.push(bytes[i] as char);
            assert(cs@ =~= byte_chars(bytes@).take(i + 1));
            i += 1;
        }
        assert(byte_chars(bytes@).take(bytes.len() as int) =~= byte_chars(bytes@));
        let t = crate::text::trim_vec(&cs);
        return DownloadStep::Follow(string_of(&t));
    }
    let preview = head_preview(bytes, 48);
    let mut m: Vec<char> = Vec::new();
    crate::text::push_str(&mut m, "non-image response from ");
    crate::text::push_str(&mut m, url);
    crate::text::push_str(&mut m, " (");
    let d = decimal_chars_wide(bytes.len() as u128);
    crate::text::push_all(&mut m, &d);
    crate::text::push_str(&mut m, " bytes, head=`");
    crate::text::push_str(&mut m, preview.as_str());
    crate::text::push_str(&mut m, "`)");
    DownloadStep::Refuse(string_of(&m))
}

/// The error of a download whose symlinks lead back to a file already
/// fetched: `symlink loop starting from <first file>`, when `filename` is
/// among `seen`.
pub fn symlink_loop_error(seen: &[String], filename: &str, initial: &str) -> (r: Option<String>)
    ensures
        r is Some <==> exists|i: int| 0 <= i < seen.len() && (#[trigger] seen@[i])@ == filename@,
        r matches Some(m) ==> m@ == "symlink loop starting from "@ + initial@,
{
    let mut i: usize = 0;
    while i < seen.len()
        invariant
            i <= seen.len(),
            forall|j: int| 0 <= j < i ==> (#[trigger] seen@[j])@ != filename@,
        decreases seen.len() - i,
    {
        if str_eq(seen[i].as_str(), filename) {
            let mut m: Vec<char> = Vec::new();
            crate::text::push_str(&mut m, "symlink loop starting from ");
            crate::text::push_str(&mut m, initial);
            return Some(string_of(&m));
        }
        i += 1;
    }
    None
}

/// The error of a download that followed more than `max_hops` symlinks.
pub fn too_many_hops_error(max_hops: usize, initial: &str) -> (r: String)
    ensures
        r@ == "too many symlink hops (>"@ + decimal(max_hops as nat) + ") starting from "@ + initial@,
{
    let mut m: Vec<char> = Vec::new();
    crate::text::push_str(&mut m, "too many symlink hops (>");
    let d = decimal_chars_wide(max_hops as u128);
    crate::text::push_all(&mut m, &d);
    crate::text::push_str(&mut m, ") starting from ");
    crate::text::push_str(&mut m, initial);
    string_of(&m)
}

/// Where the art of an upstream file is kept:
/// `media/cache/libretro-thumbnails/<system>/<subdir>/<file>`.
pub fn sync_cache_path(system_id: &str, subdir: &str, filename: &str) -> (r: String)
    ensures
        r@ == "media/cache/libretro-thumbnails/"@ + system_id@ + seq!['/'] + subdir@ + seq!['/'] + filename@,
{
    let mut out: Vec<char> = Vec::new();
    crate::text::push_str(&mut out, "media/cache/libretro-thumbnails/");
    crate::text::push_str(&mut out, system_id);
    out.push('/');
    crate::text::push_str(&mut out, subdir);
    out.push('/');
    crate::text::push_str(&mut out, filename);
    string_of(&out)
}

/// Where the thumbnail of downloaded art is kept: keyed by the first 16
/// characters of its SHA-1, `media/thumbs/<system>/<subdir>/<sha>.webp`.
pub fn sync_thumb_path(system_id: &str, subdir: &str, sha1: &str) -> (r: String)
    ensures
        r@ == "media/thumbs/"@ + system_id@ + seq!['/'] + subdir@ + seq!['/'] + sha1@.take(
            if sha1@.len() < 16 { sha1@.len() as int } else { 16 },
        ) + ".webp"@,
{
    let sha = chars_of(sha1);
    let n: usize = if sha.len() < 16 { sha.len() } else { 16 };
    let mut out: Vec<char> = Vec::new();
    crate::text::push_str(&mut out, "media/thumbs/");
    crate::text::push_str(&mut out, system_id);
    out.push('/');
    crate::text::push_str(&mut out, subdir);
    out.push('/');
    let head = crate::text::slice_to_vec(&sha, 0, n);
    crate::text::push_all(&mut out, &head);
    crate::text::push_str(&mut out, ".webp");
    string_of(&out)
}

/// A variant is the synced art kept at `path`.
pub open spec fn synced_at(v: MediaVariant, path: Seq<char>) -> bool {
    v.source is LibretroThumbnails && v.path@ == path
}

/// The first variant that is the synced art kept at `path`.
pub open spec fn first_synced_at(vs: Seq<MediaVariant>, path: Seq<char>) -> Option<int> {
    if exists|i: int| 0 <= i < vs.len() && synced_at(#[trigger] vs[i], path) {
        Some(choose|i: int| 0 <= i < vs.len() && synced_at(#[trigger] vs[i], path) && forall|j: int|
            0 <= j < i ==> !synced_at(#[trigger] vs[j], path))
    } else {
        None
    }
}

/// The SHA-1 recorded for the synced art at `cache_path` among a game's
/// variants of `kind`, if any.
pub fn recorded_sync_sha1(gm: &GameMedia, kind: MediaKind, cache_path: &str) -> (r: Option<String>)
    ensures
        r == match first_synced_at(slot(*gm, kind)@, cache_path@) {
            Some(i) => slot(*gm, kind)@[i].sha1,
            None => None,
        },
{
    let vs = kind.variants(gm);
    let mut i: usize = 0;
    while i < vs.len()
        invariant
            i <= vs.len(),
            vs@ == slot(*gm, kind)@,
            forall|j: int| 0 <= j < i ==> !synced_at(#[trigger] vs@[j], cache_path@),
        decreases vs.len() - i,
    {
        let hit = match vs[i].source {
            MediaSource::LibretroThumbnails => str_eq(vs[i].path.as_str(), cache_path),
            _ => false,
        };
        if hit {
            assert(synced_at(vs@[i as int], cache_path@));
            assert(first_synced_at(vs@, cache_path@) == Some(i as int));
            return match &vs[i].sha1 {
                Some(s) => Some(s.clone()),
                None => None,
            };
        }
        i += 1;
    }
    assert(first_synced_at(vs@, cache_path@) is None);
    None
}

/// The variant recorded for freshly downloaded art.
pub fn synced_variant(
    region: Option<&'static str>,
    path: String,
    thumb_path: String,
    width: Option<u32>,
    height: Option<u32>,
    sha1: String,
    bytes: u64,
) -> (r: MediaVariant)
    ensures
        r.source is LibretroThumbnails,
        match region {
            Some(n) => r.region matches Some(g) && parses_to(n@, g),
            None => r.region is None,
        },
        r.path == path,
        r.thumb_path == Some(thumb_path),
        r.width == width && r.height == height,
        r.sha1 == Some(sha1),
        r.bytes == Some(bytes),
{
    MediaVariant {
        source: MediaSource::LibretroThumbnails,
        region: match region {
            Some(n) => Some(Region::parse(n)),
            None => None,
        },
        path,
        thumb_path: Some(thumb_path),
        width,
        height,
        sha1: Some(sha1),
        bytes: Some(bytes),
    }
}

/// Tally of a metadata clear over one system.
#[derive(Clone, Debug)]
pub struct MetadataClearSummary {
    pub system_id: String,
    pub scanned: usize,
    pub cleared: usize,
}

/// Bytes used by the media folders.
#[derive(Clone, Debug)]
pub struct MediaStorageStats {
    pub covers_bytes: u64,
    pub thumbs_bytes: u64,
    pub cache_bytes: u64,
    pub total_bytes: u64,
}

/// One libretro-thumbnails repository's file listing per subdirectory.
#[derive(Clone, Debug)]
pub struct RepoTree {
    pub boxarts: Vec<String>,
    pub snaps: Vec<String>,
    pub titles: Vec<String>,
}

impl RepoTree {
    /// The listing that holds `kind`; empty for kinds the repositories do
    /// not carry.
    pub fn for_kind(&self, kind: MediaKind) -> (r: &[String])
        ensures
            r@ == match kind {
                MediaKind::BoxFront => self.boxarts@,
                MediaKind::ScreenshotGameplay => self.snaps@,
                MediaKind::ScreenshotTitle => self.titles@,
                _ => Seq::<String>::empty(),
            },
    {
        match kind {
            MediaKind::BoxFront => self.boxarts.as_slice(),
            MediaKind::ScreenshotGameplay => self.snaps.as_slice(),
            MediaKind::ScreenshotTitle => self.titles.as_slice(),
            _ => {
                let r: &[String] = &[];
                assert(r@ =~= Seq::<String>::empty());
                r
            },
        }
    }
}

/// The names of the PNG files directly listed under `dir` (a prefix ending
/// in `/`) among the paths of a repository's tree, in order, with the
/// prefix removed.
pub open spec fn listed_pngs(paths: Seq<Seq<char>>, dir: Seq<char>) -> Seq<Seq<char>>
    decreases paths.len(),
{
    if paths.len() == 0 {
        Seq::empty()
    } else {
        let before = listed_pngs(paths.drop_last(), dir);
        let p = paths.last();
        if ends_with(p, ".png"@) && starts_with(p, dir) {
            before.push(p.skip(dir.len() as int))
        } else {
            before
        }
    }
}

fn push_listed(out: &mut Vec<String>, cs: &Vec<char>, dir: &Vec<char>)
    requires
        starts_with(cs@, dir@),
    ensures
        names(final(out)@) == names(old(out)@).push(cs@.skip(dir@.len() as int)),
{
    let rest = crate::text::slice_to_vec(cs, dir.len(), cs.len());
    let ghost before = out@;
    out.push(string_of(&rest));
    assert(names(out@) =~= names(before).push(cs@.skip(dir@.len() as int)));
}

/// A repository's listing from the paths of its git tree: the PNG files
/// under `Named_Boxarts/`, `Named_Snaps/` and `Named_Titles/`, each by its
/// name inside that folder, in tree order; every other path is ignored.
pub fn repo_tree_from_paths(paths: &[String]) -> (r: RepoTree)
    ensures
        names(r.boxarts@) == listed_pngs(names(paths@), "Named_Boxarts/"@),
        names(r.snaps@) == listed_pngs(names(paths@), "Named_Snaps/"@),
        names(r.titles@) == listed_pngs(names(paths@), "Named_Titles/"@),
{
    proof {
        reveal_strlit("Named_Boxarts/");
        reveal_strlit("Named_Snaps/");
        reveal_strlit("Named_Titles/");
        reveal_strlit(".png");
    }
    let ghost ps = names(paths@);
    let png = chars_of(".png");
    let bdir = chars_of("Named_Boxarts/");
    let sdir = chars_of("Named_Snaps/");
    let tdir = chars_of("Named_Titles/");
    let mut tree = RepoTree { boxarts: Vec::new(), snaps: Vec::new(), titles: Vec::new() };
    let mut i: usize = 0;
    while i < paths.len()
        invariant
            i <= paths.len(),
            ps == names(paths@),
            png@ == ".png"@,
            bdir@ == "Named_Boxarts/"@,
            sdir@ == "Named_Snaps/"@,
            tdir@ == "Named_Titles/"@,
            bdir@.len() == 14 && sdir@.len() == 12 && tdir@.len() == 13,
            bdir@[6] == 'B' && sdir@[6] == 'S' && tdir@[6] == 'T',
            names(tree.boxarts@) == listed_pngs(ps.take(i as int), bdir@),
            names(tree.snaps@) == listed_pngs(ps.take(i as int), sdir@),
            names(tree.titles@) == listed_pngs(ps.take(i as int), tdir@),
        decreases paths.len() - i,
    {
        let cs = chars_of(paths[i].as_str());
        let ghost p = ps[i as int];
        assert(ps.take(i + 1).drop_last() =~= ps.take(i as int));
        assert(ps.take(i + 1).last() == p);
        assert(cs@ == p);
        if has_suffix(&cs, &png) {
            let in_b = has_prefix(&cs, &bdir);
            let in_s = has_prefix(&cs, &sdir);
            let in_t = has_prefix(&cs, &tdir);
            proof {
                if in_b {
                    assert(p[6] == bdir@[6]) by { assert(p.take(14)[6] == p[6]); }
                }
                if in_s {
                    assert(p[6] == sdir@[6]) by { assert(p.take(12)[6] == p[6]); }
                }
                if in_t {
                    assert(p[6] == tdir@[6]) by { assert(p.take(13)[6] == p[6]); }
                }
            }
            if in_b {
                push_listed(&mut tree.boxarts, &cs, &bdir);
            } else if in_s {
                push_listed(&mut tree.snaps, &cs, &sdir);
            } else if in_t {
                push_listed(&mut tree.titles, &cs, &tdir);
            }
        }
        i += 1;
    }
    assert(ps.take(paths.len() as int) =~= ps);
    tree
}

/// Where a repository's listing is cached, relative to the app data
/// folder: `media/cache/index-<repo>.v2.json`.
pub fn tree_cache_file(repo: &str) -> (r: String)
    ensures
        r@ == "media/cache/index-"@ + repo@ + ".v2.json"@,
{
    let mut out: Vec<char> = Vec::new();
    crate::text::push_str(&mut out, "media/cache/index-");
    crate::text::push_str(&mut out, repo);
    crate::text::push_str(&mut out, ".v2.json");
    string_of(&out)
}

// ---------------------------------------------------------------------
// Media paths
// ---------------------------------------------------------------------

/// The ASCII digit of `d < 10`.
pub open spec fn digit(d: nat) -> char {
    ((d + 48) as u8) as char
}

/// Decimal digits of `n`, without leading zeros.
pub open spec fn decimal(n: nat) -> Seq<char>
    decreases n,
{
    if n < 10 {
        seq![digit(n)]
    } else {
        decimal(n / 10).push(digit(n % 10))
    }
}

/// The `-NN` suffix of variant `n`: none for `None`, 0 or 1; else `-`
/// and the number in at least two digits.
pub open spec fn variant_suffix(n: Option<u32>) -> Seq<char> {
    match n {
        Some(k) => if k >= 2 {
            seq!['-'] + if k < 10 {
                seq!['0', digit(k as nat)]
            } else {
                decimal(k as nat)
            }
        } else {
            Seq::empty()
        },
        None => Seq::empty(),
    }
}

/// `media/<system>/<kind>/<stem><suffix>.<ext>`.
pub open spec fn media_path(system_id: Seq<char>, kind: MediaKind, stem: Seq<char>, ext: Seq<char>, n: Option<u32>) -> Seq<char> {
    "media/"@ + system_id + seq!['/'] + kind_name(kind) + seq!['/'] + stem + variant_suffix(n)
        + seq!['.'] + ext
}

fn digit_char(d: u32) -> (r: char)
    requires
        d < 10,
    ensures
        r == digit(d as nat),
{
    let b: u8 = (d as u8) + 48;
    b as char
}

fn decimal_chars(n: u32) -> (r: Vec<char>)
    ensures
        r@ == decimal(n as nat),
    decreases n,
{
    if n < 10 {
        vec![digit_char(n)]
    } else {
        let mut v = decimal_chars(n / 10);
        v.push(digit_char(n % 10));
        v
    }
}

fn suffix_chars(n: Option<u32>) -> (r: Vec<char>)
    ensures
        r@ == variant_suffix(n),
{
    match n {
        Some(k) => {
            if k >= 2 {
                let mut out: Vec<char> = vec!['-'];
                if k < 10 {
                    out.push('0');
                    out.push(digit_char(k));
                    assert(out@ =~= seq!['-'] + seq!['0', digit(k as nat)]);
                } else {
                    let d = decimal_chars(k);
                    crate::text::push_all(&mut out, &d);
                    assert(out@ =~= seq!['-'] + decimal(k as nat));
                }
                out
            } else {
                Vec::new()
            }
        },
        None => Vec::new(),
    }
}

/// The canonical media path of a slot:
/// `media/<system_id>/<kind>/<rom_stem><suffix>.<ext>`, where the suffix
/// is empty for `None` and `Some(1)` and `-NN` (two digits at least) for
/// `Some(n)` with `n >= 2`. No argument is sanitized.
pub fn media_path_for_slot(
    system_id: &str,
    kind: MediaKind,
    rom_stem: &str,
    ext: &str,
    variant_n: Option<u32>,
) -> (r: String)
    ensures
        r@ == media_path(system_id@, kind, rom_stem@, ext@, variant_n),
{
    let mut out: Vec<char> = Vec::new();
    crate::text::push_str(&mut out, "media/");
    crate::text::push_str(&mut out, system_id);
    out.push('/');
    crate::text::push_str(&mut out, kind.as_str());
    out.push('/');
    crate::text::push_str(&mut out, rom_stem);
    let suffix = suffix_chars(variant_n);
    crate::text::push_all(&mut out, &suffix);
    out.push('.');
    crate::text::push_str(&mut out, ext);
    assert(out@ =~= media_path(system_id@, kind, rom_stem@, ext@, variant_n));
    string_of(&out)
}

/// `<stem><suffix>.<ext>`: the file name of variant `n` of a slot, as
/// `media_path_for_slot` names it.
pub fn variant_file_name(stem: &str, ext: &str, n: u32) -> (r: String)
    ensures
        r@ == stem@ + variant_suffix(Some(n)) + seq!['.'] + ext@,
{
    let mut out: Vec<char> = Vec::new();
    crate::text::push_str(&mut out, stem);
    let suffix = suffix_chars(Some(n));
    crate::text::push_all(&mut out, &suffix);
    out.push('.');
    crate::text::push_str(&mut out, ext);
    assert(out@ =~= stem@ + variant_suffix(Some(n)) + seq!['.'] + ext@);
    string_of(&out)
}

pub(crate) fn decimal_chars_wide(n: u128) -> (r: Vec<char>)
    ensures
        r@ == decimal(n as nat),
    decreases n,
{
    if n < 10 {
        vec![digit_char(n as u32)]
    } else {
        let mut v = decimal_chars_wide(n / 10);
        v.push(digit_char((n % 10) as u32));
        v
    }
}

/// `dir` joined with the file name `name` (`Path::join`).
#[verifier::external_body]
fn path_join(dir: &std::path::PathBuf, name: &str) -> std::path::PathBuf {
    dir.join(name)
}

/// Whether something exists at `path` (`Path::exists`). What it returns
/// depends on the disk, so nothing is promised of it.
#[verifier::external_body]
fn path_exists(path: &std::path::PathBuf) -> bool {
    path.exists()
}

/// Milliseconds since the Unix epoch by the system clock (0 when the clock
/// reads earlier). It depends on the time, so nothing is promised of it.
#[verifier::external_body]
fn millis_since_epoch() -> u128 {
    std::time::SystemTime::now().duration_since(std::time::UNIX_EPOCH).map(|d| d.as_millis()).unwrap_or(0)
}

/// A variant file name a new file of a slot may take in a folder: the
/// primary `<stem>.<ext>` or `<stem>-NN.<ext>` for `NN` up to 99, or past
/// those `<stem>-<milliseconds>.<ext>`.
pub open spec fn variant_name_choice(stem: Seq<char>, ext: Seq<char>, name: Seq<char>) -> bool {
    ||| exists|n: u32| 1 <= n <= 99 && name == #[trigger] (stem + variant_suffix(Some(n)) + seq!['.'] + ext)
    ||| exists|ms: nat| name == #[trigger] (stem + seq!['-'] + decimal(ms) + seq!['.'] + ext)
}

/// Whether variant `n` (1 to 99) is known to be free: `taken` holds, for
/// variants 1, 2, ... in turn, whether a file of that name exists; a
/// variant past its end counts as taken.
pub open spec fn variant_free(taken: Seq<bool>, n: int) -> bool {
    1 <= n <= 99 && n - 1 < taken.len() && !taken[n - 1]
}

/// The first free variant from `n` on, up to 99.
pub open spec fn first_free_from(taken: Seq<bool>, n: int) -> Option<int>
    decreases 100 - n,
{
    if n > 99 || n < 1 {
        None
    } else if variant_free(taken, n) {
        Some(n)
    } else {
        first_free_from(taken, n + 1)
    }
}

/// The name a new variant gets: `<stem>.<ext>` when free, else the first
/// free `<stem>-NN.<ext>` (02 to 99), else `<stem>-<ms>.<ext>` with the
/// millisecond stamp `ms`.
pub open spec fn free_variant_name(stem: Seq<char>, ext: Seq<char>, taken: Seq<bool>, ms: nat) -> Seq<char> {
    match first_free_from(taken, 1) {
        Some(n) => stem + variant_suffix(Some(n as u32)) + seq!['.'] + ext,
        None => stem + seq!['-'] + decimal(ms) + seq!['.'] + ext,
    }
}

/// Pick the name of a new variant from what is known of the folder:
/// `taken[i]` tells whether the name of variant `i + 1` exists (variant 1
/// is the primary `<stem>.<ext>`). The first free one wins; with none of
/// the 99 free, the name carries the millisecond stamp `ms`.
pub fn first_free_variant(stem: &str, ext: &str, taken: &[bool], ms: u128) -> (r: String)
    ensures
        r@ == free_variant_name(stem@, ext@, taken@, ms as nat),
{
    let mut n: u32 = 1;
    while n <= 99
        invariant
            1 <= n <= 100,
            first_free_from(taken@, 1) == first_free_from(taken@, n as int),
        decreases 100 - n,
    {
        let free = (n as usize) - 1 < taken.len() && !taken[(n as usize) - 1];
        if free {
            assert(variant_free(taken@, n as int));
            return variant_file_name(stem, ext, n);
        }
        assert(!variant_free(taken@, n as int));
        n += 1;
    }
    assert(first_free_from(taken@, 100) is None);
    let mut out: Vec<char> = Vec::new();
    crate::text::push_str(&mut out, stem);
    out.push('-');
    let digits = decimal_chars_wide(ms);
    crate::text::push_all(&mut out, &digits);
    out.push('.');
    crate::text::push_str(&mut out, ext);
    assert(out@ =~= stem@ + seq!['-'] + decimal(ms as nat) + seq!['.'] + ext@);
    string_of(&out)
}

/// The first variant file name not yet present in `dir`: the primary
/// `<stem>.<ext>`, then `<stem>-02.<ext>` up to `<stem>-99.<ext>`, and
/// past those a millisecond-stamped name, so that no file is overwritten.
/// The folder is asked about each name in turn, up to the first free one;
/// `first_free_variant` picks the name from the answers.
pub fn next_variant_filename(dir: &std::path::PathBuf, stem: &str, ext: &str) -> (r: String)
    ensures
        variant_name_choice(stem@, ext@, r@),
        exists|taken: Seq<bool>, ms: nat| r@ == #[trigger] free_variant_name(stem@, ext@, taken, ms),
{
    let mut taken: Vec<bool> = Vec::new();
    let mut n: u32 = 1;
    let mut found = false;
    while n <= 99
        invariant_except_break
            !found,
            taken.len() == n - 1,
        invariant
            1 <= n <= 100,
        ensures
            found || taken.len() == 99,
        decreases 100 - n,
    {
        let candidate = variant_file_name(stem, ext, n);
        let exists = path_exists(&path_join(dir, candidate.as_str()));
        taken.push(exists);
        if !exists {
            found = true;
            break;
        }
        n += 1;
    }
    let ms: u128 = if found {
        0
    } else {
        millis_since_epoch()
    };
    let r = first_free_variant(stem, ext, &taken, ms);
    proof {
        let t = taken@;
        match first_free_from(t, 1) {
            Some(k) => {
                lemma_first_free_range(t, 1);
                assert(r@ == stem@ + variant_suffix(Some(k as u32)) + seq!['.'] + ext@);
            },
            None => {},
        }
    }
    r
}

proof fn lemma_first_free_range(taken: Seq<bool>, n: int)
    ensures
        first_free_from(taken, n) matches Some(k) ==> n <= k <= 99 && 1 <= k,
    decreases 100 - n,
{
    if n <= 99 && n >= 1 && !variant_free(taken, n) {
        lemma_first_free_range(taken, n + 1);
    }
}

// ---------------------------------------------------------------------
// Content types and downloaded bytes
// ---------------------------------------------------------------------

/// The MIME type served for a media file, by its lower-cased extension.
pub open spec fn content_type(path: Seq<char>) -> Seq<char> {
    match dump_ext(path) {
        Some(e) => if e == "png"@ {
            "image/png"@
        } else if e == "jpg"@ || e == "jpeg"@ {
            "image/jpeg"@
        } else if e == "webp"@ {
            "image/webp"@
        } else {
            "application/octet-stream"@
        },
        None => "application/octet-stream"@,
    }
}

/// The MIME type served for a media file, by its lower-cased extension.
pub fn content_type_for(path: &str) -> (r: &'static str)
    ensures
        r@ == content_type(path@),
{
    match dump_ext_chars(path) {
        Some(e) => {
            if crate::text::seq_eq(&e, &chars_of("png")) {
                "image/png"
            } else if crate::text::seq_eq(&e, &chars_of("jpg")) || crate::text::seq_eq(
                &e,
                &chars_of("jpeg"),
            ) {
                "image/jpeg"
            } else if crate::text::seq_eq(&e, &chars_of("webp")) {
                "image/webp"
            } else {
                "application/octet-stream"
            }
        },
        None => "application/octet-stream",
    }
}

pub open spec fn bytes_start_with(b: Seq<u8>, p: Seq<u8>) -> bool {
    p.len() <= b.len() && b.take(p.len() as int) == p
}

/// PNG, JPEG, GIF, WebP or BMP magic at the start of `b`.
pub open spec fn image_magic(b: Seq<u8>) -> bool {
    ||| bytes_start_with(b, seq![0x89u8, 0x50, 0x4E, 0x47, 0x0D, 0x0A, 0x1A, 0x0A])
    ||| bytes_start_with(b, seq![0xFFu8, 0xD8, 0xFF])
    ||| bytes_start_with(b, seq![0x47u8, 0x49, 0x46, 0x38, 0x37, 0x61])
    ||| bytes_start_with(b, seq![0x47u8, 0x49, 0x46, 0x38, 0x39, 0x61])
    ||| b.len() >= 12 && bytes_start_with(b, seq![0x52u8, 0x49, 0x46, 0x46]) && b.subrange(8, 12)
        == seq![0x57u8, 0x45, 0x42, 0x50]
    ||| bytes_start_with(b, seq![0x42u8, 0x4D]) && b.len() > 14
}

fn starts_with_bytes(b: &[u8], p: &[u8]) -> (r: bool)
    ensures
        r == bytes_start_with(b@, p@),
{
    if p.len() > b.len() {
        return false;
    }
    let mut i: usize = 0;
    while i < p.len()
        invariant
            i <= p.len() <= b.len(),
            forall|j: int| 0 <= j < i ==> b@[j] == p@[j],
        decreases p.len() - i,
    {
        if b[i] != p[i] {
            assert(b@.take(p.len() as int)[i as int] != p@[i as int]);
            return false;
        }
        i += 1;
    }
    assert(b@.take(p.len() as int) =~= p@);
    true
}

/// Whether `bytes` start with the magic of a PNG, JPEG, GIF, WebP or BMP
/// image.
pub fn is_image_magic(bytes: &[u8]) -> (r: bool)
    ensures
        r == image_magic(bytes@),
{
    let png: [u8; 8] = [0x89, 0x50, 0x4E, 0x47, 0x0D, 0x0A, 0x1A, 0x0A];
    let jpg: [u8; 3] = [0xFF, 0xD8, 0xFF];
    let gif7: [u8; 6] = [0x47, 0x49, 0x46, 0x38, 0x37, 0x61];
    let gif9: [u8; 6] = [0x47, 0x49, 0x46, 0x38, 0x39, 0x61];
    let riff: [u8; 4] = [0x52, 0x49, 0x46, 0x46];
    let bm: [u8; 2] = [0x42, 0x4D];
    assert(png@ =~= seq![0x89u8, 0x50, 0x4E, 0x47, 0x0D, 0x0A, 0x1A, 0x0A]);
    assert(jpg@ =~= seq![0xFFu8, 0xD8, 0xFF]);
    assert(gif7@ =~= seq![0x47u8, 0x49, 0x46, 0x38, 0x37, 0x61]);
    assert(gif9@ =~= seq![0x47u8, 0x49, 0x46, 0x38, 0x39, 0x61]);
    assert(riff@ =~= seq![0x52u8, 0x49, 0x46, 0x46]);
    assert(bm@ =~= seq![0x42u8, 0x4D]);
    if starts_with_bytes(bytes, &png) {
        return true;
    }
    if starts_with_bytes(bytes, &jpg) {
        return true;
    }
    if starts_with_bytes(bytes, &gif7) || starts_with_bytes(bytes, &gif9) {
        return true;
    }
    if bytes.len() >= 12 && starts_with_bytes(bytes, &riff) {
        let webp = bytes[8] == 0x57 && bytes[9] == 0x45 && bytes[10] == 0x42 && bytes[11] == 0x50;
        proof {
            let w = bytes@.subrange(8, 12);
            assert(w[0] == bytes@[8] && w[1] == bytes@[9] && w[2] == bytes@[10] && w[3] == bytes@[11]);
            if webp {
                assert(w =~= seq![0x57u8, 0x45, 0x42, 0x50]);
            }
        }
        if webp {
            return true;
        }
    }
    if starts_with_bytes(bytes, &bm) && bytes.len() > 14 {
        return true;
    }
    false
}

/// A printable ASCII byte or a space.
pub open spec fn printable(b: u8) -> bool {
    0x20 <= b <= 0x7E
}

/// Whether downloaded bytes read as a git symlink to a file in the same
/// directory: 1 to 512 bytes, all printable ASCII or spaces, not all
/// spaces, with no `/`, no `\` and no `..` in them.
pub open spec fn same_dir_symlink_target(b: Seq<u8>) -> bool {
    &&& 0 < b.len() <= 512
    &&& forall|i: int| 0 <= i < b.len() ==> printable(#[trigger] b[i])
    &&& exists|i: int| 0 <= i < b.len() && #[trigger] b[i] != 0x20
    &&& forall|i: int| 0 <= i < b.len() ==> #[trigger] b[i] != 0x2F && b[i] != 0x5C
    &&& forall|i: int| 0 <= i < b.len() - 1 ==> !(#[trigger] b[i] == 0x2E && b[i + 1] == 0x2E)
}

/// Whether downloaded bytes read as a git symlink to a file in the same
/// directory (see `same_dir_symlink_target`).
pub fn looks_like_same_dir_symlink_target(bytes: &[u8]) -> (r: bool)
    ensures
        r == same_dir_symlink_target(bytes@),
{
    if bytes.len() == 0 || bytes.len() > 512 {
        return false;
    }
    let mut i: usize = 0;
    let mut non_space = false;
    while i < bytes.len()
        invariant
            0 < bytes.len() <= 512,
            i <= bytes.len(),
            forall|j: int| 0 <= j < i ==> printable(#[trigger] bytes@[j]),
            forall|j: int| 0 <= j < i ==> #[trigger] bytes@[j] != 0x2F && bytes@[j] != 0x5C,
            forall|j: int| 0 <= j < i && j + 1 < i ==> !(#[trigger] bytes@[j] == 0x2E && bytes@[j + 1] == 0x2E),
            non_space <==> exists|j: int| 0 <= j < i && #[trigger] bytes@[j] != 0x20,
        decreases bytes.len() - i,
    {
        let b = bytes[i];
        if !(0x20 <= b && b <= 0x7E) || b == 0x2F || b == 0x5C {
            return false;
        }
        if b == 0x2E && i > 0 && bytes[i - 1] == 0x2E {
            assert(bytes@[i - 1] == 0x2E && bytes@[(i - 1) + 1] == 0x2E);
            return false;
        }
        if b != 0x20 {
            non_space = true;
        }
        i += 1;
    }
    non_space
}

// ---------------------------------------------------------------------
// Synced variants and sync kinds
// ---------------------------------------------------------------------

/// Index of the first thumbnails variant with path `path`, or `vs.len()`.
pub open spec fn synced_index(vs: Seq<MediaVariant>, path: Seq<char>) -> nat
    decreases vs.len(),
{
    if vs.len() == 0 {
        0
    } else if vs[0].path@ == path && vs[0].source == MediaSource::LibretroThumbnails {
        0
    } else {
        1 + synced_index(vs.drop_first(), path)
    }
}

/// A slot's variants once a synced variant is recorded: it replaces the
/// first thumbnails variant with the same path, else it is appended.
pub open spec fn with_synced(vs: Seq<MediaVariant>, v: MediaVariant) -> Seq<MediaVariant> {
    let i = synced_index(vs, v.path@);
    if i < vs.len() {
        vs.update(i as int, v)
    } else {
        vs.push(v)
    }
}

proof fn lemma_synced_index_at(vs: Seq<MediaVariant>, path: Seq<char>, i: int)
    requires
        0 <= i <= vs.len(),
        forall|j: int|
            0 <= j < i ==> !(#[trigger] vs[j].path@ == path && vs[j].source
                == MediaSource::LibretroThumbnails),
        i == vs.len() || (vs[i].path@ == path && vs[i].source == MediaSource::LibretroThumbnails),
    ensures
        synced_index(vs, path) == i,
    decreases i,
{
    if i > 0 {
        let t = vs.drop_first();
        assert forall|j: int| 0 <= j < i - 1 implies !(#[trigger] t[j].path@ == path && t[j].source
            == MediaSource::LibretroThumbnails) by {
            assert(t[j] == vs[j + 1]);
        }
        if i < vs.len() {
            assert(t[i - 1] == vs[i]);
        }
        lemma_synced_index_at(t, path, i - 1);
    }
}

/// Record a libretro-thumbnails variant in a game's slot for `kind`: it
/// replaces the thumbnails variant with the same path in place, or is
/// appended. Manual variants are never touched; other slots neither.
pub fn apply_synced_variant(gm: &mut GameMedia, kind: MediaKind, variant: MediaVariant)
    ensures
        *final(gm) == with_slot(*old(gm), kind, slot(*final(gm), kind)),
        slot(*final(gm), kind)@ == with_synced(slot(*old(gm), kind)@, variant),
{
    let variants = kind.variants_mut(gm);
    let ghost vs = variants@;
    let mut i: usize = 0;
    while i < variants.len()
        invariant
            i <= variants.len(),
            variants@ == vs,
            forall|j: int|
                0 <= j < i ==> !(#[trigger] vs[j].path@ == variant.path@ && vs[j].source
                    == MediaSource::LibretroThumbnails),
        ensures
            i < variants.len() ==> (vs[i as int].path@ == variant.path@ && vs[i as int].source
                == MediaSource::LibretroThumbnails),
        decreases variants.len() - i,
    {
        if variants[i].path == variant.path && variants[i].source == MediaSource::LibretroThumbnails {
            break;
        }
        i += 1;
    }
    proof {
        lemma_synced_index_at(vs, variant.path@, i as int);
    }
    if i < variants.len() {
        variants.set(i, variant);
    } else {
        variants.push(variant);
    }
}

/// The kinds named in `ns` that the thumbnails repositories carry, in
/// order.
pub open spec fn fetchable_kinds(ns: Seq<Seq<char>>) -> Seq<MediaKind>
    decreases ns.len(),
{
    if ns.len() == 0 {
        Seq::empty()
    } else {
        let before = fetchable_kinds(ns.drop_last());
        match kind_of_name(ns.last()) {
            Some(k) => if thumbnails_subdir(k) is Some {
                before.push(k)
            } else {
                before
            },
            None => before,
        }
    }
}

/// The kinds a sync fetches for the preference `kinds_to_fetch`: those it
/// names that the repositories carry, or the three carried kinds when it
/// names none.
pub open spec fn sync_kinds(ns: Seq<Seq<char>>) -> Seq<MediaKind> {
    if fetchable_kinds(ns).len() == 0 {
        seq![MediaKind::BoxFront, MediaKind::ScreenshotGameplay, MediaKind::ScreenshotTitle]
    } else {
        fetchable_kinds(ns)
    }
}

/// The kinds a sync fetches for the preference `kinds_to_fetch`.
pub fn enabled_sync_kinds(kinds_to_fetch: &[String]) -> (r: Vec<MediaKind>)
    ensures
        r@ == sync_kinds(names(kinds_to_fetch@)),
{
    let ghost ns = names(kinds_to_fetch@);
    let mut kinds: Vec<MediaKind> = Vec::new();
    let mut i: usize = 0;
    assert(ns.take(0) =~= Seq::<Seq<char>>::empty());
    while i < kinds_to_fetch.len()
        invariant
            i <= kinds_to_fetch.len(),
            ns == names(kinds_to_fetch@),
            kinds@ == fetchable_kinds(ns.take(i as int)),
        decreases kinds_to_fetch.len() - i,
    {
        assert(ns.take(i + 1).drop_last() =~= ns.take(i as int));
        assert(ns.take(i + 1).last() == kinds_to_fetch@[i as int]@);
        match MediaKind::parse(kinds_to_fetch[i].as_str()) {
            Some(k) => {
                if k.libretro_thumbnails_subdir().is_some() {
                    kinds.push(k);
                }
            },
            None => {},
        }
        i += 1;
    }
    assert(ns.take(kinds_to_fetch.len() as int) =~= ns);
    if kinds.len() == 0 {
        vec![MediaKind::BoxFront, MediaKind::ScreenshotGameplay, MediaKind::ScreenshotTitle]
    } else {
        kinds
    }
}

/// The names in `ns` that name a media kind, in order.
pub open spec fn kind_names_in(ns: Seq<Seq<char>>) -> Seq<Seq<char>>
    decreases ns.len(),
{
    if ns.len() == 0 {
        Seq::empty()
    } else if kind_of_name(ns.last()) is Some {
        kind_names_in(ns.drop_last()).push(ns.last())
    } else {
        kind_names_in(ns.drop_last())
    }
}

/// The kinds-to-fetch preference as stored: the names in `kinds` that name
/// a media kind, in order; unknown names are dropped.
pub fn known_kind_names(kinds: &[String]) -> (r: Vec<String>)
    ensures
        names(r@) == kind_names_in(names(kinds@)),
{
    let ghost ns = names(kinds@);
    let mut out: Vec<String> = Vec::new();
    let mut i: usize = 0;
    while i < kinds.len()
        invariant
            i <= kinds.len(),
            ns == names(kinds@),
            names(out@) == kind_names_in(ns.take(i as int)),
        decreases kinds.len() - i,
    {
        assert(ns.take(i + 1).drop_last() =~= ns.take(i as int));
        assert(ns.take(i + 1).last() == kinds@[i as int]@);
        if MediaKind::parse(kinds[i].as_str()).is_some() {
            let name = kinds[i].clone();
            let ghost before = out@;
            out.push(name);
            assert(names(out@) =~= names(before).push(kinds@[i as int]@));
        }
        i += 1;
    }
    assert(ns.take(kinds.len() as int) =~= ns);
    out
}

/// The pin of kind `k` a game has: none without a pin record.
pub open spec fn game_pin(gm: GameMedia, k: MediaKind) -> Option<usize> {
    match gm.selected {
        Some(s) => pin_of(s, k),
        None => None,
    }
}

/// Pin variant `index` as the default of `kind`. A game without a pin
/// record gets one with no other pin; nothing else changes.
pub fn pin_variant(gm: &mut GameMedia, kind: MediaKind, index: usize)
    ensures
        final(gm).selected is Some,
        game_pin(*final(gm), kind) == Some(index),
        forall|k: MediaKind| k != kind ==> #[trigger] game_pin(*final(gm), k) == game_pin(*old(gm), k),
        *final(gm) == (GameMedia { selected: final(gm).selected, ..*old(gm) }),
{
    match &mut gm.selected {
        Some(sel) => {
            let ghost s0 = *sel;
            sel.set_for_kind(kind, Some(index));
            assert forall|k: MediaKind| k != kind implies #[trigger] pin_of(*sel, k) == pin_of(s0, k) by {
                law_pin_set_then_get(s0, kind, Some(index), k);
            }
        },
        None => {
            let mut sel = SelectedMedia::default();
            let ghost d = sel;
            sel.set_for_kind(kind, Some(index));
            assert forall|k: MediaKind| k != kind implies #[trigger] pin_of(sel, k) is None by {
                law_pin_set_then_get(d, kind, Some(index), k);
            }
            gm.selected = Some(sel);
        },
    }
}

// ---------------------------------------------------------------------
// `oa-media://` requests
// ---------------------------------------------------------------------

/// The image size a media request asks for.
#[derive(Clone, Copy, Debug, PartialEq, Eq, Structural)]
pub enum MediaSize {
    Thumb,
    Full,
}

/// A parsed `oa-media://localhost/<systemId>/<romId>/<kind>/<size>.<ext>`
/// request.
#[derive(Clone, Debug)]
pub struct MediaRequest {
    pub rom_id: String,
    pub kind: MediaKind,
    pub size: MediaSize,
    /// The `i=<N>` query value, when one parses.
    pub explicit_index: Option<usize>,
}

/// `s` without leading `/` characters.
pub open spec fn strip_slashes(s: Seq<char>) -> Seq<char>
    decreases s.len(),
{
    if s.len() > 0 && s[0] == '/' {
        strip_slashes(s.drop_first())
    } else {
        s
    }
}

/// The first `&`-separated query part that reads `i=<usize>`, as that
/// number.
pub open spec fn query_index(parts: Seq<Seq<char>>) -> Option<usize>
    decreases parts.len(),
{
    if parts.len() == 0 {
        None
    } else if crate::text::starts_with(parts[0], "i="@) && crate::numbers::parsed_usize(
        parts[0].skip(2),
    ) is Some {
        crate::numbers::parsed_usize(parts[0].skip(2))
    } else {
        query_index(parts.drop_first())
    }
}

pub const BAD_PATH: &'static str = "expected oa-media://localhost/<systemId>/<romId>/<kind>/<size>.<ext>";

pub const UNKNOWN_KIND: &'static str = "unknown kind";

pub const BAD_SIZE: &'static str = "size must be thumb or full";

/// What a request path and query ask for: the rom id, kind and size from
/// the path's segments (after leading slashes), and the query's index; or
/// the reason the request is refused.
pub open spec fn media_request(path: Seq<char>, query: Option<Seq<char>>) -> Result<(Seq<char>, MediaKind, MediaSize, Option<usize>), Seq<char>> {
    let segs = crate::text::split_on(strip_slashes(path), '/');
    if segs.len() < 4 {
        Err(BAD_PATH@)
    } else {
        match kind_of_name(segs[2]) {
            None => Err(UNKNOWN_KIND@),
            Some(k) => {
                let sz = crate::text::split_on(segs[3], '.')[0];
                if sz == "thumb"@ || sz == "full"@ {
                    Ok(
                        (
                            segs[1],
                            k,
                            if sz == "thumb"@ {
                                MediaSize::Thumb
                            } else {
                                MediaSize::Full
                            },
                            match query {
                                Some(q) => query_index(crate::text::split_on(q, '&')),
                                None => None,
                            },
                        ),
                    )
                } else {
                    Err(BAD_SIZE@)
                }
            },
        }
    }
}

proof fn lemma_split_nonempty(s: Seq<char>, c: char)
    ensures
        crate::text::split_on(s, c).len() >= 1,
    decreases s.len(),
{
    let i = crate::text::index_of(s, c);
    crate::text::lemma_index_of_bound(s, c);
    if i < s.len() {
        lemma_split_nonempty(s.skip(i + 1int), c);
    }
}

fn query_index_of(parts: &Vec<Vec<char>>) -> (r: Option<usize>)
    ensures
        r == query_index(views(parts@)),
{
    let ghost ps = views(parts@);
    let mut i: usize = 0;
    assert(ps.skip(0) =~= ps);
    let prefix = chars_of("i=");
    while i < parts.len()
        invariant
            i <= parts.len(),
            ps == views(parts@),
            prefix@ == "i="@,
            query_index(ps) == query_index(ps.skip(i as int)),
        decreases parts.len() - i,
    {
        proof {
            assert(ps.skip(i as int)[0] == parts@[i as int]@);
            assert(ps.skip(i as int).drop_first() =~= ps.skip(i + 1));
            reveal_strlit("i=");
        }
        if crate::text::has_prefix(&parts[i], &prefix) {
            let rest = crate::text::slice_to_vec(&parts[i], 2, parts[i].len());
            assert(rest@ =~= parts@[i as int]@.skip(2));
            let v = crate::numbers::parse_usize_chars(&rest);
            if v.is_some() {
                return v;
            }
        }
        i += 1;
    }
    None
}

/// Parse the path and query of an `oa-media://` request; `Err` holds the
/// reason a bad request is refused.
pub fn parse_media_request(path: &str, query: Option<&str>) -> (r: Result<MediaRequest, &'static str>)
    ensures
        match media_request(path@, match query {
            Some(q) => Some(q@),
            None => None,
        }) {
            Ok((rom, k, sz, idx)) => r matches Ok(m) && m.rom_id@ == rom && m.kind == k && m.size
                == sz && m.explicit_index == idx,
            Err(e) => r matches Err(x) && x@ == e,
        },
{
    let cs = chars_of(path);
    let mut a: usize = 0;
    assert(cs@.skip(0) =~= cs@);
    while a < cs.len() && cs[a] == '/'
        invariant
            a <= cs.len(),
            cs@ == path@,
            strip_slashes(cs@) == strip_slashes(cs@.skip(a as int)),
        decreases cs.len() - a,
    {
        assert(cs@.skip(a as int).drop_first() =~= cs@.skip(a + 1));
        a += 1;
    }
    let trimmed = crate::text::slice_to_vec(&cs, a, cs.len());
    assert(trimmed@ =~= cs@.skip(a as int));
    let segs = crate::text::split_chars(&trimmed, '/');
    if segs.len() < 4 {
        return Err(BAD_PATH);
    }
    assert(views(segs@)[2] == segs@[2]@);
    let kind = match MediaKind::parse(string_of(&segs[2]).as_str()) {
        None => {
            return Err(UNKNOWN_KIND);
        },
        Some(k) => k,
    };
    let pieces = crate::text::split_chars(&segs[3], '.');
    proof {
        lemma_split_nonempty(segs@[3]@, '.');
        assert(views(segs@)[3] == segs@[3]@);
        assert(views(pieces@)[0] == pieces@[0]@);
    }
    let size = if crate::text::seq_eq(&pieces[0], &chars_of("thumb")) {
        MediaSize::Thumb
    } else if crate::text::seq_eq(&pieces[0], &chars_of("full")) {
        MediaSize::Full
    } else {
        return Err(BAD_SIZE);
    };
    let explicit_index = match query {
        Some(q) => query_index_of(&crate::text::split_chars(&chars_of(q), '&')),
        None => None,
    };
    assert(views(segs@)[1] == segs@[1]@);
    Ok(MediaRequest { rom_id: string_of(&segs[1]), kind, size, explicit_index })
}

/// The variant a request serves: the explicit index when in range (none
/// when out of range), else the default variant of the kind.
pub open spec fn requested_variant(gm: GameMedia, k: MediaKind, explicit: Option<usize>, prio: Seq<Seq<char>>) -> Option<int> {
    match explicit {
        Some(i) => if i < slot(gm, k)@.len() {
            Some(i as int)
        } else {
            None
        },
        None => active_index(slot(gm, k)@, match gm.selected {
            Some(s) => pin_of(s, k),
            None => None,
        }, prio),
    }
}

/// The variant a request serves.
pub fn choose_variant(gm: &GameMedia, kind: MediaKind, explicit_index: Option<usize>, region_priority: &[String]) -> (r: Option<usize>)
    ensures
        match requested_variant(*gm, kind, explicit_index, names(region_priority@)) {
            Some(i) => r == Some(i as usize) && i < slot(*gm, kind)@.len(),
            None => r is None,
        },
{
    let variants = kind.variants(gm);
    match explicit_index {
        Some(i) => {
            if i < variants.len() {
                Some(i)
            } else {
                None
            }
        },
        None => {
            let pinned = kind.pinned_index(gm.selected.as_ref());
            proof {
                lemma_by_region_priority_bound(variants@, names(region_priority@));
            }
            resolve_active_index(variants, pinned, region_priority)
        },
    }
}

/// The file a request serves for a variant: the thumbnail when one is
/// asked for and exists, else the full image.
pub fn served_file(v: &MediaVariant, size: MediaSize) -> (r: &String)
    ensures
        *r == match (size, v.thumb_path) {
            (MediaSize::Thumb, Some(t)) => t,
            _ => v.path,
        },
{
    match size {
        MediaSize::Thumb => match &v.thumb_path {
            Some(t) => t,
            None => &v.path,
        },
        MediaSize::Full => &v.path,
    }
}

} // verus!
