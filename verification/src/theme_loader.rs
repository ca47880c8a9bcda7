//! On-disk themes: the token and palette layers a theme folder may carry
//! beside its `theme.toml`, and the rule that drops a layer which
//! overrides nothing.
//!
//! Walking `themes/<leaf>/` and decoding the TOML files is the caller's
//! part.
use vstd::prelude::*;
use std::collections::BTreeMap;

verus! {

/// Theme manifest file name inside a theme folder.
pub const THEME_MANIFEST: &'static str = "theme.toml";

/// Optional token-override file name.
pub const TOKENS_FILE: &'static str = "tokens.toml";

/// Optional per-system palette file name.
pub const PER_SYSTEM_FILE: &'static str = "per-system.toml";

/// A theme's opt-in to per-system tiles and sounds.
#[derive(Clone, Debug, PartialEq)]
pub struct PerSystemUiFlags {
    pub tiles: Option<bool>,
    pub sfx: Option<bool>,
}

/// A `views` entry: a default layout and per-system overrides.
#[derive(Clone, Debug, PartialEq)]
pub struct ViewLayoutConfig {
    pub layout: Option<String>,
    pub per_system: Option<BTreeMap<String, String>>,
}

/// One `{ value, label }` choice of a `select` setting.
#[derive(Clone, Debug, PartialEq)]
pub struct SelectOption {
    pub value: String,
    pub label: String,
}

/// Design-token overrides (`tokens.toml`); each unset token inherits.
#[derive(Clone, Debug, Default, PartialEq)]
pub struct DiskThemeTokens {
    pub bg: Option<String>,
    pub bg_deep: Option<String>,
    pub ink: Option<String>,
    pub ink_dim: Option<String>,
    pub accent: Option<String>,
    pub accent_soft: Option<String>,
    pub accent_glow: Option<String>,
    pub focus_ring: Option<String>,
    pub font_display: Option<String>,
    pub tile_radius: Option<String>,
    pub grid_gap: Option<String>,
    pub section_spacing: Option<String>,
}

impl DiskThemeTokens {
    /// No token is overridden.
    pub open spec fn overrides_nothing(self) -> bool {
        &&& self.bg is None
        &&& self.bg_deep is None
        &&& self.ink is None
        &&& self.ink_dim is None
        &&& self.accent is None
        &&& self.accent_soft is None
        &&& self.accent_glow is None
        &&& self.focus_ring is None
        &&& self.font_display is None
        &&& self.tile_radius is None
        &&& self.grid_gap is None
        &&& self.section_spacing is None
    }

    /// Whether no token is overridden.
    pub fn is_empty(&self) -> (r: bool)
        ensures
            r == self.overrides_nothing(),
    {
        self.bg.is_none() && self.bg_deep.is_none() && self.ink.is_none() && self.ink_dim.is_none()
            && self.accent.is_none() && self.accent_soft.is_none() && self.accent_glow.is_none()
            && self.focus_ring.is_none() && self.font_display.is_none() && self.tile_radius.is_none()
            && self.grid_gap.is_none() && self.section_spacing.is_none()
    }
}

/// One system's accent palette overrides.
#[derive(Clone, Debug, Default, PartialEq)]
pub struct SystemPalettePartial {
    pub accent: Option<String>,
    pub soft: Option<String>,
    pub glow: Option<String>,
}

/// The optional `per-system.toml`: palette overrides keyed by system id.
#[derive(Clone, Debug, Default, PartialEq)]
pub struct DiskPerSystem {
    pub per_system_tokens: BTreeMap<String, SystemPalettePartial>,
}

/// The token layer a theme keeps from its decoded `tokens.toml`: none when
/// the file is absent, did not decode, or overrides nothing.
pub fn tokens_layer(parsed: Option<DiskThemeTokens>) -> (r: Option<DiskThemeTokens>)
    ensures
        r == match parsed {
            Some(t) => if t.overrides_nothing() { None } else { Some(t) },
            None => None,
        },
{
    match parsed {
        Some(t) => {
            if t.is_empty() {
                None
            } else {
                Some(t)
            }
        },
        None => None,
    }
}

/// The palette layer a theme keeps from its decoded `per-system.toml`:
/// none when the file is absent, did not decode, or maps no system.
pub fn per_system_layer(parsed: Option<DiskPerSystem>) -> (r: Option<BTreeMap<String, SystemPalettePartial>>)
    ensures
        r == match parsed {
            Some(p) => if p.per_system_tokens@.is_empty() { None } else { Some(p.per_system_tokens) },
            None => None,
        },
{
    match parsed {
        Some(p) => {
            if p.per_system_tokens.is_empty() {
                None
            } else {
                Some(p.per_system_tokens)
            }
        },
        None => None,
    }
}

} // verus!
