//! Per-system descriptor types: the schema of `config/systems/<id>/`
//! (`system.yaml`, `bios.yaml`, `games.yaml`).
//!
//! The YAML text itself is decoded outside the library; these are the
//! values the registry validates and serves.
use vstd::prelude::*;

verus! {

/// Schema version embedded in every top-level file. Consumers should reject
/// a newer version rather than render possibly-malformed data.
pub const CURRENT_SCHEMA_VERSION: u32 = 1;

/// The version assumed when a file does not state one.
pub fn default_schema_version() -> (r: u32)
    ensures
        r == CURRENT_SCHEMA_VERSION,
{
    CURRENT_SCHEMA_VERSION
}

/// The value of a flag that defaults to on.
pub fn default_true() -> (r: bool)
    ensures
        r,
{
    true
}

/// One system's descriptor (`system.yaml`).
#[derive(Clone, Debug, PartialEq)]
pub struct SystemDescriptor {
    /// System slug; must equal the name of the folder that holds the file.
    pub id: String,
    /// Operator-facing name ("Game Boy").
    pub display_name: String,
    /// Short form ("GB"); `display_name` stands in when absent.
    pub short_name: Option<String>,
    /// File-level schema version.
    pub schema_version: u32,
    /// Default libretro core file name.
    pub default_core: Option<String>,
    /// Default shader preset slug.
    pub default_shader_preset: Option<String>,
    /// ROM file extensions (lowercase, no dot); empty for engine launchers.
    pub extensions: Vec<String>,
    /// libretro-database `.dat` references.
    pub libretro_dat_refs: Vec<LibretroDatRef>,
    /// Cores compatible with the system.
    pub cores: Vec<CoreEntryDescriptor>,
    /// Embedded System Info Panel block.
    pub system_info: Option<SystemInfoCurated>,
}

/// One libretro-database `.dat` reference: folder and basename.
#[derive(Clone, Debug, PartialEq, Eq)]
pub struct LibretroDatRef {
    pub subdir: String,
    pub basename: String,
}

/// One core installer catalog entry.
#[derive(Clone, Debug, PartialEq)]
pub struct CoreEntryDescriptor {
    pub base: String,
    pub display_name: String,
    pub blurb: String,
    pub recommended: bool,
    pub bios_required: Option<String>,
}

/// The hand-authored System Info Panel block nested under `system_info:`.
/// `system_id` repeats the descriptor's id and is checked against it.
#[derive(Clone, Debug, PartialEq)]
pub struct SystemInfoCurated {
    pub system_id: String,
    pub manufacturer: Option<String>,
    pub system_type: Option<String>,
    pub blurb: Option<String>,
}

/// One system's BIOS inventory (`bios.yaml`).
#[derive(Clone, Debug, PartialEq, Eq)]
pub struct BiosDescriptor {
    pub schema_version: u32,
    pub semantics: BiosSemanticsYaml,
    /// Whether a missing BIOS blocks launch.
    pub required_for_launch: bool,
    pub files: Vec<BiosFileEntry>,
    pub sourcing_hint: Option<String>,
}

/// How the per-file inventory becomes one readiness verdict.
#[derive(Clone, Copy, Debug, PartialEq, Eq)]
pub enum BiosSemanticsYaml {
    /// Any one canonical-hash match satisfies the system.
    AnyOf,
    /// Every entry must be present and canonical.
    AllRequired,
}

/// One canonical BIOS file.
#[derive(Clone, Debug, PartialEq, Eq)]
pub struct BiosFileEntry {
    /// File name expected under `<exe_dir>/system/`.
    pub name: String,
    /// Canonical SHA-1, uppercase hex.
    pub sha1: String,
    pub description: String,
    /// Satisfied even when missing on disk.
    pub optional: bool,
}

/// The key a curated game record is found by.
#[derive(Clone, Debug, PartialEq)]
pub struct GameIdKey {
    pub system_id: String,
    pub rom_title: Option<String>,
    pub rom_hash: Option<String>,
}

/// One curated game record.
#[derive(Clone, Debug, PartialEq)]
pub struct GameInfo {
    pub id_key: GameIdKey,
    pub date: Option<u32>,
}

/// One system's curated game records (`games.yaml`).
#[derive(Clone, Debug, PartialEq)]
pub struct GamesDescriptor {
    pub schema_version: u32,
    pub games: Vec<GameInfo>,
}

} // verus!
