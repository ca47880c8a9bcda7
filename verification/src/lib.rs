//! Verified core of the Overlooked Arcade shell: ROM patching, header-aware
//! hashing, title normalization, media taxonomy and the small parsers the
//! shell feeds with catalog and CLI text.
pub mod text;
pub mod numbers;
pub mod patch;
pub mod rom_header;
pub mod title_clean;
pub mod normalize;
pub mod scummvm_cli;
pub mod media;
pub mod metadata;
pub mod platform_media;
pub mod packs;
pub mod scummvm_detect;
pub mod system_settings;
pub mod rom_hashes;
pub mod scan_service;
pub mod system_ui_assets;
pub mod system_descriptor;
pub mod system_registry;
pub mod shader_presets;
pub mod theme_loader;
pub mod rom_resolve;
