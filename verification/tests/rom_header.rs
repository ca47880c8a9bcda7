use oa_shell::rom_header::{byte_swap, candidate_sha1s, header_rules_for, ByteSwapKind, HeaderRule};
use sha1::{Digest, Sha1};


#[test]
fn unknown_system_only_produces_raw() {
    let bytes = vec![0u8; 4096];
    let candidates = candidate_sha1s(&bytes, "wonderswan");
    assert_eq!(candidates.len(), 1);
    assert_eq!(candidates[0].rule, HeaderRule::Raw);
}

#[test]
fn ines_headered_nes_rom_produces_raw_and_stripped() {
    let mut bytes = Vec::new();
    bytes.extend_from_slice(b"NES\x1a"); // iNES magic
    bytes.extend_from_slice(&[0u8; 12]); // remainder of 16-byte header
    bytes.extend_from_slice(&[0x42u8; 16 * 1024]); // fake PRG
    let candidates = candidate_sha1s(&bytes, "nes");
    assert_eq!(candidates.len(), 2, "expected raw + iNES-stripped");
    assert_eq!(candidates[0].rule, HeaderRule::Raw);
    assert!(matches!(
        candidates[1].rule,
        HeaderRule::SkipMagic { skip: 16, .. }
    ));
    assert_ne!(candidates[0].sha1, candidates[1].sha1);
}

#[test]
fn unheadered_nes_rom_produces_one_candidate() {
    // No iNES magic at offset 0 → SkipMagic is dropped; only Raw remains.
    let bytes = vec![0x42u8; 16 * 1024];
    let candidates = candidate_sha1s(&bytes, "nes");
    assert_eq!(candidates.len(), 1);
    assert_eq!(candidates[0].rule, HeaderRule::Raw);
}

#[test]
fn smc_headered_snes_rom_detected_by_size_modulo() {
    // 512-byte SMC header + 1 MB ROM → size % 1024 == 512.
    let bytes = vec![0u8; 512 + 1024 * 1024];
    let candidates = candidate_sha1s(&bytes, "snes");
    assert_eq!(candidates.len(), 2);
    assert_eq!(candidates[0].rule, HeaderRule::Raw);
    assert!(matches!(
        candidates[1].rule,
        HeaderRule::SkipModulo { skip: 512, modulus: 1024 }
    ));
}

#[test]
fn unheadered_snes_rom_skipmodulo_drops() {
    // Pure 1 MB ROM, no SMC header → size % 1024 == 0, not 512.
    let bytes = vec![0u8; 1024 * 1024];
    let candidates = candidate_sha1s(&bytes, "snes");
    assert_eq!(candidates.len(), 1);
    assert_eq!(candidates[0].rule, HeaderRule::Raw);
}

#[test]
fn a78_headered_atari7800_rom_produces_two_candidates() {
    // A78 header: byte 0 = version, bytes 1..10 = "ATARI7800", then
    // padding up to 128 bytes total.
    let mut bytes = vec![0u8; 128];
    bytes[0] = 1;
    bytes[1..10].copy_from_slice(b"ATARI7800");
    bytes.extend_from_slice(&[0x42u8; 48 * 1024]); // fake cart body
    let candidates = candidate_sha1s(&bytes, "atari7800");
    assert_eq!(candidates.len(), 2);
    assert!(matches!(
        candidates[1].rule,
        HeaderRule::SkipMagic { skip: 128, magic_offset: 1, .. }
    ));
}

#[test]
fn lynx_headered_lnx_rom_produces_two_candidates() {
    let mut bytes = Vec::new();
    bytes.extend_from_slice(b"LYNX");      // LNX magic
    bytes.extend_from_slice(&[0u8; 60]);    // remainder of 64-byte header
    bytes.extend_from_slice(&[0x77u8; 256 * 1024]);
    let candidates = candidate_sha1s(&bytes, "lynx");
    assert_eq!(candidates.len(), 2);
    assert!(matches!(
        candidates[1].rule,
        HeaderRule::SkipMagic { skip: 64, .. }
    ));
}

#[test]
fn truncated_file_below_skip_doesnt_panic() {
    // File too small to apply the strip — must drop the variant
    // rather than panic on slicing.
    let bytes = b"NES\x1a".to_vec(); // exactly 4 bytes, < 16
    let candidates = candidate_sha1s(&bytes, "nes");
    assert_eq!(candidates.len(), 1);
    assert_eq!(candidates[0].rule, HeaderRule::Raw);
}

#[test]
fn raw_candidate_sha1_matches_direct_sha1() {
    // The Raw candidate must produce the same sha1 the existing
    // sha1_of_rom would produce on the bytes — otherwise we'd break
    // every already-stamped row in the DB.
    let bytes = b"abc"; // sha1 = a9993e364706816aba3e25717850c26c9cd0d89d
    let candidates = candidate_sha1s(bytes, "wonderswan");
    assert_eq!(candidates[0].sha1, "a9993e364706816aba3e25717850c26c9cd0d89d");
}

/// Canonical N64 .z64 ROM (Big-Endian magic 80 37 12 40) — should
/// produce only the Raw candidate. Neither v64 nor n64 swap rule
/// fires because the file's magic doesn't match the swapped
/// patterns.
#[test]
fn n64_z64_rom_produces_only_raw_candidate() {
    let mut bytes = vec![0x80, 0x37, 0x12, 0x40]; // .z64 magic
    bytes.extend_from_slice(&[0x42u8; 1024 * 1024]);
    let candidates = candidate_sha1s(&bytes, "n64");
    assert_eq!(candidates.len(), 1, "expected only Raw — file is canonical .z64");
    assert_eq!(candidates[0].rule, HeaderRule::Raw);
}

/// N64 .v64 ROM (pair-swapped magic 37 80 40 12) — should produce
/// Raw + Pairs16 candidates. The Pairs16 candidate's hash should
/// match what you'd get from hashing the BE-normalized form
/// directly.
#[test]
fn n64_v64_rom_produces_raw_plus_pairs16_candidate() {
    // Synthesize a .z64 ROM, then permute each pair to produce the
    // matching .v64 form. Hashing the .v64 ROM with the Pairs16
    // candidate should equal hashing the original .z64 buffer.
    let mut z64 = vec![0x80, 0x37, 0x12, 0x40];
    z64.extend_from_slice(&[0xAA, 0xBB, 0xCC, 0xDD, 0x11, 0x22, 0x33, 0x44]);
    z64.extend_from_slice(&[0u8; 1024 * 1024 - 12]);

    let mut v64 = z64.clone();
    for chunk in v64.chunks_exact_mut(2) {
        chunk.swap(0, 1);
    }
    // Sanity-check the .v64 magic is now the pair-swapped form.
    assert_eq!(&v64[..4], &[0x37, 0x80, 0x40, 0x12]);

    let candidates = candidate_sha1s(&v64, "n64");
    assert_eq!(candidates.len(), 2, "expected Raw + Pairs16 byte-swap");
    assert_eq!(candidates[0].rule, HeaderRule::Raw);
    assert!(matches!(
        candidates[1].rule,
        HeaderRule::ByteSwap { swap: ByteSwapKind::Pairs16, .. }
    ));

    // The byte-swap candidate's hash should match a fresh hash of
    // the original .z64 buffer (round-trip correctness).
    let mut h = Sha1::new();
    h.update(&z64);
    let z64_sha1 = format!("{:x}", h.finalize());
    assert_eq!(
        candidates[1].sha1, z64_sha1,
        "v64 → Pairs16 hash should equal hashing the canonical .z64 form"
    );
}

/// N64 .n64 ROM (word-swapped magic 40 12 37 80) — should produce
/// Raw + Words32 candidates. The Words32 candidate's hash should
/// match the BE-normalized form.
#[test]
fn n64_n64_rom_produces_raw_plus_words32_candidate() {
    let mut z64 = vec![0x80, 0x37, 0x12, 0x40];
    z64.extend_from_slice(&[0xAA, 0xBB, 0xCC, 0xDD, 0x11, 0x22, 0x33, 0x44]);
    z64.extend_from_slice(&[0u8; 1024 * 1024 - 12]);

    let mut n64 = z64.clone();
    for chunk in n64.chunks_exact_mut(4) {
        chunk.swap(0, 3);
        chunk.swap(1, 2);
    }
    // Sanity-check the .n64 magic is now the word-swapped form.
    assert_eq!(&n64[..4], &[0x40, 0x12, 0x37, 0x80]);

    let candidates = candidate_sha1s(&n64, "n64");
    assert_eq!(candidates.len(), 2, "expected Raw + Words32 byte-swap");
    assert_eq!(candidates[0].rule, HeaderRule::Raw);
    assert!(matches!(
        candidates[1].rule,
        HeaderRule::ByteSwap { swap: ByteSwapKind::Words32, .. }
    ));

    let mut h = Sha1::new();
    h.update(&z64);
    let z64_sha1 = format!("{:x}", h.finalize());
    assert_eq!(
        candidates[1].sha1, z64_sha1,
        "n64 → Words32 hash should equal hashing the canonical .z64 form"
    );
}

/// Truncated N64 file (smaller than the 4-byte magic) must not
/// panic — drops both byte-swap rules cleanly.
#[test]
fn n64_truncated_file_below_magic_doesnt_panic() {
    let bytes = vec![0x37u8]; // 1 byte, below the 4-byte magic
    let candidates = candidate_sha1s(&bytes, "n64");
    // Raw still produces a candidate; both ByteSwap rules drop.
    assert_eq!(candidates.len(), 1);
    assert_eq!(candidates[0].rule, HeaderRule::Raw);
}

/// N64 rule set must not fire byte-swap rules against a non-N64
/// header (rare in practice — system-id mismatch would already be
/// a bug — but defensive against accidental misclassification).
#[test]
fn n64_rule_set_skips_byte_swap_for_unrelated_magic() {
    let mut bytes = vec![0x4Eu8, 0x45, 0x53, 0x1A]; // iNES magic, not N64
    bytes.extend_from_slice(&[0u8; 1024]);
    let candidates = candidate_sha1s(&bytes, "n64");
    // Neither swap magic matches → only Raw remains.
    assert_eq!(candidates.len(), 1);
    assert_eq!(candidates[0].rule, HeaderRule::Raw);
}


#[test]
fn header_rules_start_with_raw() {
    for sys in ["nes", "snes", "tg16", "lynx", "atari7800", "n64", "gba", ""] {
        assert_eq!(header_rules_for(sys)[0], HeaderRule::Raw);
    }
    assert_eq!(header_rules_for("n64").len(), 3);
    assert_eq!(header_rules_for("gba").len(), 1);
}

#[test]
fn byte_swap_pairs_and_words_keep_tail() {
    assert_eq!(byte_swap(&[1, 2, 3, 4, 5], ByteSwapKind::Pairs16), vec![2, 1, 4, 3, 5]);
    assert_eq!(byte_swap(&[1, 2, 3, 4, 5, 6], ByteSwapKind::Words32), vec![4, 3, 2, 1, 5, 6]);
    let b = vec![9u8, 8, 7, 6, 5, 4, 3, 2, 1];
    assert_eq!(byte_swap(&byte_swap(&b, ByteSwapKind::Words32), ByteSwapKind::Words32), b);
}
