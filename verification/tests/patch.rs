use oa_shell::patch::{apply, apply_bps, apply_ips, apply_ups, evaluate, parse, signed_offset, Outcome, Patch};

fn ips(records: &[u8]) -> Vec<u8> {
    let mut v = b"PATCH".to_vec();
    v.extend_from_slice(records);
    v.extend_from_slice(b"EOF");
    v
}

#[test]
fn ips_simple_offset_data() {
    let patch = ips(&[0x00, 0x00, 0x04, 0x00, 0x02, 0xAA, 0xBB]);
    let base = vec![0u8; 8];
    let out = apply_ips(&patch, &base).expect("apply");
    assert_eq!(out, vec![0, 0, 0, 0, 0xAA, 0xBB, 0, 0]);
}

#[test]
fn ips_rle_block() {
    let patch = ips(&[0x00, 0x00, 0x00, 0x00, 0x00, 0x00, 0x05, 0xFF]);
    let base = vec![0u8; 5];
    let out = apply_ips(&patch, &base).expect("apply");
    assert_eq!(out, vec![0xFF; 5]);
}

#[test]
fn ips_extends_rom() {
    let patch = ips(&[0x00, 0x00, 0x05, 0x00, 0x02, 0x11, 0x22]);
    let base = vec![0u8; 3];
    let out = apply_ips(&patch, &base).expect("apply");
    assert_eq!(out, vec![0, 0, 0, 0, 0, 0x11, 0x22]);
}

#[test]
fn ips_rejects_missing_header() {
    let bogus = vec![b'N', b'O', b'P', b'E', 0, 0];
    let err = apply_ips(&bogus, &[]).err().unwrap();
    assert!(err.contains("PATCH"));
}

#[test]
fn parse_detects_format() {
    assert!(matches!(parse(b"PATCHEOF".to_vec()), Ok(Patch::Ips(_))));
    assert!(matches!(parse(b"UPS1XXXXXXXXXXXXXXX".to_vec()), Ok(Patch::Ups(_))));
    assert!(matches!(parse(b"BPS1XXXXXXXXXXXXXXX".to_vec()), Ok(Patch::Bps(_))));
    assert!(parse(b"NOPE".to_vec()).is_err());
}

#[test]
fn bps_target_read_only() {
    let mut p = b"BPS1".to_vec();
    p.push(0x84);
    p.push(0x84);
    p.push(0x80);
    p.push(0x8D);
    p.extend_from_slice(&[0xDE, 0xAD, 0xBE, 0xEF]);
    p.extend_from_slice(&[0u8; 12]);
    let out = apply_bps(&p, &[0xFF; 4]).expect("apply");
    assert_eq!(out, vec![0xDE, 0xAD, 0xBE, 0xEF]);
}

#[test]
fn bps_source_read_passthrough() {
    let mut p = b"BPS1".to_vec();
    p.push(0x84);
    p.push(0x84);
    p.push(0x80);
    p.push(0x8C);
    p.extend_from_slice(&[0u8; 12]);
    let base = vec![0x11, 0x22, 0x33, 0x44];
    let out = apply_bps(&p, &base).expect("apply");
    assert_eq!(out, base);
}

#[test]
fn signed_offset_round_trips() {
    assert_eq!(signed_offset(0), 0);
    assert_eq!(signed_offset(2), 1);
    assert_eq!(signed_offset(3), -1);
    assert_eq!(signed_offset(4), 2);
    assert_eq!(signed_offset(5), -2);
}

#[test]
fn parse_reports_short_and_unknown_magic() {
    assert_eq!(parse(b"PAT".to_vec()).err().unwrap(), "patch file too short");
    assert_eq!(
        parse(b"NOPE!".to_vec()).err().unwrap(),
        "unrecognized patch magic: [4E, 4F, 50, 45]"
    );
}

#[test]
fn ips_without_records_keeps_base() {
    let out = apply_ips(&ips(&[]), &[1, 2, 3]).expect("apply");
    assert_eq!(out, vec![1, 2, 3]);
}

#[test]
fn ips_eof_truncate_length_cuts_image() {
    let mut p = ips(&[]);
    p.extend_from_slice(&[0x00, 0x00, 0x02]);
    assert_eq!(apply_ips(&p, &[1, 2, 3, 4]).expect("apply"), vec![1, 2]);
}

#[test]
fn ips_error_messages() {
    assert_eq!(apply_ips(b"PATCH", &[]).err().unwrap(), "IPS: ran off the end without finding EOF");
    assert_eq!(apply_ips(b"PATCH\x00\x00\x01\x00", &[]).err().unwrap(), "IPS: truncated record header");
    assert_eq!(apply_ips(b"PATCH\x00\x00\x01\x00\x00\x00", &[]).err().unwrap(), "IPS: truncated RLE record");
    assert_eq!(apply_ips(b"PATCH\x00\x00\x01\x00\x05\x01", &[]).err().unwrap(), "IPS: truncated data record");
}

#[test]
fn ups_xors_block_and_resizes() {
    // input 2, output 3, skip 1, xor 0x0F then terminator, 12 crc bytes.
    let mut p = b"UPS1".to_vec();
    p.extend_from_slice(&[0x82, 0x83, 0x81, 0x0F, 0x00]);
    p.extend_from_slice(&[0u8; 12]);
    let out = apply_ups(&p, &[0xF0, 0xF0]).expect("apply");
    assert_eq!(out, vec![0xF0, 0xFF, 0x00]);
    let mut twice = Vec::new();
    twice.extend_from_slice(&out);
    assert_eq!(apply_ups(&p, &out).expect("apply").len(), 3);
}

#[test]
fn ups_rejects_header_and_truncated_block() {
    assert_eq!(apply_ups(b"UPS1", &[]).err().unwrap(), "not a UPS patch (missing UPS1 header)");
    let mut p = b"UPS1".to_vec();
    p.extend_from_slice(&[0x80, 0x80, 0x80, 0x01]);
    p.extend_from_slice(&[0u8; 12]);
    assert_eq!(apply_ups(&p, &[]).err().unwrap(), "UPS: ran off body in diff block");
}

#[test]
fn bps_target_copy_repeats_written_bytes() {
    // dst 4: TargetRead 1 byte (0xAB), then TargetCopy len 3 from offset 0.
    let mut p = b"BPS1".to_vec();
    p.extend_from_slice(&[0x80, 0x84, 0x80]);
    p.push(0x81); // TargetRead len 1
    p.push(0xAB);
    p.push(0x8B); // TargetCopy len 3 (opcode 3, (3-1)<<2 = 8)
    p.push(0x80); // offset +0
    p.extend_from_slice(&[0u8; 12]);
    assert_eq!(apply_bps(&p, &[]).expect("apply"), vec![0xAB; 4]);
}

#[test]
fn bps_rejects_overrun() {
    let mut p = b"BPS1".to_vec();
    p.extend_from_slice(&[0x84, 0x81, 0x80, 0x8C]);
    p.extend_from_slice(&[0u8; 12]);
    assert_eq!(apply_bps(&p, &[1, 2, 3, 4]).err().unwrap(), "BPS SourceRead overruns dst");
}

#[test]
fn bps_overlong_quantity_overflows() {
    let mut p = b"BPS1".to_vec();
    p.extend_from_slice(&[0u8; 11]);
    p.extend_from_slice(&[0u8; 12]);
    let patch = parse(p).expect("parse");
    assert!(matches!(evaluate(&patch, &[]), Outcome::Overflowed));
}

#[test]
fn apply_dispatches_on_format() {
    let patch = parse(ips(&[0x00, 0x00, 0x00, 0x00, 0x01, 0x07])).expect("parse");
    assert_eq!(apply(&patch, &[0, 0]).expect("apply"), vec![7, 0]);
}
