//! Per-system ROM header handling. Catalogs hash the canonical
//! unheadered ROM, but files in the wild often carry a header (iNES, SMC,
//! LNX, A78) or a byte order other than the catalog's (N64 .v64/.n64).
//! For each system the shell produces one or more candidate SHA-1s (raw
//! plus stripped or re-ordered views) and the lookup tries each.
use vstd::prelude::*;
use vstd::slice::slice_subrange;
use sha1::{Digest, Sha1};

verus! {

/// A transform producing one candidate-hash view of a ROM's bytes.
#[derive(Debug, Clone, Copy, PartialEq, Eq)]
pub enum HeaderRule {
    /// Hash the file as-is.
    Raw,
    /// Skip the first `skip` bytes if `magic_bytes` appears at
    /// `magic_offset` (iNES, LNX, A78).
    SkipMagic { skip: usize, magic_offset: usize, magic_bytes: &'static [u8] },
    /// Skip the first `skip` bytes if `file_size % modulus == skip` (SMC).
    SkipModulo { skip: usize, modulus: usize },
    /// Byte-swap a copy of the ROM if its first bytes are `magic_at_offset_0`
    /// (N64 .v64 / .n64 to canonical .z64).
    ByteSwap { magic_at_offset_0: &'static [u8], swap: ByteSwapKind },
}

/// The byte-order permutation applied by a `HeaderRule::ByteSwap`.
#[derive(Debug, Clone, Copy, PartialEq, Eq)]
pub enum ByteSwapKind {
    /// Swap each adjacent byte pair: `[a, b, c, d]` to `[b, a, d, c]`.
    Pairs16,
    /// Reverse each 4-byte word: `[a, b, c, d]` to `[d, c, b, a]`.
    Words32,
}

/// One candidate produced by applying a header rule to the file bytes.
#[derive(Debug, Clone)]
pub struct Sha1Candidate {
    pub rule: HeaderRule,
    pub sha1: String,
}

/// Lower-case hexadecimal SHA-1 digest of `data`, as the `sha1` crate
/// computes and formats it.
pub uninterp spec fn sha1_hex_of(data: Seq<u8>) -> Seq<char>;

/// A lower-case hex digit.
pub open spec fn lower_hex_digit(c: char) -> bool {
    ('0' <= c <= '9') || ('a' <= c <= 'f')
}

/// `sha1::Sha1::digest`, rendered with `{:x}`. Claimed: the text is the
/// function `sha1_hex_of` of the bytes, and it is 40 lower-case hex digits
/// (the 20 digest bytes, two digits each); the digest itself is not stated.
#[verifier::external_body]
pub(crate) fn sha1_hex(bytes: &[u8]) -> (r: String)
    ensures
        r@ == sha1_hex_of(bytes@),
        r@.len() == 40,
        forall|i: int| 0 <= i < r@.len() ==> lower_hex_digit(#[trigger] r@[i]),
{
    format!("{:x}", Sha1::digest(bytes))
}

pub open spec fn nes_magic() -> Seq<u8> {
    seq![0x4Eu8, 0x45u8, 0x53u8, 0x1Au8]
}

pub open spec fn lynx_magic() -> Seq<u8> {
    seq![0x4Cu8, 0x59u8, 0x4Eu8, 0x58u8]
}

pub open spec fn a78_magic() -> Seq<u8> {
    seq![0x41u8, 0x54u8, 0x41u8, 0x52u8, 0x49u8, 0x37u8, 0x38u8, 0x30u8, 0x30u8]
}

pub open spec fn v64_magic() -> Seq<u8> {
    seq![0x37u8, 0x80u8, 0x40u8, 0x12u8]
}

pub open spec fn n64_magic() -> Seq<u8> {
    seq![0x40u8, 0x12u8, 0x37u8, 0x80u8]
}

/// The plain-value model of a header rule.
pub enum RuleModel {
    Raw,
    SkipMagic { skip: int, magic_offset: int, magic: Seq<u8> },
    SkipModulo { skip: int, modulus: int },
    ByteSwap { magic: Seq<u8>, swap: ByteSwapKind },
}

impl View for HeaderRule {
    type V = RuleModel;

    open spec fn view(&self) -> RuleModel {
        match *self {
            HeaderRule::Raw => RuleModel::Raw,
            HeaderRule::SkipMagic { skip, magic_offset, magic_bytes } => RuleModel::SkipMagic {
                skip: skip as int,
                magic_offset: magic_offset as int,
                magic: magic_bytes@,
            },
            HeaderRule::SkipModulo { skip, modulus } => RuleModel::SkipModulo {
                skip: skip as int,
                modulus: modulus as int,
            },
            HeaderRule::ByteSwap { magic_at_offset_0, swap } => RuleModel::ByteSwap {
                magic: magic_at_offset_0@,
                swap,
            },
        }
    }
}

/// Header rules per system: `Raw` first, then the system's strip or swap
/// rules; `[Raw]` for every system without a header convention.
pub open spec fn rules_for(id: Seq<char>) -> Seq<RuleModel> {
    if id == "nes"@ {
        seq![RuleModel::Raw, RuleModel::SkipMagic { skip: 16, magic_offset: 0, magic: nes_magic() }]
    } else if id == "snes"@ || id == "tg16"@ {
        seq![RuleModel::Raw, RuleModel::SkipModulo { skip: 512, modulus: 1024 }]
    } else if id == "lynx"@ {
        seq![RuleModel::Raw, RuleModel::SkipMagic { skip: 64, magic_offset: 0, magic: lynx_magic() }]
    } else if id == "atari7800"@ {
        seq![
            RuleModel::Raw,
            RuleModel::SkipMagic { skip: 128, magic_offset: 1, magic: a78_magic() },
        ]
    } else if id == "n64"@ {
        seq![
            RuleModel::Raw,
            RuleModel::ByteSwap { magic: v64_magic(), swap: ByteSwapKind::Pairs16 },
            RuleModel::ByteSwap { magic: n64_magic(), swap: ByteSwapKind::Words32 },
        ]
    } else {
        seq![RuleModel::Raw]
    }
}

pub open spec fn rule_models(r: Seq<HeaderRule>) -> Seq<RuleModel> {
    r.map_values(|x: HeaderRule| x@)
}

/// Header rules per system. The first rule is always `Raw`.
pub fn header_rules_for(system_id: &str) -> (r: &'static [HeaderRule])
    ensures
        rule_models(r@) == rules_for(system_id@),
{
    if crate::text::str_eq(system_id, "nes") {
        let r: &'static [HeaderRule] = &[
            HeaderRule::Raw,
            HeaderRule::SkipMagic {
                skip: 16,
                magic_offset: 0,
                magic_bytes: &[0x4E, 0x45, 0x53, 0x1A],
            },
        ];
        assert(rule_models(r@) =~= rules_for(system_id@));
        r
    } else if crate::text::str_eq(system_id, "snes") || crate::text::str_eq(system_id, "tg16") {
        let r: &'static [HeaderRule] = &[HeaderRule::Raw, HeaderRule::SkipModulo { skip: 512, modulus: 1024 }];
        assert(rule_models(r@) =~= rules_for(system_id@));
        r
    } else if crate::text::str_eq(system_id, "lynx") {
        let r: &'static [HeaderRule] = &[
            HeaderRule::Raw,
            HeaderRule::SkipMagic {
                skip: 64,
                magic_offset: 0,
                magic_bytes: &[0x4C, 0x59, 0x4E, 0x58],
            },
        ];
        assert(rule_models(r@) =~= rules_for(system_id@));
        r
    } else if crate::text::str_eq(system_id, "atari7800") {
        let r: &'static [HeaderRule] = &[
            HeaderRule::Raw,
            HeaderRule::SkipMagic {
                skip: 128,
                magic_offset: 1,
                magic_bytes: &[0x41, 0x54, 0x41, 0x52, 0x49, 0x37, 0x38, 0x30, 0x30],
            },
        ];
        assert(rule_models(r@) =~= rules_for(system_id@));
        r
    } else if crate::text::str_eq(system_id, "n64") {
        let r: &'static [HeaderRule] = &[
            HeaderRule::Raw,
            HeaderRule::ByteSwap {
                magic_at_offset_0: &[0x37, 0x80, 0x40, 0x12],
                swap: ByteSwapKind::Pairs16,
            },
            HeaderRule::ByteSwap {
                magic_at_offset_0: &[0x40, 0x12, 0x37, 0x80],
                swap: ByteSwapKind::Words32,
            },
        ];
        r
    } else {
        let r: &'static [HeaderRule] = &[HeaderRule::Raw];
        assert(rule_models(r@) =~= rules_for(system_id@));
        r
    }
}

/// `b` with each complete adjacent pair swapped; a trailing odd byte kept.
pub open spec fn pair_swapped(b: Seq<u8>) -> Seq<u8> {
    Seq::new(
        b.len(),
        |i: int|
            if i < 2 * (b.len() / 2) {
                if i % 2 == 0 {
                    b[i + 1]
                } else {
                    b[i - 1]
                }
            } else {
                b[i]
            },
    )
}

/// `b` with each complete 4-byte word reversed; trailing bytes kept.
pub open spec fn word_swapped(b: Seq<u8>) -> Seq<u8> {
    Seq::new(
        b.len(),
        |i: int|
            if i < 4 * (b.len() / 4) {
                b[i - i % 4 + 3 - i % 4]
            } else {
                b[i]
            },
    )
}

pub open spec fn swapped(b: Seq<u8>, kind: ByteSwapKind) -> Seq<u8> {
    match kind {
        ByteSwapKind::Pairs16 => pair_swapped(b),
        ByteSwapKind::Words32 => word_swapped(b),
    }
}

/// Apply a byte-swap permutation to a copy of the ROM.
pub fn byte_swap(bytes: &[u8], swap: ByteSwapKind) -> (r: Vec<u8>)
    ensures
        r@ == swapped(bytes@, swap),
{
    let mut out = vstd::slice::slice_to_vec(bytes);
    let n = bytes.len();
    match swap {
        ByteSwapKind::Pairs16 => {
            let mut i: usize = 0;
            while 2 <= n - i
                invariant
                    out.len() == n,
                    n == bytes.len(),
                    i % 2 == 0,
                    i <= n,
                    forall|j: int| 0 <= j < i ==> out@[j] == pair_swapped(bytes@)[j],
                    forall|j: int| i <= j < n ==> out@[j] == bytes@[j],
                decreases n - i,
            {
                let a = out[i];
                let b = out[i + 1];
                out.set(i, b);
                out.set(i + 1, a);
                i += 2;
            }
            assert(out@ =~= pair_swapped(bytes@));
        },
        ByteSwapKind::Words32 => {
            let mut i: usize = 0;
            while 4 <= n - i
                invariant
                    out.len() == n,
                    n == bytes.len(),
                    i % 4 == 0,
                    i <= n,
                    forall|j: int| 0 <= j < i ==> out@[j] == word_swapped(bytes@)[j],
                    forall|j: int| i <= j < n ==> out@[j] == bytes@[j],
                decreases n - i,
            {
                let a = out[i];
                let b = out[i + 1];
                let c = out[i + 2];
                let d = out[i + 3];
                out.set(i, d);
                out.set(i + 1, c);
                out.set(i + 2, b);
                out.set(i + 3, a);
                i += 4;
            }
            assert(out@ =~= word_swapped(bytes@));
        },
    }
    out
}

/// On the systems whose dumps may carry a 512-byte copier header (Super
/// Nintendo and PC Engine), a file of 512 bytes past a multiple of 1024
/// gets two candidates: the SHA-1 of the whole file and that of the file
/// without its first 512 bytes; any other size gets the whole-file one
/// only.
pub proof fn law_copier_header_is_stripped(system_id: Seq<char>, bytes: Seq<u8>)
    requires
        system_id == "snes"@ || system_id == "tg16"@,
    ensures
        candidates(rules_for(system_id), bytes)[0].1 == sha1_hex_of(bytes),
        bytes.len() > 512 && bytes.len() % 1024 == 512 ==> {
            &&& candidates(rules_for(system_id), bytes).len() == 2
            &&& candidates(rules_for(system_id), bytes)[1].1 == sha1_hex_of(bytes.skip(512))
        },
        !(bytes.len() > 512 && bytes.len() % 1024 == 512) ==> candidates(rules_for(system_id), bytes).len()
            == 1,
{
    reveal_strlit("nes");
    reveal_strlit("snes");
    reveal_strlit("tg16");
    assert(system_id.len() == 4);
    assert(system_id != "nes"@);
    let rules = rules_for(system_id);
    assert(rules =~= seq![RuleModel::Raw, RuleModel::SkipModulo { skip: 512, modulus: 1024 }]);
    assert(rules.drop_last() =~= seq![RuleModel::Raw]);
    assert(seq![RuleModel::Raw].drop_last() =~= Seq::<RuleModel>::empty());
    assert(candidates(Seq::<RuleModel>::empty(), bytes) =~= Seq::<(RuleModel, Seq<char>)>::empty());
    let c1 = candidates(rules.drop_last(), bytes);
    assert(rule_view(RuleModel::Raw, bytes) == Some(bytes));
    assert(c1 =~= seq![(RuleModel::Raw, sha1_hex_of(bytes))]);
}

/// Swapping twice restores the image: each swap is its own inverse.
pub proof fn law_byte_swap_is_an_involution(b: Seq<u8>, kind: ByteSwapKind)
    ensures
        swapped(swapped(b, kind), kind) == b,
{
    let s = swapped(b, kind);
    let t = swapped(s, kind);
    assert forall|i: int| 0 <= i < b.len() implies t[i] == b[i] by {
        match kind {
            ByteSwapKind::Pairs16 => {
                if i < 2 * (b.len() / 2) {
                    if i % 2 == 0 {
                        assert((i + 1) % 2 == 1);
                        assert(i + 1 < 2 * (b.len() / 2));
                    } else {
                        assert((i - 1) % 2 == 0);
                    }
                }
            },
            ByteSwapKind::Words32 => {
                if i < 4 * (b.len() / 4) {
                    let j = i - i % 4 + 3 - i % 4;
                    assert(j % 4 == 3 - i % 4);
                    assert(j - j % 4 == i - i % 4);
                    assert(j < 4 * (b.len() / 4));
                }
            },
        }
    }
    assert(t =~= b);
}

/// The bytes a rule hashes, if the rule applies to the image.
pub open spec fn rule_view(r: RuleModel, bytes: Seq<u8>) -> Option<Seq<u8>> {
    match r {
        RuleModel::Raw => Some(bytes),
        RuleModel::SkipMagic { skip, magic_offset, magic } => {
            let end = if magic_offset + magic.len() > usize::MAX {
                usize::MAX as int
            } else {
                magic_offset + magic.len()
            };
            if bytes.len() >= end && bytes.subrange(magic_offset, end) == magic && bytes.len()
                > skip {
                Some(bytes.skip(skip))
            } else {
                None
            }
        },
        RuleModel::SkipModulo { skip, modulus } => {
            if bytes.len() > skip && bytes.len() as int % modulus == skip {
                Some(bytes.skip(skip))
            } else {
                None
            }
        },
        RuleModel::ByteSwap { magic, swap } => {
            if bytes.len() >= magic.len() && bytes.take(magic.len() as int) == magic {
                Some(swapped(bytes, swap))
            } else {
                None
            }
        },
    }
}

/// The candidates of a rule list, in rule order: the rule and the digest
/// of its view, for each rule that applies.
pub open spec fn candidates(rules: Seq<RuleModel>, bytes: Seq<u8>) -> Seq<(RuleModel, Seq<char>)>
    decreases rules.len(),
{
    if rules.len() == 0 {
        seq![]
    } else {
        let prev = candidates(rules.drop_last(), bytes);
        match rule_view(rules.last(), bytes) {
            Some(v) => prev.push((rules.last(), sha1_hex_of(v))),
            None => prev,
        }
    }
}

pub open spec fn candidate_models(c: Seq<Sha1Candidate>) -> Seq<(RuleModel, Seq<char>)> {
    c.map_values(|x: Sha1Candidate| (x.rule@, x.sha1@))
}

fn bytes_eq(a: &[u8], b: &[u8]) -> (r: bool)
    ensures
        r == (a@ == b@),
{
    if a.len() != b.len() {
        return false;
    }
    let mut i: usize = 0;
    while i < a.len()
        invariant
            a.len() == b.len(),
            i <= a.len(),
            forall|j: int| 0 <= j < i ==> a@[j] == b@[j],
        decreases a.len() - i,
    {
        if a[i] != b[i] {
            return false;
        }
        i += 1;
    }
    assert(a@ =~= b@);
    true
}

/// The bytes `rule` hashes, if it applies.
fn view_for(rule: HeaderRule, bytes: &[u8]) -> (r: Option<Vec<u8>>)
    requires
        rule matches HeaderRule::SkipModulo { modulus, .. } ==> modulus > 0,
    ensures
        match rule_view(rule@, bytes@) {
            Some(v) => r matches Some(w) && w@ == v,
            None => r is None,
        },
{
    match rule {
        HeaderRule::Raw => Some(vstd::slice::slice_to_vec(bytes)),
        HeaderRule::SkipMagic { skip, magic_offset, magic_bytes } => {
            let end = magic_offset.saturating_add(magic_bytes.len());
            if bytes.len() >= end && magic_offset <= end && bytes_eq(
                slice_subrange(bytes, magic_offset, end),
                magic_bytes,
            ) && bytes.len() > skip {
                Some(vstd::slice::slice_to_vec(slice_subrange(bytes, skip, bytes.len())))
            } else {
                None
            }
        },
        HeaderRule::SkipModulo { skip, modulus } => {
            if bytes.len() > skip && bytes.len() % modulus == skip {
                Some(vstd::slice::slice_to_vec(slice_subrange(bytes, skip, bytes.len())))
            } else {
                None
            }
        },
        HeaderRule::ByteSwap { magic_at_offset_0, swap } => {
            if bytes.len() >= magic_at_offset_0.len() && bytes_eq(
                slice_subrange(bytes, 0, magic_at_offset_0.len()),
                magic_at_offset_0,
            ) {
                Some(byte_swap(bytes, swap))
            } else {
                None
            }
        },
    }
}

/// Produce the candidate SHA-1s of the ROM bytes under each of the
/// system's header rules; rules that do not apply are dropped. The raw
/// candidate always comes first.
pub fn candidate_sha1s(bytes: &[u8], system_id: &str) -> (r: Vec<Sha1Candidate>)
    ensures
        candidate_models(r@) == candidates(rules_for(system_id@), bytes@),
        r@.len() >= 1,
        r@[0].rule == HeaderRule::Raw,
        r@[0].sha1@ == sha1_hex_of(bytes@),
{
    let rules = header_rules_for(system_id);
    let mut out: Vec<Sha1Candidate> = Vec::new();
    let mut i: usize = 0;
    while i < rules.len()
        invariant
            i <= rules.len(),
            rule_models(rules@) == rules_for(system_id@),
            candidate_models(out@) == candidates(rule_models(rules@).take(i as int), bytes@),
            i >= 1 ==> out@.len() >= 1 && out@[0].rule == HeaderRule::Raw && out@[0].sha1@
                == sha1_hex_of(bytes@),
        decreases rules.len() - i,
    {
        let rule = rules[i];
        proof {
            assert(rule@ == rule_models(rules@)[i as int]);
            let t = rule_models(rules@).take(i + 1);
            assert(t.drop_last() =~= rule_models(rules@).take(i as int));
            assert(t.last() == rule@);
        }
        match view_for(rule, bytes) {
            Some(view) => {
                let ghost before = out@;
                let sha1 = sha1_hex(&view);
                out.push(Sha1Candidate { rule, sha1 });
                assert(candidate_models(out@) =~= candidate_models(before).push((rule@, sha1@)));
            },
            None => {},
        }
        i += 1;
    }
    assert(rule_models(rules@).take(rules.len() as int) =~= rule_models(rules@));
    out
}

} // verus!
