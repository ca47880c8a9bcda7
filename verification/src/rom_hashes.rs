//! ROM identification data from libretro-database: the clrmamepro DAT
//! grammar (hash rows, serial rows, per-track rows, multi-disc sets), the
//! MAME title DAT, and the small rules the identification flow applies
//! (which extensions are disc containers, when to re-sync, the fuzzy key
//! of a disc file name).
use vstd::prelude::*;
use crate::text::{
    ascii_lower, chars_of, has_prefix, has_suffix, join, lines, lines_of, lower_ascii, owned,
    starts_with, ends_with, str_eq, string_of, trim, trim_end, trim_vec, views, words,
    lex_lt, lex_less, lemma_lex_lt_total, lemma_lex_lt_transitive,
};
use crate::normalize::without_short_extension;
use crate::system_descriptor::LibretroDatRef;
use crate::text::{percent_encoded, url_encode};
use vstd::string::StringSliceAdditionalSpecFns;
use crate::numbers::{parse_i64, parse_u32, parsed_i64, parsed_u32};

verus! {

// ---------------------------------------------------------------------
// Where the DATs come from
// ---------------------------------------------------------------------

/// Where a libretro-database DAT is downloaded from:
/// `https://raw.githubusercontent.com/libretro/libretro-database/master/<subdir>/<basename>.dat`,
/// the basename percent-encoded.
pub fn libretro_dat_url(dat_ref: &LibretroDatRef) -> (r: String)
    ensures
        r@ == "https://raw.githubusercontent.com/libretro/libretro-database/master/"@ + dat_ref.subdir@ + seq!['/']
            + percent_encoded(vstd::utf8::encode_utf8(dat_ref.basename@)) + ".dat"@,
{
    let enc = url_encode(dat_ref.basename.as_str());
    let mut out: Vec<char> = Vec::new();
    crate::text::push_str(&mut out, "https://raw.githubusercontent.com/libretro/libretro-database/master/");
    crate::text::push_str(&mut out, dat_ref.subdir.as_str());
    out.push('/');
    crate::text::push_str(&mut out, enc.as_str());
    crate::text::push_str(&mut out, ".dat");
    string_of(&out)
}

/// The largest ROM file read whole into memory for hashing: 64 MiB.
pub const MAX_ROM_BYTES: u64 = 67108864;

/// Why a ROM file of `len` bytes at `path` is not read into memory: none
/// when it is within the cap.
pub fn oversize_error(path: &str, len: u64) -> (r: Option<String>)
    ensures
        len <= MAX_ROM_BYTES ==> r is None,
        len > MAX_ROM_BYTES ==> (r matches Some(m) && m@ == path@ + " is "@ + crate::media::decimal(len as nat)
            + " bytes, exceeds "@ + crate::media::decimal(MAX_ROM_BYTES as nat)
            + " byte cap \u{2014} refusing to load into memory"@),
{
    if len <= MAX_ROM_BYTES {
        return None;
    }
    let mut m: Vec<char> = Vec::new();
    crate::text::push_str(&mut m, path);
    crate::text::push_str(&mut m, " is ");
    let d = crate::media::decimal_chars_wide(len as u128);
    crate::text::push_all(&mut m, &d);
    crate::text::push_str(&mut m, " bytes, exceeds ");
    let c = crate::media::decimal_chars_wide(MAX_ROM_BYTES as u128);
    crate::text::push_all(&mut m, &c);
    crate::text::push_str(&mut m, " byte cap \u{2014} refusing to load into memory");
    Some(string_of(&m))
}

/// The DAT of MAME set names and titles: `metadat/mame/MAME.dat`.
pub fn mame_dat_ref() -> (r: LibretroDatRef)
    ensures
        r.subdir@ == "metadat/mame"@,
        r.basename@ == "MAME"@,
{
    LibretroDatRef { subdir: String::from_str("metadat/mame"), basename: String::from_str("MAME") }
}

// ---------------------------------------------------------------------
// Systems and extensions
// ---------------------------------------------------------------------

/// Disc-based (CD/DVD) systems.
pub open spec fn disc_shape_system(id: Seq<char>) -> bool {
    ||| id == "pce-cd"@
    ||| id == "segacd"@
    ||| id == "saturn"@
    ||| id == "psx"@
    ||| id == "ps2"@
    ||| id == "neocd"@
    ||| id == "pcfx"@
    ||| id == "gamecube"@
    ||| id == "dreamcast"@
    ||| id == "3do"@
    ||| id == "psp"@
}

/// Whether a system is disc-based.
pub fn is_disc_shape_system(system_id: &str) -> (r: bool)
    ensures
        r == disc_shape_system(system_id@),
{
    str_eq(system_id, "pce-cd") || str_eq(system_id, "segacd") || str_eq(system_id, "saturn")
        || str_eq(system_id, "psx") || str_eq(system_id, "ps2") || str_eq(system_id, "neocd")
        || str_eq(system_id, "pcfx") || str_eq(system_id, "gamecube") || str_eq(
        system_id,
        "dreamcast",
    ) || str_eq(system_id, "3do") || str_eq(system_id, "psp")
}

/// Extensions of disc containers, whose file hash is not the game's:
/// `cue`, `chd`, `ccd`, `toc`, `m3u` everywhere; `bin` and `iso` on
/// disc-based systems only (on cartridge systems they are raw dumps).
pub open spec fn cd_container_ext(ext: Seq<char>, system_id: Seq<char>) -> bool {
    ||| ext == "cue"@ || ext == "chd"@ || ext == "ccd"@ || ext == "toc"@ || ext == "m3u"@
    ||| (ext == "bin"@ || ext == "iso"@) && disc_shape_system(system_id)
}

/// Whether an extension marks a disc container on a system.
pub fn is_cd_container_ext(ext: &str, system_id: &str) -> (r: bool)
    ensures
        r == cd_container_ext(ext@, system_id@),
{
    if str_eq(ext, "cue") || str_eq(ext, "chd") || str_eq(ext, "ccd") || str_eq(ext, "toc")
        || str_eq(ext, "m3u") {
        return true;
    }
    if str_eq(ext, "bin") || str_eq(ext, "iso") {
        return is_disc_shape_system(system_id);
    }
    false
}

/// Whether the hash tables of a system need a fresh sync: when the hash
/// table is empty, and on disc-based systems also when the per-track
/// table is.
pub fn auto_sync_needed(is_disc_shape: bool, cart_count: i64, track_count: i64) -> (r: bool)
    ensures
        r == (cart_count == 0 || (is_disc_shape && track_count == 0)),
{
    if is_disc_shape {
        cart_count == 0 || track_count == 0
    } else {
        cart_count == 0
    }
}

// ---------------------------------------------------------------------
// Text pieces
// ---------------------------------------------------------------------

/// `p` occurs at `i` in `s` and nowhere before.
pub open spec fn first_at(s: Seq<char>, p: Seq<char>, i: int) -> bool {
    crate::text::occurs_at(s, p, i) && forall|j: int| 0 <= j < i ==> !crate::text::occurs_at(s, p, j)
}

/// Index of the first occurrence of `p` in `s` (`str::find`).
pub open spec fn find_first(s: Seq<char>, p: Seq<char>) -> Option<int> {
    if crate::text::contains(s, p) {
        Some(choose|i: int| first_at(s, p, i))
    } else {
        None
    }
}

proof fn lemma_find_first(s: Seq<char>, p: Seq<char>, i: int)
    requires
        first_at(s, p, i),
    ensures
        find_first(s, p) == Some(i),
{
    assert(crate::text::contains(s, p));
    let k = choose|k: int| first_at(s, p, k);
    assert(first_at(s, p, k));
    if k < i {
        assert(!crate::text::occurs_at(s, p, k));
    }
    if i < k {
        assert(!crate::text::occurs_at(s, p, i));
    }
}

/// `str::find` on character slices.
fn find(s: &[char], p: &[char]) -> (r: Option<usize>)
    ensures
        match find_first(s@, p@) {
            Some(i) => r == Some(i as usize) && 0 <= i && i + p.len() <= s.len(),
            None => r is None,
        },
{
    let r = crate::text::find_seq(s, p);
    match r {
        Some(i) => {
            proof {
                lemma_find_first(s@, p@, i as int);
            }
        },
        None => {},
    }
    r
}

/// A value with one pair of surrounding quotes removed: trimmed, then
/// stripped of a leading and a trailing `"` when it has both.
pub open spec fn unquoted_once(s: Seq<char>) -> Seq<char> {
    let t = trim(s);
    if t.len() >= 2 && t[0] == '"' && t.last() == '"' {
        t.subrange(1, t.len() - 1)
    } else {
        t
    }
}

fn unquote_once(s: &[char]) -> (r: Vec<char>)
    ensures
        r@ == unquoted_once(s@),
{
    let t = trim_vec(s);
    if t.len() >= 2 && t[0] == '"' && t[t.len() - 1] == '"' {
        let r = crate::text::slice_to_vec(&t, 1, t.len() - 1);
        r
    } else {
        t
    }
}

/// A value with one pair of surrounding quotes removed.
pub fn unquote(s: &str) -> (r: String)
    ensures
        r@ == unquoted_once(s@),
{
    string_of(&unquote_once(&chars_of(s)))
}

/// The number in `(<tag><n>)` inside `s`: the first `<tag>`, the text up
/// to the next `)`, trimmed and read as a `u32`.
pub open spec fn tagged_number(s: Seq<char>, tag: Seq<char>) -> Option<u32> {
    match find_first(s, tag) {
        None => None,
        Some(st) => {
            let rest = s.skip(st + tag.len());
            match find_first(rest, ")"@) {
                None => None,
                Some(e) => parsed_u32(trim(rest.take(e))),
            }
        },
    }
}

/// The base title and disc number of a `Foo (Disc N)` title: the text
/// before the first `(Disc `, without trailing whitespace, when it is not
/// empty, and `N`.
pub open spec fn disc_candidate(name: Seq<char>) -> Option<(Seq<char>, u32)> {
    match find_first(name, "(Disc "@) {
        None => None,
        Some(st) => match tagged_number(name, "(Disc "@) {
            None => None,
            Some(n) => if trim_end(name.take(st)).len() == 0 {
                None
            } else {
                Some((trim_end(name.take(st)), n))
            },
        },
    }
}

fn tagged_number_of(s: &[char], tag: &[char]) -> (r: Option<u32>)
    ensures
        r == tagged_number(s@, tag@),
{
    match find(s, tag) {
        None => None,
        Some(st) => {
            let rest = crate::text::slice_to_vec(s, st + tag.len(), s.len());
            assert(rest@ =~= s@.skip(st + tag.len()));
            let close = chars_of(")");
            match find(&rest, &close) {
                None => None,
                Some(e) => {
                    let inner = crate::text::slice_to_vec(&rest, 0, e);
                    assert(inner@ =~= rest@.take(e as int));
                    let t = string_of(&trim_vec(&inner));
                    parse_u32(t.as_str())
                },
            }
        },
    }
}

/// The base title and disc number of a `Foo (Disc N)` title.
pub fn extract_disc_set_candidate(game_name: &str) -> (r: Option<(String, u32)>)
    ensures
        match disc_candidate(game_name@) {
            None => r is None,
            Some((b, n)) => r matches Some((rb, rn)) && rb@ == b && rn == n,
        },
{
    let cs = chars_of(game_name);
    let tag = chars_of("(Disc ");
    match find(&cs, &tag) {
        None => None,
        Some(st) => match tagged_number_of(&cs, &tag) {
            None => None,
            Some(n) => {
                let head = crate::text::slice_to_vec(&cs, 0, st);
                assert(head@ =~= cs@.take(st as int));
                let base = crate::text::trim_end_vec(&head);
                if base.len() == 0 {
                    None
                } else {
                    Some((string_of(&base), n))
                }
            },
        },
    }
}

/// The track number of a ROM file name: the `N` of its `(Track N)`, else
/// its 1-based position in the game block.
pub open spec fn track_number(file_name: Seq<char>, position: u32) -> u32 {
    match tagged_number(file_name, "(Track "@) {
        Some(n) => n,
        None => position,
    }
}

/// The track number of a ROM file name.
pub fn extract_track_number(filename: &str, position_in_block: u32) -> (r: u32)
    ensures
        r == track_number(filename@, position_in_block),
{
    match tagged_number_of(&chars_of(filename), &chars_of("(Track ")) {
        Some(n) => n,
        None => position_in_block,
    }
}

/// Side files of a disc dump that get no per-track row.
pub open spec fn sidecar_name(lower: Seq<char>) -> bool {
    ||| ends_with(lower, ".cue"@)
    ||| ends_with(lower, ".gdi"@)
    ||| ends_with(lower, ".toc"@)
    ||| ends_with(lower, ".ccd"@)
    ||| ends_with(lower, ".sub"@)
    ||| ends_with(lower, ".sbi"@)
    ||| ends_with(lower, ".sbx"@)
}

/// The track mode recorded for a ROM file: none for side files,
/// `MODE1/2048` for `.iso`, `DATA` for track 1, `AUDIO` otherwise (names
/// compared in ASCII lower case).
pub open spec fn track_mode(file_name: Seq<char>, track: u32) -> Option<Seq<char>> {
    let lower = ascii_lower(file_name);
    if sidecar_name(lower) {
        None
    } else if ends_with(lower, ".iso"@) {
        Some("MODE1/2048"@)
    } else if track == 1 {
        Some("DATA"@)
    } else {
        Some("AUDIO"@)
    }
}

/// The track mode recorded for a ROM file.
pub fn derive_track_mode(filename: &str, track_number: u32) -> (r: Option<String>)
    ensures
        match track_mode(filename@, track_number) {
            None => r is None,
            Some(m) => r matches Some(s) && s@ == m,
        },
{
    let lower = lower_ascii(&chars_of(filename));
    if has_suffix(&lower, &chars_of(".cue")) || has_suffix(&lower, &chars_of(".gdi")) || has_suffix(
        &lower,
        &chars_of(".toc"),
    ) || has_suffix(&lower, &chars_of(".ccd")) || has_suffix(&lower, &chars_of(".sub"))
        || has_suffix(&lower, &chars_of(".sbi")) || has_suffix(&lower, &chars_of(".sbx")) {
        return None;
    }
    if has_suffix(&lower, &chars_of(".iso")) {
        return Some(owned("MODE1/2048"));
    }
    if track_number == 1 {
        Some(owned("DATA"))
    } else {
        Some(owned("AUDIO"))
    }
}

/// Separator punctuation that the fuzzy key reads as a space.
pub open spec fn fuzzy_separator(c: char) -> bool {
    c == '_' || c == '-' || c == '.' || c == ':' || c == ',' || c == '+' || c == '/' || c == '\\'
}

/// The fuzzy key of a disc file name: without a final extension of at
/// most five bytes, lower-cased, separators read as spaces, whitespace
/// runs collapsed to single spaces and the ends trimmed. Bracketed region
/// tags are kept.
pub open spec fn fuzzy_key(s: Seq<char>) -> Seq<char> {
    let lowered = crate::text::lowercase(without_short_extension(s));
    let spaced = lowered.map_values(|c: char| if fuzzy_separator(c) { ' ' } else { c });
    join(words(spaced), " "@)
}

/// The fuzzy key of a disc file name.
pub fn disc_filename_fuzzy_key(s: &str) -> (r: String)
    ensures
        r@ == fuzzy_key(s@),
{
    let stem = crate::normalize::short_ext_stem(&chars_of(s));
    let lower = crate::text::to_lowercase(string_of(&stem).as_str());
    let lc = chars_of(lower.as_str());
    let mut spaced: Vec<char> = Vec::new();
    let mut i: usize = 0;
    while i < lc.len()
        invariant
            i <= lc.len(),
            spaced@ == lc@.take(i as int).map_values(
                |c: char|
                    if fuzzy_separator(c) {
                        ' '
                    } else {
                        c
                    },
            ),
        decreases lc.len() - i,
    {
        let c = lc[i];
        let sep = c == '_' || c == '-' || c == '.' || c == ':' || c == ',' || c == '+' || c == '/'
            || c == '\\';
        spaced.push(if sep { ' ' } else { c });
        i += 1;
        assert(spaced@ =~= lc@.take(i as int).map_values(
            |c: char|
                if fuzzy_separator(c) {
                    ' '
                } else {
                    c
                },
        ));
    }
    assert(lc@.take(lc.len() as int) =~= lc@);
    let ws = crate::text::words_of(&spaced);
    let sep = chars_of(" ");
    string_of(&crate::text::join_vecs(&ws, &sep))
}

/// Whether some entry of the index is keyed `key`.
pub open spec fn index_has_key(index: Seq<(String, usize)>, key: Seq<char>) -> bool {
    exists|k: int| 0 <= k < index.len() && (#[trigger] index[k]).0@ == key
}

/// Whether title `i` is the first of `titles` whose fuzzy key is `key`.
pub open spec fn first_with_key(titles: Seq<String>, i: int, key: Seq<char>) -> bool {
    &&& 0 <= i < titles.len()
    &&& fuzzy_key(titles[i]@) == key
    &&& forall|j: int| 0 <= j < i ==> fuzzy_key((#[trigger] titles[j])@) != key
}

/// Index canonical disc titles by their fuzzy key: one entry per key,
/// naming the first title with that key (the earlier title wins a
/// collision), in order of first appearance.
pub fn disc_fuzzy_index(titles: &[String]) -> (r: Vec<(String, usize)>)
    ensures
        forall|a: int, b: int| 0 <= a < b < r.len() ==> (#[trigger] r@[a]).0@ != (#[trigger] r@[b]).0@,
        forall|k: int| 0 <= k < r.len() ==> first_with_key(titles@, (#[trigger] r@[k]).1 as int, r@[k].0@),
        forall|i: int| 0 <= i < titles.len() ==> #[trigger] index_has_key(r@, fuzzy_key(titles@[i]@)),
{
    let mut out: Vec<(String, usize)> = Vec::new();
    let mut i: usize = 0;
    while i < titles.len()
        invariant
            i <= titles.len(),
            forall|a: int, b: int| 0 <= a < b < out.len() ==> (#[trigger] out@[a]).0@ != (#[trigger] out@[b]).0@,
            forall|k: int| 0 <= k < out.len() ==> first_with_key(titles@, (#[trigger] out@[k]).1 as int, out@[k].0@),
            forall|k: int| 0 <= k < out.len() ==> (#[trigger] out@[k]).1 < i,
            forall|j: int| 0 <= j < i ==> #[trigger] index_has_key(out@, fuzzy_key(titles@[j]@)),
        decreases titles.len() - i,
    {
        let key = disc_filename_fuzzy_key(titles[i].as_str());
        let mut k: usize = 0;
        let mut found = false;
        while k < out.len()
            invariant_except_break
                !found,
                forall|m: int| 0 <= m < k ==> (#[trigger] out@[m]).0@ != key@,
            invariant
                k <= out.len(),
            ensures
                found ==> k < out.len() && out@[k as int].0@ == key@,
                !found ==> forall|m: int| 0 <= m < out.len() ==> (#[trigger] out@[m]).0@ != key@,
            decreases out.len() - k,
        {
            if str_eq(out[k].0.as_str(), key.as_str()) {
                found = true;
                break;
            }
            k += 1;
        }
        if found {
            assert(index_has_key(out@, fuzzy_key(titles@[i as int]@)));
        } else {
            proof {
                assert forall|j: int| 0 <= j < i implies fuzzy_key((#[trigger] titles@[j])@) != key@ by {
                    assert(index_has_key(out@, fuzzy_key(titles@[j]@)));
                    let m = choose|m: int| 0 <= m < out.len() && (#[trigger] out@[m]).0@ == fuzzy_key(titles@[j]@);
                    assert(out@[m].0@ == fuzzy_key(titles@[j]@));
                }
            }
            let ghost before = out@;
            out.push((key, i));
            proof {
                assert(out@[before.len() as int] == (key, i));
                assert forall|k2: int| 0 <= k2 < out.len() implies first_with_key(
                    titles@,
                    (#[trigger] out@[k2]).1 as int,
                    out@[k2].0@,
                ) by {
                    if k2 < before.len() {
                        assert(out@[k2] == before[k2]);
                    }
                }
                assert forall|j: int| 0 <= j < i implies #[trigger] index_has_key(out@, fuzzy_key(titles@[j]@)) by {
                    assert(index_has_key(before, fuzzy_key(titles@[j]@)));
                    let m = choose|m: int| 0 <= m < before.len() && (#[trigger] before[m]).0@ == fuzzy_key(titles@[j]@);
                    assert(out@[m] == before[m]);
                }
                assert(out@[before.len() as int].0@ == fuzzy_key(titles@[i as int]@));
                assert(index_has_key(out@, fuzzy_key(titles@[i as int]@)));
            }
        }
        i += 1;
    }
    out
}

// ---------------------------------------------------------------------
// `key value` tokens
// ---------------------------------------------------------------------

/// ASCII whitespace (`char::is_ascii_whitespace`).
pub open spec fn ascii_ws(c: char) -> bool {
    c == ' ' || c == '\t' || c == '\n' || c == '\u{c}' || c == '\r'
}

/// The first index from `i` on that is not ASCII whitespace.
pub open spec fn scan_ws(s: Seq<char>, i: int) -> int
    decreases s.len() - i,
{
    if 0 <= i < s.len() && ascii_ws(s[i]) {
        scan_ws(s, i + 1)
    } else {
        i
    }
}

/// The first index from `i` on that is ASCII whitespace.
pub open spec fn scan_word(s: Seq<char>, i: int) -> int
    decreases s.len() - i,
{
    if 0 <= i < s.len() && !ascii_ws(s[i]) {
        scan_word(s, i + 1)
    } else {
        i
    }
}

/// The first index from `i` on that holds `"`.
pub open spec fn scan_quote(s: Seq<char>, i: int) -> int
    decreases s.len() - i,
{
    if 0 <= i < s.len() && s[i] != '"' {
        scan_quote(s, i + 1)
    } else {
        i
    }
}

/// The `key value` pair that starts at or after index `i` of `s`, and the
/// index after it: the key is a run of non-whitespace; the value is the
/// text between a pair of quotes (or to the end when the closing quote is
/// missing) or else a run of non-whitespace.
pub open spec fn pair_at(s: Seq<char>, i: int) -> Option<(Seq<char>, Seq<char>, int)> {
    let a = scan_ws(s, i);
    if a >= s.len() {
        None
    } else {
        let ke = scan_word(s, a);
        let b = scan_ws(s, ke);
        if b < s.len() && s[b] == '"' {
            let qe = scan_quote(s, b + 1);
            Some((s.subrange(a, ke), s.subrange(b + 1, qe), if qe < s.len() { qe + 1 } else { qe }))
        } else {
            let ve = scan_word(s, b);
            Some((s.subrange(a, ke), s.subrange(b, ve), ve))
        }
    }
}

proof fn lemma_scan_bounds(s: Seq<char>, i: int)
    requires
        0 <= i <= s.len(),
    ensures
        i <= scan_ws(s, i) <= s.len(),
        i <= scan_word(s, i) <= s.len(),
        i <= scan_quote(s, i) <= s.len(),
        scan_ws(s, i) < s.len() ==> !ascii_ws(s[scan_ws(s, i)]),
        scan_word(s, i) < s.len() ==> ascii_ws(s[scan_word(s, i)]),
        scan_quote(s, i) < s.len() ==> s[scan_quote(s, i)] == '"',
    decreases s.len() - i,
{
    if i < s.len() {
        lemma_scan_bounds(s, i + 1);
    }
}

proof fn lemma_pair_at_advances(s: Seq<char>, i: int)
    requires
        0 <= i <= s.len(),
    ensures
        pair_at(s, i) matches Some((k, v, n)) ==> i < n <= s.len(),
{
    lemma_scan_bounds(s, i);
    let a = scan_ws(s, i);
    if a < s.len() {
        lemma_scan_bounds(s, a);
        lemma_scan_bounds(s, a + 1);
        let ke = scan_word(s, a);
        assert(ke > a);
        lemma_scan_bounds(s, ke);
        let b = scan_ws(s, ke);
        lemma_scan_bounds(s, b);
        if b < s.len() {
            lemma_scan_bounds(s, b + 1);
        }
    }
}

/// A `key value` tokenizer over the body of a `rom ( ... )` line.
pub struct TokenIter {
    chars: Vec<char>,
    pos: usize,
}

impl TokenIter {
    pub closed spec fn text(&self) -> Seq<char> {
        self.chars@
    }

    pub closed spec fn position(&self) -> int {
        self.pos as int
    }

    pub closed spec fn wf(&self) -> bool {
        self.pos <= self.chars.len()
    }

    /// A tokenizer at the start of `s`.
    pub fn new(s: &str) -> (r: Self)
        ensures
            r.wf(),
            r.text() == s@,
            r.position() == 0,
    {
        TokenIter { chars: chars_of(s), pos: 0 }
    }

    /// The next `key value` pair, if any (see `pair_at`).
    pub fn next_pair(&mut self) -> (r: Option<(String, String)>)
        requires
            old(self).wf(),
        ensures
            final(self).wf(),
            final(self).text() == old(self).text(),
            match pair_at(old(self).text(), old(self).position()) {
                None => r is None,
                Some((k, v, n)) => r matches Some((rk, rv)) && rk@ == k && rv@ == v
                    && final(self).position() == n,
            },
    {
        let (key, value, next) = match next_pair_in(&self.chars, self.pos) {
            None => {
                return None;
            },
            Some(t) => t,
        };
        self.pos = next;
        Some((string_of(&key), string_of(&value)))
    }
}

fn scan_ws_exec(s: &[char], i: usize) -> (r: usize)
    requires
        i <= s.len(),
    ensures
        r == scan_ws(s@, i as int),
{
    let mut j = i;
    while j < s.len() && (s[j] == ' ' || s[j] == '\t' || s[j] == '\n' || s[j] == '\u{c}' || s[j]
        == '\r')
        invariant
            i <= j <= s.len(),
            scan_ws(s@, i as int) == scan_ws(s@, j as int),
        decreases s.len() - j,
    {
        j += 1;
    }
    j
}

fn scan_word_exec(s: &[char], i: usize) -> (r: usize)
    requires
        i <= s.len(),
    ensures
        r == scan_word(s@, i as int),
{
    let mut j = i;
    while j < s.len() && !(s[j] == ' ' || s[j] == '\t' || s[j] == '\n' || s[j] == '\u{c}' || s[j]
        == '\r')
        invariant
            i <= j <= s.len(),
            scan_word(s@, i as int) == scan_word(s@, j as int),
        decreases s.len() - j,
    {
        j += 1;
    }
    j
}

fn scan_quote_exec(s: &[char], i: usize) -> (r: usize)
    requires
        i <= s.len(),
    ensures
        r == scan_quote(s@, i as int),
{
    let mut j = i;
    while j < s.len() && s[j] != '"'
        invariant
            i <= j <= s.len(),
            scan_quote(s@, i as int) == scan_quote(s@, j as int),
        decreases s.len() - j,
    {
        j += 1;
    }
    j
}

fn next_pair_in(s: &[char], i: usize) -> (r: Option<(Vec<char>, Vec<char>, usize)>)
    requires
        i <= s.len(),
    ensures
        match pair_at(s@, i as int) {
            None => r is None,
            Some((k, v, n)) => r matches Some((rk, rv, rn)) && rk@ == k && rv@ == v && rn == n,
        },
        r matches Some((_, _, n)) ==> i < n <= s.len(),
{
    proof {
        lemma_pair_at_advances(s@, i as int);
        lemma_scan_bounds(s@, i as int);
    }
    let a = scan_ws_exec(s, i);
    if a >= s.len() {
        return None;
    }
    proof {
        lemma_scan_bounds(s@, a as int);
    }
    let ke = scan_word_exec(s, a);
    proof {
        lemma_scan_bounds(s@, ke as int);
    }
    let b = scan_ws_exec(s, ke);
    let key = crate::text::slice_to_vec(s, a, ke);
    if b < s.len() && s[b] == '"' {
        proof {
            lemma_scan_bounds(s@, b + 1);
        }
        let qe = scan_quote_exec(s, b + 1);
        let value = crate::text::slice_to_vec(s, b + 1, qe);
        let next = if qe < s.len() {
            qe + 1
        } else {
            qe
        };
        Some((key, value, next))
    } else {
        proof {
            lemma_scan_bounds(s@, b as int);
        }
        let ve = scan_word_exec(s, b);
        let value = crate::text::slice_to_vec(s, b, ve);
        Some((key, value, ve))
    }
}

// ---------------------------------------------------------------------
// libretro-database DAT: rows
// ---------------------------------------------------------------------

/// One SHA-1 entry of a DAT.
#[derive(Clone, Debug, PartialEq, Eq)]
pub struct RomHashRow {
    pub sha1: String,
    pub system_id: String,
    pub game_name: String,
    pub serial: Option<String>,
    pub crc32: Option<String>,
    pub size_bytes: Option<i64>,
}

/// One serial → canonical title entry.
#[derive(Clone, Debug, PartialEq, Eq)]
pub struct GameSerialRow {
    pub system_id: String,
    pub serial: String,
    pub canonical_title: String,
    pub region: Option<String>,
}

/// One per-track entry of a disc game.
#[derive(Clone, Debug, PartialEq, Eq)]
pub struct RomTrackRow {
    pub sha1: String,
    pub system_id: String,
    pub game_name: String,
    pub serial: Option<String>,
    pub track_number: u32,
    pub track_mode: String,
    pub size_bytes: i64,
}

/// One multi-disc set: a base title with at least two distinct disc
/// numbers.
#[derive(Clone, Debug, PartialEq, Eq)]
pub struct DiscSetCandidate {
    /// Base title, without the `(Disc N)` suffix.
    pub canonical_title: String,
    pub system_id: String,
    /// The highest disc number seen.
    pub disc_count: u32,
}

/// Everything one DAT gives.
#[derive(Clone, Debug)]
pub struct ParsedDat {
    pub rom_hashes: Vec<RomHashRow>,
    pub game_serials: Vec<GameSerialRow>,
    pub rom_hashes_tracks: Vec<RomTrackRow>,
    pub disc_set_candidates: Vec<DiscSetCandidate>,
}

pub open spec fn opt_view(o: Option<String>) -> Option<Seq<char>> {
    match o {
        Some(s) => Some(s@),
        None => None,
    }
}

pub open spec fn opt_vec_view(o: Option<Vec<char>>) -> Option<Seq<char>> {
    match o {
        Some(s) => Some(s@),
        None => None,
    }
}

/// A `rom ( ... )` entry of the current game block.
pub struct PendingModel {
    pub name: Seq<char>,
    pub sha1: Seq<char>,
    pub crc32: Option<Seq<char>>,
    pub size_bytes: Option<i64>,
}

pub struct HashModel {
    pub sha1: Seq<char>,
    pub system_id: Seq<char>,
    pub game_name: Seq<char>,
    pub serial: Option<Seq<char>>,
    pub crc32: Option<Seq<char>>,
    pub size_bytes: Option<i64>,
}

pub struct TrackModel {
    pub sha1: Seq<char>,
    pub system_id: Seq<char>,
    pub game_name: Seq<char>,
    pub serial: Option<Seq<char>>,
    pub track_number: u32,
    pub track_mode: Seq<char>,
    pub size_bytes: i64,
}

pub struct SerialModel {
    pub system_id: Seq<char>,
    pub serial: Seq<char>,
    pub canonical_title: Seq<char>,
    pub region: Option<Seq<char>>,
}

pub struct DiscSetModel {
    pub canonical_title: Seq<char>,
    pub system_id: Seq<char>,
    pub disc_count: u32,
}

pub open spec fn hash_view(r: RomHashRow) -> HashModel {
    HashModel {
        sha1: r.sha1@,
        system_id: r.system_id@,
        game_name: r.game_name@,
        serial: opt_view(r.serial),
        crc32: opt_view(r.crc32),
        size_bytes: r.size_bytes,
    }
}

pub open spec fn track_view(r: RomTrackRow) -> TrackModel {
    TrackModel {
        sha1: r.sha1@,
        system_id: r.system_id@,
        game_name: r.game_name@,
        serial: opt_view(r.serial),
        track_number: r.track_number,
        track_mode: r.track_mode@,
        size_bytes: r.size_bytes,
    }
}

pub open spec fn serial_view(r: GameSerialRow) -> SerialModel {
    SerialModel {
        system_id: r.system_id@,
        serial: r.serial@,
        canonical_title: r.canonical_title@,
        region: opt_view(r.region),
    }
}

pub open spec fn disc_set_view(r: DiscSetCandidate) -> DiscSetModel {
    DiscSetModel {
        canonical_title: r.canonical_title@,
        system_id: r.system_id@,
        disc_count: r.disc_count,
    }
}

// ---------------------------------------------------------------------
// libretro-database DAT: `rom ( ... )` lines
// ---------------------------------------------------------------------

/// The fields read from a `rom ( ... )` body so far.
pub struct RomFields {
    pub name: Option<Seq<char>>,
    pub sha1: Option<Seq<char>>,
    pub crc32: Option<Seq<char>>,
    pub size: Option<i64>,
}

pub open spec fn no_fields() -> RomFields {
    RomFields { name: None, sha1: None, crc32: None, size: None }
}

/// One `key value` pair of a `rom ( ... )` body: `name` as is, `sha1` and
/// `crc` ASCII lower-cased, `size` as an `i64`; other keys are passed
/// over. A later pair with the same key wins.
pub open spec fn field_step(f: RomFields, k: Seq<char>, v: Seq<char>) -> RomFields {
    if k == "name"@ {
        RomFields { name: Some(v), ..f }
    } else if k == "sha1"@ {
        RomFields { sha1: Some(ascii_lower(v)), ..f }
    } else if k == "crc"@ {
        RomFields { crc32: Some(ascii_lower(v)), ..f }
    } else if k == "size"@ {
        RomFields { size: parsed_i64(v), ..f }
    } else {
        f
    }
}

/// The fields read from the pairs of `s` from index `i` on, starting
/// from `f`.
pub open spec fn fields_from(f: RomFields, s: Seq<char>, i: int) -> RomFields
    decreases s.len() - i,
{
    match pair_at(s, i) {
        None => f,
        Some((k, v, n)) => if i < n <= s.len() {
            fields_from(field_step(f, k, v), s, n)
        } else {
            f
        },
    }
}

/// `s` without trailing `)` characters.
pub open spec fn strip_close(s: Seq<char>) -> Seq<char>
    decreases s.len(),
{
    if s.len() > 0 && s.last() == ')' {
        strip_close(s.drop_last())
    } else {
        s
    }
}

/// The entry of a `rom (<rest>` line: the fields of its body; none
/// without a `sha1`; an absent name is empty.
pub open spec fn rom_entry(rest: Seq<char>) -> Option<PendingModel> {
    let f = fields_from(no_fields(), trim(strip_close(rest)), 0);
    match f.sha1 {
        Some(h) => Some(
            PendingModel {
                name: match f.name {
                    Some(n) => n,
                    None => Seq::empty(),
                },
                sha1: h,
                crc32: f.crc32,
                size_bytes: f.size,
            },
        ),
        None => None,
    }
}

/// A pending `rom ( ... )` entry.
pub struct PendingRom {
    pub name: Vec<char>,
    pub sha1: Vec<char>,
    pub crc32: Option<Vec<char>>,
    pub size_bytes: Option<i64>,
}

pub open spec fn pending_view(p: PendingRom) -> PendingModel {
    PendingModel {
        name: p.name@,
        sha1: p.sha1@,
        crc32: opt_vec_view(p.crc32),
        size_bytes: p.size_bytes,
    }
}

fn strip_close_vec(s: &[char]) -> (r: Vec<char>)
    ensures
        r@ == strip_close(s@),
{
    let mut e: usize = s.len();
    assert(s@.take(e as int) =~= s@);
    while e > 0 && s[e - 1] == ')'
        invariant
            e <= s.len(),
            strip_close(s@) == strip_close(s@.take(e as int)),
        decreases e,
    {
        assert(s@.take(e as int).drop_last() =~= s@.take(e - 1));
        e -= 1;
    }
    let r = crate::text::slice_to_vec(s, 0, e);
    assert(r@ =~= s@.take(e as int));
    r
}

/// The entry of a `rom (<rest>` line.
fn read_rom_entry(rest: &[char]) -> (r: Option<PendingRom>)
    ensures
        match rom_entry(rest@) {
            None => r is None,
            Some(p) => r matches Some(x) && pending_view(x) == p,
        },
{
    let body = trim_vec(&strip_close_vec(rest));
    let mut name: Option<Vec<char>> = None;
    let mut sha1: Option<Vec<char>> = None;
    let mut crc32: Option<Vec<char>> = None;
    let mut size: Option<i64> = None;
    let mut pos: usize = 0;
    let k_name = chars_of("name");
    let k_sha1 = chars_of("sha1");
    let k_crc = chars_of("crc");
    let k_size = chars_of("size");
    loop
        invariant
            pos <= body.len(),
            k_name@ == "name"@,
            k_sha1@ == "sha1"@,
            k_crc@ == "crc"@,
            k_size@ == "size"@,
            fields_from(no_fields(), body@, 0) == fields_from(
                RomFields {
                    name: opt_vec_view(name),
                    sha1: opt_vec_view(sha1),
                    crc32: opt_vec_view(crc32),
                    size: size,
                },
                body@,
                pos as int,
            ),
        ensures
            fields_from(no_fields(), body@, 0) == (RomFields {
                name: opt_vec_view(name),
                sha1: opt_vec_view(sha1),
                crc32: opt_vec_view(crc32),
                size: size,
            }),
        decreases body.len() - pos,
    {
        match next_pair_in(&body, pos) {
            None => {
                break;
            },
            Some((k, v, n)) => {
                if crate::text::seq_eq(&k, &k_name) {
                    name = Some(v);
                } else if crate::text::seq_eq(&k, &k_sha1) {
                    sha1 = Some(lower_ascii(&v));
                } else if crate::text::seq_eq(&k, &k_crc) {
                    crc32 = Some(lower_ascii(&v));
                } else if crate::text::seq_eq(&k, &k_size) {
                    size = parse_i64(string_of(&v).as_str());
                }
                pos = n;
            },
        }
    }
    match sha1 {
        Some(h) => Some(
            PendingRom {
                name: match name {
                    Some(n) => n,
                    None => Vec::new(),
                },
                sha1: h,
                crc32,
                size_bytes: size,
            },
        ),
        None => None,
    }
}

// ---------------------------------------------------------------------
// libretro-database DAT: game blocks
// ---------------------------------------------------------------------

/// The hash row of a pending entry of game `name`.
pub open spec fn hash_of(p: PendingModel, sys: Seq<char>, name: Seq<char>, serial: Option<Seq<char>>) -> HashModel {
    HashModel {
        sha1: p.sha1,
        system_id: sys,
        game_name: name,
        serial: serial,
        crc32: p.crc32,
        size_bytes: p.size_bytes,
    }
}

/// The track row, if any, of the pending entry at 1-based position `pos`
/// of its block: none for side files and for entries without a size.
pub open spec fn track_of(p: PendingModel, pos: u32, sys: Seq<char>, name: Seq<char>, serial: Option<Seq<char>>) -> Seq<TrackModel> {
    let tn = track_number(p.name, pos);
    match (track_mode(p.name, tn), p.size_bytes) {
        (Some(m), Some(sz)) => seq![
            TrackModel {
                sha1: p.sha1,
                system_id: sys,
                game_name: name,
                serial: serial,
                track_number: tn,
                track_mode: m,
                size_bytes: sz,
            },
        ],
        _ => Seq::empty(),
    }
}

/// The track rows of a block's pending entries, in order.
pub open spec fn block_tracks(ps: Seq<PendingModel>, sys: Seq<char>, name: Seq<char>, serial: Option<Seq<char>>) -> Seq<TrackModel>
    decreases ps.len(),
{
    if ps.len() == 0 {
        Seq::empty()
    } else {
        block_tracks(ps.drop_last(), sys, name, serial) + track_of(
            ps.last(),
            ps.len() as u32,
            sys,
            name,
            serial,
        )
    }
}

/// The parser's state between lines.
#[verifier::ext_equal]
pub struct LibDat {
    pub in_game: bool,
    pub name: Option<Seq<char>>,
    pub serial: Option<Seq<char>>,
    pub pending: Seq<PendingModel>,
    pub hashes: Seq<HashModel>,
    pub tracks: Seq<TrackModel>,
    pub serials: Seq<SerialModel>,
    pub discs: Seq<(Seq<char>, u32)>,
}

pub open spec fn lib_start() -> LibDat {
    LibDat {
        in_game: false,
        name: None,
        serial: None,
        pending: Seq::empty(),
        hashes: Seq::empty(),
        tracks: Seq::empty(),
        serials: Seq::empty(),
        discs: Seq::empty(),
    }
}

/// The closing `)` of a game block: with a name, every pending entry
/// gives a hash row and possibly a track row, a non-empty serial gives a
/// serial row, and a `(Disc N)` name is noted; the block state is reset
/// either way.
pub open spec fn close_block(st: LibDat, sys: Seq<char>) -> LibDat {
    match st.name {
        None => LibDat { in_game: false, serial: None, pending: Seq::empty(), ..st },
        Some(nm) => LibDat {
            in_game: false,
            name: None,
            serial: None,
            pending: Seq::empty(),
            hashes: st.hashes + st.pending.map_values(|p: PendingModel| hash_of(p, sys, nm, st.serial)),
            tracks: st.tracks + block_tracks(st.pending, sys, nm, st.serial),
            serials: match st.serial {
                Some(sr) => if sr.len() > 0 {
                    st.serials.push(
                        SerialModel { system_id: sys, serial: sr, canonical_title: nm, region: None },
                    )
                } else {
                    st.serials
                },
                None => st.serials,
            },
            discs: match disc_candidate(nm) {
                Some(bn) => st.discs.push(bn),
                None => st.discs,
            },
        },
    }
}

/// One line of a libretro-database DAT for system `sys`.
pub open spec fn lib_step(st: LibDat, raw: Seq<char>, sys: Seq<char>) -> LibDat {
    let line = trim(raw);
    if starts_with(line, "game ("@) {
        LibDat { in_game: true, name: None, serial: None, pending: Seq::empty(), ..st }
    } else if !st.in_game {
        st
    } else if line == ")"@ {
        close_block(st, sys)
    } else if starts_with(line, "name "@) {
        LibDat { name: Some(unquoted_once(line.skip(5))), ..st }
    } else if starts_with(line, "serial "@) {
        LibDat { serial: Some(unquoted_once(line.skip(7))), ..st }
    } else if starts_with(line, "rom ("@) {
        match rom_entry(line.skip(5)) {
            Some(p) => LibDat { pending: st.pending.push(p), ..st },
            None => st,
        }
    } else {
        st
    }
}

/// The parser's state after the lines `ls`.
pub open spec fn lib_run(ls: Seq<Seq<char>>, sys: Seq<char>) -> LibDat
    decreases ls.len(),
{
    if ls.len() == 0 {
        lib_start()
    } else {
        lib_step(lib_run(ls.drop_last(), sys), ls.last(), sys)
    }
}

/// The rows of one closed block, appended to the running outputs.
fn emit_block(
    hashes: &mut Vec<RomHashRow>,
    tracks: &mut Vec<RomTrackRow>,
    pending: &Vec<PendingRom>,
    sys: &str,
    name: &Vec<char>,
    serial: &Option<Vec<char>>,
)
    requires
        pending.len() <= 0xFFFF_FFFF,
    ensures
        final(hashes)@.map_values(|r: RomHashRow| hash_view(r)) == old(hashes)@.map_values(
            |r: RomHashRow| hash_view(r),
        ) + pending@.map_values(|p: PendingRom| pending_view(p)).map_values(
            |p: PendingModel| hash_of(p, sys@, name@, opt_vec_view(*serial)),
        ),
        final(tracks)@.map_values(|r: RomTrackRow| track_view(r)) == old(tracks)@.map_values(
            |r: RomTrackRow| track_view(r),
        ) + block_tracks(
            pending@.map_values(|p: PendingRom| pending_view(p)),
            sys@,
            name@,
            opt_vec_view(*serial),
        ),
{
    let ghost ps = pending@.map_values(|p: PendingRom| pending_view(p));
    let ghost ser = opt_vec_view(*serial);
    let ghost h0 = hashes@.map_values(|r: RomHashRow| hash_view(r));
    let ghost t0 = tracks@.map_values(|r: RomTrackRow| track_view(r));
    let game = string_of(name);
    let mut i: usize = 0;
    assert(ps.take(0) =~= Seq::<PendingModel>::empty());
    while i < pending.len()
        invariant
            i <= pending.len() <= 0xFFFF_FFFF,
            ps == pending@.map_values(|p: PendingRom| pending_view(p)),
            ser == opt_vec_view(*serial),
            game@ == name@,
            hashes@.map_values(|r: RomHashRow| hash_view(r)) == h0 + ps.take(i as int).map_values(
                |p: PendingModel| hash_of(p, sys@, name@, ser),
            ),
            tracks@.map_values(|r: RomTrackRow| track_view(r)) == t0 + block_tracks(
                ps.take(i as int),
                sys@,
                name@,
                ser,
            ),
        decreases pending.len() - i,
    {
        let p = &pending[i];
        let ser_s: Option<String> = match serial {
            Some(v) => Some(string_of(v)),
            None => None,
        };
        let crc_s: Option<String> = match &p.crc32 {
            Some(v) => Some(string_of(v)),
            None => None,
        };
        let row = RomHashRow {
            sha1: string_of(&p.sha1),
            system_id: owned(sys),
            game_name: string_of(name),
            serial: ser_s,
            crc32: crc_s,
            size_bytes: p.size_bytes,
        };
        let ghost hv = hash_view(row);
        let ghost hb = hashes@;
        hashes.push(row);
        assert(hashes@.map_values(|r: RomHashRow| hash_view(r)) =~= hb.map_values(
            |r: RomHashRow| hash_view(r),
        ).push(hv));
        let pos: u32 = (i + 1) as u32;
        let p_name = string_of(&p.name);
        let tn = extract_track_number(p_name.as_str(), pos);
        let mode = derive_track_mode(p_name.as_str(), tn);
        let ghost before_tracks = tracks@;
        match (mode, p.size_bytes) {
            (Some(m), Some(sz)) => {
                let ser2: Option<String> = match serial {
                    Some(v) => Some(string_of(v)),
                    None => None,
                };
                tracks.push(
                    RomTrackRow {
                        sha1: string_of(&p.sha1),
                        system_id: owned(sys),
                        game_name: string_of(name),
                        serial: ser2,
                        track_number: tn,
                        track_mode: m,
                        size_bytes: sz,
                    },
                );
            },
            _ => {},
        }
        proof {
            let pm = ps[i as int];
            assert(pm == pending_view(pending@[i as int]));
            assert(hv == hash_of(pm, sys@, name@, ser));
            assert(ps.take(i + 1).drop_last() =~= ps.take(i as int));
            assert(ps.take(i + 1).last() == pm);
            assert(ps.take(i + 1).map_values(|p: PendingModel| hash_of(p, sys@, name@, ser)) =~= ps.take(
                i as int,
            ).map_values(|p: PendingModel| hash_of(p, sys@, name@, ser)).push(hash_of(pm, sys@, name@, ser)));
            assert(hashes@.map_values(|r: RomHashRow| hash_view(r)) =~= h0 + ps.take(i + 1).map_values(
                |p: PendingModel| hash_of(p, sys@, name@, ser),
            ));
            assert(ps.take(i + 1).len() as u32 == pos);
            assert(tracks@.map_values(|r: RomTrackRow| track_view(r)) =~= before_tracks.map_values(
                |r: RomTrackRow| track_view(r),
            ) + track_of(pm, pos, sys@, name@, ser));
        }
        i += 1;
    }
    assert(ps.take(pending.len() as int) =~= ps);
}

pub open spec fn disc_views(v: Seq<(Vec<char>, u32)>) -> Seq<(Seq<char>, u32)> {
    v.map_values(|d: (Vec<char>, u32)| (d.0@, d.1))
}

pub open spec fn lib_view(
    in_game: bool,
    name: Option<Vec<char>>,
    serial: Option<Vec<char>>,
    pending: Seq<PendingRom>,
    hashes: Seq<RomHashRow>,
    tracks: Seq<RomTrackRow>,
    serials: Seq<GameSerialRow>,
    discs: Seq<(Vec<char>, u32)>,
) -> LibDat {
    LibDat {
        in_game,
        name: opt_vec_view(name),
        serial: opt_vec_view(serial),
        pending: pending.map_values(|p: PendingRom| pending_view(p)),
        hashes: hashes.map_values(|r: RomHashRow| hash_view(r)),
        tracks: tracks.map_values(|r: RomTrackRow| track_view(r)),
        serials: serials.map_values(|r: GameSerialRow| serial_view(r)),
        discs: disc_views(discs),
    }
}

/// No game block of the DAT lines `ls` holds more `rom` entries than a
/// `u32` position can count.
pub open spec fn blocks_fit(ls: Seq<Seq<char>>, sys: Seq<char>) -> bool {
    forall|k: int| 0 <= k <= ls.len() ==> (#[trigger] lib_run(ls.take(k), sys)).pending.len() <= 0xFFFF_FFFF
}

/// The rows of a DAT before serial de-duplication and disc grouping: the
/// state `lib_run` reaches over its lines.
fn parse_dat_lines(content: &str, system_id: &str) -> (r: (
    Vec<RomHashRow>,
    Vec<GameSerialRow>,
    Vec<RomTrackRow>,
    Vec<(Vec<char>, u32)>,
))
    requires
        blocks_fit(lines(content@), system_id@),
    ensures
        ({
            let st = lib_run(lines(content@), system_id@);
            &&& r.0@.map_values(|x: RomHashRow| hash_view(x)) == st.hashes
            &&& r.1@.map_values(|x: GameSerialRow| serial_view(x)) == st.serials
            &&& r.2@.map_values(|x: RomTrackRow| track_view(x)) == st.tracks
            &&& disc_views(r.3@) == st.discs
        }),
{
    let cs = chars_of(content);
    let ls = lines_of(&cs);
    let ghost all = lines(content@);
    let ghost sys = system_id@;
    let game_open = chars_of("game (");
    let close = chars_of(")");
    let name_key = chars_of("name ");
    let serial_key = chars_of("serial ");
    let rom_key = chars_of("rom (");
    let mut in_game = false;
    let mut name: Option<Vec<char>> = None;
    let mut serial: Option<Vec<char>> = None;
    let mut pending: Vec<PendingRom> = Vec::new();
    let mut hashes: Vec<RomHashRow> = Vec::new();
    let mut tracks: Vec<RomTrackRow> = Vec::new();
    let mut serials: Vec<GameSerialRow> = Vec::new();
    let mut discs: Vec<(Vec<char>, u32)> = Vec::new();
    let mut i: usize = 0;
    assert(all.take(0) =~= Seq::<Seq<char>>::empty());
    proof {
        assert(lib_view(in_game, name, serial, pending@, hashes@, tracks@, serials@, discs@) =~= lib_start());
    }
    while i < ls.len()
        invariant
            i <= ls.len(),
            views(ls@) == all,
            all == lines(content@),
            blocks_fit(all, sys),
            sys == system_id@,
            game_open@ == "game ("@,
            close@ == ")"@,
            name_key@ == "name "@,
            serial_key@ == "serial "@,
            rom_key@ == "rom ("@,
            lib_run(all.take(i as int), sys) == lib_view(
                in_game,
                name,
                serial,
                pending@,
                hashes@,
                tracks@,
                serials@,
                discs@,
            ),
        decreases ls.len() - i,
    {
        proof {
            assert(ls@[i as int]@ == all[i as int]);
            assert(all.take(i + 1).drop_last() =~= all.take(i as int));
            assert(all.take(i + 1).last() == all[i as int]);
        }
        let ghost st = lib_run(all.take(i as int), sys);
        let line = trim_vec(&ls[i]);
        if has_prefix(&line, &game_open) {
            in_game = true;
            name = None;
            serial = None;
            pending = Vec::new();
            proof {
                assert(lib_view(in_game, name, serial, pending@, hashes@, tracks@, serials@, discs@)
                    =~= lib_step(st, all[i as int], sys));
            }
        } else if !in_game {
        } else if crate::text::seq_eq(&line, &close) {
            in_game = false;
            match name {
                None => {
                    serial = None;
                    pending = Vec::new();
                    proof {
                        assert(lib_view(in_game, name, serial, pending@, hashes@, tracks@, serials@, discs@)
                            =~= lib_step(st, all[i as int], sys));
                    }
                },
                Some(nm) => {
                    emit_block(&mut hashes, &mut tracks, &pending, system_id, &nm, &serial);
                    let ghost serials_before = serials@;
                    match &serial {
                        Some(sr) => {
                            if sr.len() > 0 {
                                serials.push(
                                    GameSerialRow {
                                        system_id: owned(system_id),
                                        serial: string_of(sr),
                                        canonical_title: string_of(&nm),
                                        region: None,
                                    },
                                );
                            }
                        },
                        None => {},
                    }
                    let ghost discs_before = discs@;
                    match extract_disc_set_candidate(string_of(&nm).as_str()) {
                        Some((b, n)) => {
                            discs.push((chars_of(b.as_str()), n));
                        },
                        None => {},
                    }
                    name = None;
                    serial = None;
                    pending = Vec::new();
                    proof {
                        assert(serials@.map_values(|r: GameSerialRow| serial_view(r)) =~= lib_step(
                            st,
                            all[i as int],
                            sys,
                        ).serials);
                        assert(disc_views(discs@) =~= lib_step(st, all[i as int], sys).discs);
                        assert(lib_view(in_game, name, serial, pending@, hashes@, tracks@, serials@, discs@)
                            =~= lib_step(st, all[i as int], sys));
                    }
                },
            }
        } else if has_prefix(&line, &name_key) {
            proof {
                reveal_strlit("name ");
            }
            let rest = crate::text::slice_to_vec(&line, 5, line.len());
            assert(rest@ =~= line@.skip(5));
            name = Some(unquote_once(&rest));
            proof {
                assert(lib_view(in_game, name, serial, pending@, hashes@, tracks@, serials@, discs@)
                    =~= lib_step(st, all[i as int], sys));
            }
        } else if has_prefix(&line, &serial_key) {
            proof {
                reveal_strlit("serial ");
            }
            let rest = crate::text::slice_to_vec(&line, 7, line.len());
            assert(rest@ =~= line@.skip(7));
            serial = Some(unquote_once(&rest));
            proof {
                assert(lib_view(in_game, name, serial, pending@, hashes@, tracks@, serials@, discs@)
                    =~= lib_step(st, all[i as int], sys));
            }
        } else if has_prefix(&line, &rom_key) {
            proof {
                reveal_strlit("rom (");
            }
            let rest = crate::text::slice_to_vec(&line, 5, line.len());
            assert(rest@ =~= line@.skip(5));
            match read_rom_entry(&rest) {
                Some(p) => {
                    pending.push(p);
                },
                None => {},
            }
            proof {
                assert(lib_view(in_game, name, serial, pending@, hashes@, tracks@, serials@, discs@)
                    =~= lib_step(st, all[i as int], sys));
            }
        }
        i += 1;
    }
    assert(all.take(ls.len() as int) =~= all);
    (hashes, serials, tracks, discs)
}

// ---------------------------------------------------------------------
// libretro-database DAT: serial de-duplication
// ---------------------------------------------------------------------

/// `ss` with each (system, serial) kept at its first occurrence only.
pub open spec fn dedup_serials(ss: Seq<SerialModel>) -> Seq<SerialModel>
    decreases ss.len(),
{
    if ss.len() == 0 {
        Seq::empty()
    } else {
        let d = dedup_serials(ss.drop_last());
        let x = ss.last();
        if exists|j: int|
            0 <= j < d.len() && (#[trigger] d[j]).system_id == x.system_id && d[j].serial == x.serial {
            d
        } else {
            d.push(x)
        }
    }
}

fn clone_opt_string(o: &Option<String>) -> (r: Option<String>)
    ensures
        opt_view(r) == opt_view(*o),
{
    match o {
        Some(s) => Some(s.clone()),
        None => None,
    }
}

fn clone_serial_row(r: &GameSerialRow) -> (c: GameSerialRow)
    ensures
        serial_view(c) == serial_view(*r),
{
    GameSerialRow {
        system_id: r.system_id.clone(),
        serial: r.serial.clone(),
        canonical_title: r.canonical_title.clone(),
        region: clone_opt_string(&r.region),
    }
}

/// The serial rows with each (system, serial) kept at its first
/// occurrence only.
pub fn dedupe_game_serials(rows: &Vec<GameSerialRow>) -> (r: Vec<GameSerialRow>)
    ensures
        r@.map_values(|x: GameSerialRow| serial_view(x)) == dedup_serials(
            rows@.map_values(|x: GameSerialRow| serial_view(x)),
        ),
{
    let ghost ss = rows@.map_values(|x: GameSerialRow| serial_view(x));
    let mut out: Vec<GameSerialRow> = Vec::new();
    let mut i: usize = 0;
    assert(ss.take(0) =~= Seq::<SerialModel>::empty());
    while i < rows.len()
        invariant
            i <= rows.len(),
            ss == rows@.map_values(|x: GameSerialRow| serial_view(x)),
            out@.map_values(|x: GameSerialRow| serial_view(x)) == dedup_serials(ss.take(i as int)),
        decreases rows.len() - i,
    {
        let ghost d = out@.map_values(|x: GameSerialRow| serial_view(x));
        let ghost x = ss[i as int];
        assert(ss.take(i + 1).drop_last() =~= ss.take(i as int));
        assert(ss.take(i + 1).last() == x);
        let mut j: usize = 0;
        let mut seen = false;
        while j < out.len()
            invariant_except_break
                !seen,
            invariant
                j <= out.len(),
                d == out@.map_values(|x: GameSerialRow| serial_view(x)),
                x == serial_view(rows@[i as int]),
                i < rows.len(),
                forall|q: int| 0 <= q < j ==> !((#[trigger] d[q]).system_id == x.system_id && d[q].serial == x.serial),
            ensures
                seen ==> exists|q: int| 0 <= q < d.len() && (#[trigger] d[q]).system_id == x.system_id && d[q].serial == x.serial,
                !seen ==> forall|q: int| 0 <= q < d.len() ==> !((#[trigger] d[q]).system_id == x.system_id && d[q].serial == x.serial),
            decreases out.len() - j,
        {
            if out[j].system_id == rows[i].system_id && out[j].serial == rows[i].serial {
                seen = true;
                assert(d[j as int].system_id == x.system_id && d[j as int].serial == x.serial);
                break;
            }
            j += 1;
        }
        if !seen {
            let c = clone_serial_row(&rows[i]);
            out.push(c);
            assert(out@.map_values(|x: GameSerialRow| serial_view(x)) =~= d.push(x));
        }
        i += 1;
    }
    assert(ss.take(rows.len() as int) =~= ss);
    out
}

// ---------------------------------------------------------------------
// libretro-database DAT: multi-disc sets
// ---------------------------------------------------------------------

/// Disc `n` of base title `t` occurs among the noted `(Disc N)` titles.
pub open spec fn disc_in(discs: Seq<(Seq<char>, u32)>, t: Seq<char>, n: u32) -> bool {
    exists|i: int| 0 <= i < discs.len() && #[trigger] discs[i] == (t, n)
}

/// Base title `t` has at least two distinct disc numbers.
pub open spec fn disc_set(discs: Seq<(Seq<char>, u32)>, t: Seq<char>) -> bool {
    exists|a: u32, b: u32| a != b && #[trigger] disc_in(discs, t, a) && #[trigger] disc_in(discs, t, b)
}

/// `m` is the highest disc number noted for base title `t`.
pub open spec fn disc_max(discs: Seq<(Seq<char>, u32)>, t: Seq<char>, m: u32) -> bool {
    disc_in(discs, t, m) && forall|n: u32| #[trigger] disc_in(discs, t, n) ==> n <= m
}

/// The multi-disc sets of noted `(Disc N)` titles: one per base title
/// with at least two distinct disc numbers, counting the highest, in
/// increasing order of title.
pub open spec fn disc_sets_of(out: Seq<DiscSetModel>, discs: Seq<(Seq<char>, u32)>, sys: Seq<char>) -> bool {
    &&& forall|i: int, j: int|
        0 <= i < j < out.len() ==> lex_lt(#[trigger] out[i].canonical_title, #[trigger] out[j].canonical_title)
    &&& forall|i: int|
        0 <= i < out.len() ==> (#[trigger] out[i]).system_id == sys && disc_set(discs, out[i].canonical_title)
            && disc_max(discs, out[i].canonical_title, out[i].disc_count)
    &&& forall|t: Seq<char>|
        #[trigger] disc_set(discs, t) ==> exists|i: int| 0 <= i < out.len() && (#[trigger] out[i]).canonical_title == t
}

/// The highest disc number noted for `t`, and whether some other number is
/// noted for it.
fn disc_numbers(discs: &Vec<(Vec<char>, u32)>, t: &Vec<char>, first: u32) -> (r: (u32, bool))
    requires
        disc_in(disc_views(discs@), t@, first),
    ensures
        disc_max(disc_views(discs@), t@, r.0),
        r.1 == disc_set(disc_views(discs@), t@),
{
    let ghost dv = disc_views(discs@);
    let mut m: u32 = first;
    let mut other = false;
    let mut i: usize = 0;
    while i < discs.len()
        invariant
            i <= discs.len(),
            dv == disc_views(discs@),
            disc_in(dv, t@, first),
            disc_in(dv, t@, m),
            first <= m,
            forall|j: int| 0 <= j < i && (#[trigger] dv[j]).0 == t@ ==> dv[j].1 <= m,
            other <==> exists|j: int| 0 <= j < i && (#[trigger] dv[j]).0 == t@ && dv[j].1 != first,
        decreases discs.len() - i,
    {
        assert(dv[i as int] == (discs@[i as int].0@, discs@[i as int].1));
        if crate::text::seq_eq(&discs[i].0, t) {
            let n = discs[i].1;
            assert(dv[i as int] == (t@, n));
            assert(disc_in(dv, t@, n));
            if n > m {
                m = n;
            }
            if n != first {
                other = true;
            }
        }
        i += 1;
    }
    proof {
        assert forall|n: u32| #[trigger] disc_in(dv, t@, n) implies n <= m by {
            let j = choose|j: int| 0 <= j < dv.len() && #[trigger] dv[j] == (t@, n);
            assert(dv[j].0 == t@);
        }
        if other {
            let j = choose|j: int| 0 <= j < i && (#[trigger] dv[j]).0 == t@ && dv[j].1 != first;
            assert(dv[j] == (t@, dv[j].1));
            assert(disc_in(dv, t@, dv[j].1));
            assert(disc_in(dv, t@, first) && disc_in(dv, t@, dv[j].1) && first != dv[j].1);
        }
        if disc_set(dv, t@) {
            let (a, b) = choose|a: u32, b: u32| a != b && #[trigger] disc_in(dv, t@, a) && #[trigger] disc_in(dv, t@, b);
            let n = if a != first { a } else { b };
            assert(disc_in(dv, t@, n) && n != first);
            let j = choose|j: int| 0 <= j < dv.len() && #[trigger] dv[j] == (t@, n);
            assert(dv[j].0 == t@ && dv[j].1 != first);
        }
    }
    (m, other)
}

/// The multi-disc sets of the noted `(Disc N)` titles of system
/// `system_id`, ordered by title.
pub fn disc_set_candidates(discs: &Vec<(Vec<char>, u32)>, system_id: &str) -> (r: Vec<DiscSetCandidate>)
    ensures
        disc_sets_of(r@.map_values(|x: DiscSetCandidate| disc_set_view(x)), disc_views(discs@), system_id@),
{
    let ghost dv = disc_views(discs@);
    let mut out: Vec<(Vec<char>, u32)> = Vec::new();
    let mut k: usize = 0;
    while k < discs.len()
        invariant
            k <= discs.len(),
            dv == disc_views(discs@),
            forall|i: int, j: int|
                0 <= i < j < out.len() ==> lex_lt(#[trigger] out@[i].0@, #[trigger] out@[j].0@),
            forall|i: int|
                0 <= i < out.len() ==> disc_set(dv, (#[trigger] out@[i]).0@) && disc_max(dv, out@[i].0@, out@[i].1),
            forall|j: int|
                0 <= j < k && disc_set(dv, (#[trigger] dv[j]).0) ==> exists|i: int| 0 <= i < out.len() && (#[trigger] out@[i]).0@ == dv[j].0,
        decreases discs.len() - k,
    {
        let t = &discs[k].0;
        assert(dv[k as int] == (t@, discs@[k as int].1));
        // Already listed?
        let mut p: usize = 0;
        let mut listed = false;
        while p < out.len()
            invariant_except_break
                !listed,
            invariant
                p <= out.len(),
                forall|q: int| 0 <= q < p ==> (#[trigger] out@[q]).0@ != t@,
            ensures
                listed ==> exists|q: int| 0 <= q < out.len() && (#[trigger] out@[q]).0@ == t@,
                !listed ==> forall|q: int| 0 <= q < out.len() ==> (#[trigger] out@[q]).0@ != t@,
            decreases out.len() - p,
        {
            if crate::text::seq_eq(&out[p].0, t) {
                listed = true;
                break;
            }
            p += 1;
        }
        if !listed {
            proof {
                assert(disc_in(dv, t@, discs@[k as int].1));
            }
            let (m, two) = disc_numbers(discs, t, discs[k].1);
            if two {
                // Insertion point: the first listed title above `t`.
                let mut q: usize = 0;
                while q < out.len() && !lex_less(t, &out[q].0)
                    invariant
                        q <= out.len(),
                        forall|z: int| 0 <= z < q ==> lex_lt((#[trigger] out@[z]).0@, t@),
                        forall|z: int| 0 <= z < out.len() ==> (#[trigger] out@[z]).0@ != t@,
                    decreases out.len() - q,
                {
                    proof {
                        lemma_lex_lt_total(out@[q as int].0@, t@);
                    }
                    q += 1;
                }
                let ghost before = out@;
                let entry = (crate::text::slice_to_vec(t, 0, t.len()), m);
                assert(entry.0@ =~= t@);
                out.insert(q, entry);
                proof {
                    assert forall|i: int, j: int|
                        0 <= i < j < out.len() implies lex_lt(#[trigger] out@[i].0@, #[trigger] out@[j].0@) by {
                        if j < q {
                        } else if j == q {
                        } else if i < q {
                            if q < before.len() {
                                lemma_lex_lt_transitive(out@[i].0@, t@, before[q as int].0@);
                                if j - 1 > q {
                                    lemma_lex_lt_transitive(out@[i].0@, before[q as int].0@, before[j - 1].0@);
                                }
                            }
                        } else if i == q {
                            if j - 1 > q {
                                lemma_lex_lt_transitive(t@, before[q as int].0@, before[j - 1].0@);
                            }
                        } else {
                        }
                    }
                    assert forall|j: int|
                        0 <= j <= k && disc_set(dv, (#[trigger] dv[j]).0) implies exists|i: int| 0 <= i < out.len() && (#[trigger] out@[i]).0@ == dv[j].0 by {
                        if j == k {
                            assert(out@[q as int].0@ == dv[j].0);
                        } else {
                            let i0 = choose|i: int| 0 <= i < before.len() && (#[trigger] before[i]).0@ == dv[j].0;
                            if i0 < q {
                                assert(out@[i0].0@ == dv[j].0);
                            } else {
                                assert(out@[i0 + 1].0@ == dv[j].0);
                            }
                        }
                    }
                }
            } else {
                proof {
                    assert forall|j: int|
                        0 <= j <= k && disc_set(dv, (#[trigger] dv[j]).0) implies exists|i: int| 0 <= i < out.len() && (#[trigger] out@[i]).0@ == dv[j].0 by {
                        if j == k {
                            assert(false);
                        }
                    }
                }
            }
        } else {
            proof {
                assert forall|j: int|
                    0 <= j <= k && disc_set(dv, (#[trigger] dv[j]).0) implies exists|i: int| 0 <= i < out.len() && (#[trigger] out@[i]).0@ == dv[j].0 by {
                    if j == k {
                        let q0 = choose|q: int| 0 <= q < out.len() && (#[trigger] out@[q]).0@ == t@;
                        assert(out@[q0].0@ == dv[j].0);
                    }
                }
            }
        }
        k += 1;
    }
    // Every set title is one of the noted titles.
    let mut r: Vec<DiscSetCandidate> = Vec::new();
    let mut i: usize = 0;
    while i < out.len()
        invariant
            i <= out.len(),
            r@.len() == i,
            forall|z: int|
                0 <= z < i ==> (#[trigger] r@[z]).canonical_title@ == out@[z].0@ && r@[z].system_id@
                    == system_id@ && r@[z].disc_count == out@[z].1,
        decreases out.len() - i,
    {
        r.push(
            DiscSetCandidate {
                canonical_title: string_of(&out[i].0),
                system_id: owned(system_id),
                disc_count: out[i].1,
            },
        );
        i += 1;
    }
    proof {
        let rv = r@.map_values(|x: DiscSetCandidate| disc_set_view(x));
        assert forall|t: Seq<char>| #[trigger] disc_set(dv, t) implies exists|z: int| 0 <= z < rv.len() && (#[trigger] rv[z]).canonical_title == t by {
            let (a, b) = choose|a: u32, b: u32| a != b && #[trigger] disc_in(dv, t, a) && #[trigger] disc_in(dv, t, b);
            let j = choose|j: int| 0 <= j < dv.len() && #[trigger] dv[j] == (t, a);
            assert(dv[j].0 == t);
            let z = choose|z: int| 0 <= z < out.len() && (#[trigger] out@[z]).0@ == dv[j].0;
            assert(rv[z].canonical_title == t);
        }
        assert forall|x: int, y: int| 0 <= x < y < rv.len() implies lex_lt(#[trigger] rv[x].canonical_title, #[trigger] rv[y].canonical_title) by {
            assert(lex_lt(out@[x].0@, out@[y].0@));
        }
        assert forall|x: int| 0 <= x < rv.len() implies (#[trigger] rv[x]).system_id == system_id@ && disc_set(dv, rv[x].canonical_title)
            && disc_max(dv, rv[x].canonical_title, rv[x].disc_count) by {
            assert(disc_set(dv, out@[x].0@));
        }
    }
    r
}

/// Parse a libretro-database clrmamepro DAT for system `system_id`: one
/// hash row per `rom ( ... sha1 ... )` of a named game block, one serial
/// row per (system, serial) at its first non-empty occurrence, one track
/// row per non-side-file entry with a size, and the multi-disc sets of
/// the `(Disc N)` titles. The header block and unknown lines give
/// nothing.
pub fn parse_libretro_dat(content: &str, system_id: &str) -> (r: ParsedDat)
    requires
        blocks_fit(lines(content@), system_id@),
    ensures
        ({
            let st = lib_run(lines(content@), system_id@);
            &&& r.rom_hashes@.map_values(|x: RomHashRow| hash_view(x)) == st.hashes
            &&& r.game_serials@.map_values(|x: GameSerialRow| serial_view(x)) == dedup_serials(st.serials)
            &&& r.rom_hashes_tracks@.map_values(|x: RomTrackRow| track_view(x)) == st.tracks
            &&& disc_sets_of(
                r.disc_set_candidates@.map_values(|x: DiscSetCandidate| disc_set_view(x)),
                st.discs,
                system_id@,
            )
        }),
{
    let (rom_hashes, serials, rom_hashes_tracks, discs) = parse_dat_lines(content, system_id);
    let game_serials = dedupe_game_serials(&serials);
    let disc_set_candidates = disc_set_candidates(&discs, system_id);
    ParsedDat { rom_hashes, game_serials, rom_hashes_tracks, disc_set_candidates }
}

// ---------------------------------------------------------------------
// libretro-database DAT: several DATs of one system
// ---------------------------------------------------------------------

/// The hash rows of several DATs, one after the other.
pub open spec fn all_hashes(parts: Seq<ParsedDat>) -> Seq<RomHashRow>
    decreases parts.len(),
{
    if parts.len() == 0 {
        Seq::empty()
    } else {
        all_hashes(parts.drop_last()) + parts.last().rom_hashes@
    }
}

/// The serial rows of several DATs, one after the other.
pub open spec fn all_serials(parts: Seq<ParsedDat>) -> Seq<GameSerialRow>
    decreases parts.len(),
{
    if parts.len() == 0 {
        Seq::empty()
    } else {
        all_serials(parts.drop_last()) + parts.last().game_serials@
    }
}

/// The track rows of several DATs, one after the other.
pub open spec fn all_tracks(parts: Seq<ParsedDat>) -> Seq<RomTrackRow>
    decreases parts.len(),
{
    if parts.len() == 0 {
        Seq::empty()
    } else {
        all_tracks(parts.drop_last()) + parts.last().rom_hashes_tracks@
    }
}

/// The multi-disc sets of several DATs, one after the other.
pub open spec fn all_disc_sets(parts: Seq<ParsedDat>) -> Seq<DiscSetCandidate>
    decreases parts.len(),
{
    if parts.len() == 0 {
        Seq::empty()
    } else {
        all_disc_sets(parts.drop_last()) + parts.last().disc_set_candidates@
    }
}

/// Two multi-disc sets name the same game of the same system.
pub open spec fn same_set(a: DiscSetCandidate, b: DiscSetCandidate) -> bool {
    a.system_id@ == b.system_id@ && a.canonical_title@ == b.canonical_title@
}

/// Order of multi-disc sets: by system, then by title.
pub open spec fn set_key_lt(a: DiscSetCandidate, b: DiscSetCandidate) -> bool {
    lex_lt(a.system_id@, b.system_id@) || (a.system_id@ == b.system_id@ && lex_lt(
        a.canonical_title@,
        b.canonical_title@,
    ))
}

/// Some set of `out` is the game of `c`.
pub open spec fn set_listed(out: Seq<DiscSetCandidate>, c: DiscSetCandidate) -> bool {
    exists|k: int| 0 <= k < out.len() && same_set(#[trigger] out[k], c)
}

/// `o`'s disc count is the highest that `ins` notes for its game.
pub open spec fn highest_count(ins: Seq<DiscSetCandidate>, o: DiscSetCandidate) -> bool {
    &&& exists|i: int| 0 <= i < ins.len() && same_set(#[trigger] ins[i], o) && ins[i].disc_count == o.disc_count
    &&& forall|i: int| 0 <= i < ins.len() && same_set(#[trigger] ins[i], o) ==> ins[i].disc_count <= o.disc_count
}

/// `out` holds one set per game of `ins`, with its highest disc count, by
/// system and then title.
pub open spec fn merged_sets(out: Seq<DiscSetCandidate>, ins: Seq<DiscSetCandidate>) -> bool {
    &&& forall|a: int, b: int| 0 <= a < b < out.len() ==> set_key_lt(#[trigger] out[a], #[trigger] out[b])
    &&& forall|k: int| 0 <= k < out.len() ==> #[trigger] highest_count(ins, out[k])
    &&& forall|i: int| 0 <= i < ins.len() ==> #[trigger] set_listed(out, ins[i])
}

fn set_key_less(a: &DiscSetCandidate, b: &DiscSetCandidate) -> (r: bool)
    ensures
        r == set_key_lt(*a, *b),
{
    let asys = chars_of(a.system_id.as_str());
    let bsys = chars_of(b.system_id.as_str());
    if lex_less(&asys, &bsys) {
        true
    } else if crate::text::seq_eq(&asys, &bsys) {
        lex_less(&chars_of(a.canonical_title.as_str()), &chars_of(b.canonical_title.as_str()))
    } else {
        false
    }
}

proof fn lemma_set_key_total(a: DiscSetCandidate, b: DiscSetCandidate)
    requires
        !same_set(a, b),
    ensures
        set_key_lt(a, b) || set_key_lt(b, a),
{
    if a.system_id@ != b.system_id@ {
        lemma_lex_lt_total(a.system_id@, b.system_id@);
    } else {
        lemma_lex_lt_total(a.canonical_title@, b.canonical_title@);
    }
}

proof fn lemma_set_key_transitive(a: DiscSetCandidate, b: DiscSetCandidate, c: DiscSetCandidate)
    requires
        set_key_lt(a, b),
        set_key_lt(b, c),
    ensures
        set_key_lt(a, c),
{
    if lex_lt(a.system_id@, b.system_id@) && lex_lt(b.system_id@, c.system_id@) {
        lemma_lex_lt_transitive(a.system_id@, b.system_id@, c.system_id@);
    } else if a.system_id@ == b.system_id@ && b.system_id@ == c.system_id@ {
        lemma_lex_lt_transitive(a.canonical_title@, b.canonical_title@, c.canonical_title@);
    }
}

proof fn lemma_set_key_irreflexive(a: DiscSetCandidate, b: DiscSetCandidate)
    requires
        same_set(a, b),
    ensures
        !set_key_lt(a, b),
{
    crate::text::lemma_lex_lt_irreflexive(a.system_id@);
    crate::text::lemma_lex_lt_irreflexive(a.canonical_title@);
}

/// Merge the multi-disc sets noted by several DATs: one per game, with the
/// highest disc count noted, ordered by system and then title.
pub fn merge_disc_sets(ins: &Vec<DiscSetCandidate>) -> (r: Vec<DiscSetCandidate>)
    ensures
        merged_sets(r@, ins@),
{
    let mut out: Vec<DiscSetCandidate> = Vec::new();
    let mut i: usize = 0;
    while i < ins.len()
        invariant
            i <= ins.len(),
            forall|a: int, b: int| 0 <= a < b < out.len() ==> set_key_lt(#[trigger] out@[a], #[trigger] out@[b]),
            forall|k: int| 0 <= k < out.len() ==> #[trigger] highest_count(ins@.take(i as int), out@[k]),
            forall|j: int| 0 <= j < i ==> #[trigger] set_listed(out@, ins@[j]),
        decreases ins.len() - i,
    {
        let c = &ins[i];
        let ghost seen = ins@.take(i as int);
        let ghost next = ins@.take(i + 1);
        assert(next =~= seen.push(*c));
        let mut q: usize = 0;
        while q < out.len() && set_key_less(&out[q], c)
            invariant
                q <= out.len(),
                forall|z: int| 0 <= z < q ==> set_key_lt(#[trigger] out@[z], *c),
            decreases out.len() - q,
        {
            q += 1;
        }
        let ghost before = out@;
        let present = q < out.len() && str_eq(out[q].system_id.as_str(), c.system_id.as_str()) && str_eq(
            out[q].canonical_title.as_str(),
            c.canonical_title.as_str(),
        );
        if present {
            let keep = if c.disc_count > out[q].disc_count { c.disc_count } else { out[q].disc_count };
            let merged = DiscSetCandidate {
                canonical_title: out[q].canonical_title.clone(),
                system_id: out[q].system_id.clone(),
                disc_count: keep,
            };
            out.set(q, merged);
            proof {
                assert(out@ == before.update(q as int, merged));
                assert forall|a: int, b: int| 0 <= a < b < out.len() implies set_key_lt(
                    #[trigger] out@[a],
                    #[trigger] out@[b],
                ) by {
                    assert(same_set(out@[a], before[a]) && same_set(out@[b], before[b]));
                    assert(set_key_lt(before[a], before[b]));
                }
                assert forall|k: int| 0 <= k < out.len() implies #[trigger] highest_count(next, out@[k]) by {
                    assert(highest_count(seen, before[k]));
                    if k == q {
                        let w = choose|w: int| 0 <= w < seen.len() && same_set(#[trigger] seen[w], before[k])
                            && seen[w].disc_count == before[k].disc_count;
                        if c.disc_count > before[k].disc_count {
                            assert(same_set(next[i as int], out@[k]) && next[i as int].disc_count == out@[k].disc_count);
                        } else {
                            assert(same_set(next[w], out@[k]) && next[w].disc_count == out@[k].disc_count);
                        }
                        assert forall|j: int| 0 <= j < next.len() && same_set(#[trigger] next[j], out@[k]) implies next[j].disc_count
                            <= out@[k].disc_count by {
                            if j < i {
                                assert(next[j] == seen[j]);
                            }
                        }
                    } else {
                        assert(out@[k] == before[k]);
                        let w = choose|w: int| 0 <= w < seen.len() && same_set(#[trigger] seen[w], before[k])
                            && seen[w].disc_count == before[k].disc_count;
                        assert(next[w] == seen[w]);
                        assert forall|j: int| 0 <= j < next.len() && same_set(#[trigger] next[j], out@[k]) implies next[j].disc_count
                            <= out@[k].disc_count by {
                            if j < i {
                                assert(next[j] == seen[j]);
                            } else {
                                // `c` is the game at `q`, not at `k`.
                                if k < q {
                                    assert(set_key_lt(before[k], before[q as int]));
                                    lemma_set_key_irreflexive(before[k], *c);
                                    assert(same_set(before[q as int], *c));
                                } else {
                                    assert(set_key_lt(before[q as int], before[k]));
                                    lemma_set_key_irreflexive(before[q as int], before[k]);
                                }
                            }
                        }
                    }
                }
                assert forall|j: int| 0 <= j < i + 1 implies #[trigger] set_listed(out@, ins@[j]) by {
                    if j == i {
                        assert(same_set(out@[q as int], ins@[j]));
                    } else {
                        assert(set_listed(before, ins@[j]));
                        let k = choose|k: int| 0 <= k < before.len() && same_set(#[trigger] before[k], ins@[j]);
                        assert(same_set(out@[k], ins@[j]));
                    }
                }
            }
        } else {
            proof {
                if q < out.len() {
                    lemma_set_key_total(out@[q as int], *c);
                }
                assert forall|z: int| 0 <= z < out.len() implies !same_set(#[trigger] out@[z], *c) by {
                    if z < q {
                        if same_set(out@[z], *c) {
                            lemma_set_key_irreflexive(out@[z], *c);
                        }
                    } else {
                        if z > q {
                            lemma_set_key_transitive(*c, out@[q as int], out@[z]);
                        }
                        if same_set(out@[z], *c) {
                            lemma_set_key_irreflexive(*c, out@[z]);
                        }
                    }
                }
            }
            let fresh = DiscSetCandidate {
                canonical_title: c.canonical_title.clone(),
                system_id: c.system_id.clone(),
                disc_count: c.disc_count,
            };
            out.insert(q, fresh);
            proof {
                assert(same_set(fresh, *c));
                assert forall|a: int, b: int| 0 <= a < b < out.len() implies set_key_lt(
                    #[trigger] out@[a],
                    #[trigger] out@[b],
                ) by {
                    if b < q {
                        assert(out@[a] == before[a] && out@[b] == before[b]);
                    } else if b == q {
                        assert(out@[a] == before[a]);
                        assert(set_key_lt(before[a], *c));
                    } else if a < q {
                        assert(out@[a] == before[a] && out@[b] == before[b - 1]);
                        lemma_set_key_transitive(before[a], *c, before[q as int]);
                        if b - 1 > q {
                            lemma_set_key_transitive(before[a], before[q as int], before[b - 1]);
                        }
                    } else if a == q {
                        assert(out@[b] == before[b - 1]);
                        if b - 1 > q {
                            lemma_set_key_transitive(*c, before[q as int], before[b - 1]);
                        }
                    } else {
                        assert(out@[a] == before[a - 1] && out@[b] == before[b - 1]);
                    }
                }
                assert forall|k: int| 0 <= k < out.len() implies #[trigger] highest_count(next, out@[k]) by {
                    if k == q {
                        assert(same_set(next[i as int], out@[k]) && next[i as int].disc_count == out@[k].disc_count);
                        assert forall|j: int| 0 <= j < next.len() && same_set(#[trigger] next[j], out@[k]) implies next[j].disc_count
                            <= out@[k].disc_count by {
                            if j < i {
                                assert(next[j] == seen[j]);
                                assert(set_listed(before, seen[j]));
                                let z = choose|z: int| 0 <= z < before.len() && same_set(#[trigger] before[z], seen[j]);
                                assert(!same_set(before[z], *c));
                            }
                        }
                    } else {
                        let b = if k < q { k } else { k - 1 };
                        assert(out@[k] == before[b]);
                        assert(highest_count(seen, before[b]));
                        let w = choose|w: int| 0 <= w < seen.len() && same_set(#[trigger] seen[w], before[b])
                            && seen[w].disc_count == before[b].disc_count;
                        assert(next[w] == seen[w]);
                        assert forall|j: int| 0 <= j < next.len() && same_set(#[trigger] next[j], out@[k]) implies next[j].disc_count
                            <= out@[k].disc_count by {
                            if j < i {
                                assert(next[j] == seen[j]);
                            } else {
                                assert(!same_set(before[b], *c));
                            }
                        }
                    }
                }
                assert forall|j: int| 0 <= j < i + 1 implies #[trigger] set_listed(out@, ins@[j]) by {
                    if j == i {
                        assert(same_set(out@[q as int], ins@[j]));
                    } else {
                        assert(set_listed(before, ins@[j]));
                        let k = choose|k: int| 0 <= k < before.len() && same_set(#[trigger] before[k], ins@[j]);
                        if k < q {
                            assert(out@[k] == before[k]);
                        } else {
                            assert(out@[k + 1] == before[k]);
                        }
                    }
                }
            }
        }
        i += 1;
    }
    assert(ins@.take(ins.len() as int) =~= ins@);
    out
}

/// Combine the DATs of one system, in order: their hash and track rows one
/// after the other, their serial rows with each (system, serial) kept at
/// its first occurrence, and their multi-disc sets merged. None when no
/// DAT was found.
pub fn merge_parsed_dats(parts: Vec<ParsedDat>) -> (r: Option<ParsedDat>)
    ensures
        parts.len() == 0 <==> r is None,
        r matches Some(m) ==> {
            &&& m.rom_hashes@ == all_hashes(parts@)
            &&& m.rom_hashes_tracks@ == all_tracks(parts@)
            &&& m.game_serials@.map_values(|x: GameSerialRow| serial_view(x)) == dedup_serials(
                all_serials(parts@).map_values(|x: GameSerialRow| serial_view(x)),
            )
            &&& merged_sets(m.disc_set_candidates@, all_disc_sets(parts@))
        },
{
    if parts.len() == 0 {
        return None;
    }
    let ghost all = parts@;
    assert(all.len() <= usize::MAX);
    let mut hashes: Vec<RomHashRow> = Vec::new();
    let mut serials: Vec<GameSerialRow> = Vec::new();
    let mut tracks: Vec<RomTrackRow> = Vec::new();
    let mut discs: Vec<DiscSetCandidate> = Vec::new();
    let mut rest = parts;
    let mut taken: Vec<ParsedDat> = Vec::new();
    // Take the DATs from the back, then append them front to back.
    while rest.len() > 0
        invariant
            rest@ + taken@.reverse() == all,
            all.len() <= usize::MAX,
        decreases rest.len(),
    {
        let ghost r0 = rest@;
        let ghost t0 = taken@;
        let p = rest.pop().unwrap();
        taken.push(p);
        proof {
            assert(r0 == rest@.push(p));
            assert(taken@.reverse() =~= seq![p] + t0.reverse());
            assert(rest@ + taken@.reverse() =~= r0 + t0.reverse());
        }
    }
    assert(taken@.reverse() =~= all);
    let mut k: usize = 0;
    while taken.len() > 0
        invariant
            k + taken.len() == all.len(),
            all.len() <= usize::MAX,
            taken@.reverse() == all.skip(k as int),
            hashes@ == all_hashes(all.take(k as int)),
            serials@ == all_serials(all.take(k as int)),
            tracks@ == all_tracks(all.take(k as int)),
            discs@ == all_disc_sets(all.take(k as int)),
        decreases taken.len(),
    {
        let ghost t0 = taken@;
        let mut p = taken.pop().unwrap();
        proof {
            assert(t0 == taken@.push(p));
            assert(t0.reverse() =~= seq![p] + taken@.reverse());
            assert(all.skip(k as int)[0] == p);
            assert(all[k as int] == p);
            assert(all.skip(k + 1) =~= all.skip(k as int).drop_first());
            assert(taken@.reverse() =~= (seq![p] + taken@.reverse()).drop_first());
            assert(all.take(k + 1).drop_last() =~= all.take(k as int));
            assert(all.take(k + 1).last() == p);
        }
        hashes.append(&mut p.rom_hashes);
        serials.append(&mut p.game_serials);
        tracks.append(&mut p.rom_hashes_tracks);
        discs.append(&mut p.disc_set_candidates);
        k += 1;
    }
    assert(all.take(all.len() as int) =~= all);
    let game_serials = dedupe_game_serials(&serials);
    let disc_set_candidates = merge_disc_sets(&discs);
    Some(ParsedDat { rom_hashes: hashes, game_serials, rom_hashes_tracks: tracks, disc_set_candidates })
}

/// How long a fetched hash table is reused: a day.
pub const HASH_CACHE_TTL_SECS: u64 = 86_400;

/// Whether a cached hash table of a system, with `n_entries` hash rows and
/// `n_tracks` track rows, fetched at `fetched_at` may still be used at
/// `now`: it has hash rows, on a disc-based system it has track rows too,
/// and less than a day has passed.
pub fn hash_cache_usable(system_id: &str, n_entries: usize, n_tracks: usize, fetched_at: u64, now: u64) -> (r: bool)
    ensures
        r == (n_entries > 0 && (!disc_shape_system(system_id@) || n_tracks > 0) && (if now >= fetched_at {
            now - fetched_at
        } else {
            0
        }) < HASH_CACHE_TTL_SECS),
{
    n_entries > 0 && (!is_disc_shape_system(system_id) || n_tracks > 0) && now.saturating_sub(fetched_at)
        < HASH_CACHE_TTL_SECS
}

// ---------------------------------------------------------------------
// MAME title DAT
// ---------------------------------------------------------------------

/// One MAME set → title row.
#[derive(Clone, Debug, PartialEq, Eq)]
pub struct MameTitleRow {
    /// The `.zip` set name, lower-cased, without extension.
    pub rom_set: String,
    pub title: String,
    pub year: Option<String>,
    pub developer: Option<String>,
}

pub struct MameModel {
    pub rom_set: Seq<char>,
    pub title: Seq<char>,
    pub year: Option<Seq<char>>,
    pub developer: Option<Seq<char>>,
}

pub open spec fn mame_view(r: MameTitleRow) -> MameModel {
    MameModel { rom_set: r.rom_set@, title: r.title@, year: opt_view(r.year), developer: opt_view(r.developer) }
}

/// The first `name` value ending in `.zip` among the pairs of `s` from
/// index `i` on.
pub open spec fn zip_from(s: Seq<char>, i: int) -> Option<Seq<char>>
    decreases s.len() - i,
{
    match pair_at(s, i) {
        None => None,
        Some((k, v, n)) => if i < n <= s.len() {
            if k == "name"@ && ends_with(v, ".zip"@) {
                Some(v)
            } else {
                zip_from(s, n)
            }
        } else {
            None
        },
    }
}

/// The set name of a `.zip`: its file stem, ASCII lower-cased (the whole
/// name lower-cased when it has no file name).
pub open spec fn zip_stem(z: Seq<char>) -> Seq<char> {
    match crate::media::file_name(z) {
        Some(n) => ascii_lower(crate::media::stem_of_name(n)),
        None => ascii_lower(z),
    }
}

/// The title rows of a block's `.zip` sets, in order; empty set names
/// are passed over.
pub open spec fn mame_rows(zips: Seq<Seq<char>>, title: Seq<char>, year: Option<Seq<char>>, dev: Option<Seq<char>>) -> Seq<MameModel>
    decreases zips.len(),
{
    if zips.len() == 0 {
        Seq::empty()
    } else {
        let before = mame_rows(zips.drop_last(), title, year, dev);
        let st = zip_stem(zips.last());
        if st.len() == 0 {
            before
        } else {
            before.push(MameModel { rom_set: st, title, year, developer: dev })
        }
    }
}

/// The MAME parser's state between lines.
#[verifier::ext_equal]
pub struct MameDat {
    pub in_game: bool,
    pub name: Option<Seq<char>>,
    pub year: Option<Seq<char>>,
    pub dev: Option<Seq<char>>,
    pub zips: Seq<Seq<char>>,
    pub out: Seq<MameModel>,
}

pub open spec fn mame_start() -> MameDat {
    MameDat { in_game: false, name: None, year: None, dev: None, zips: Seq::empty(), out: Seq::empty() }
}

/// One line of a MAME DAT.
pub open spec fn mame_step(st: MameDat, raw: Seq<char>) -> MameDat {
    let line = trim(raw);
    if starts_with(line, "game ("@) {
        MameDat { in_game: true, name: None, year: None, dev: None, zips: Seq::empty(), ..st }
    } else if !st.in_game {
        st
    } else if line == ")"@ {
        MameDat {
            in_game: false,
            name: None,
            year: None,
            dev: None,
            zips: Seq::empty(),
            out: match st.name {
                Some(t) => st.out + mame_rows(st.zips, t, st.year, st.dev),
                None => st.out,
            },
        }
    } else if starts_with(line, "name "@) {
        MameDat { name: Some(unquoted_once(line.skip(5))), ..st }
    } else if starts_with(line, "year "@) {
        MameDat { year: Some(unquoted_once(line.skip(5))), ..st }
    } else if starts_with(line, "developer "@) {
        MameDat { dev: Some(unquoted_once(line.skip(10))), ..st }
    } else if starts_with(line, "rom ("@) {
        match zip_from(trim(strip_close(line.skip(5))), 0) {
            Some(z) => MameDat { zips: st.zips.push(z), ..st },
            None => st,
        }
    } else {
        st
    }
}

pub open spec fn mame_run(ls: Seq<Seq<char>>) -> MameDat
    decreases ls.len(),
{
    if ls.len() == 0 {
        mame_start()
    } else {
        mame_step(mame_run(ls.drop_last()), ls.last())
    }
}

/// The `.zip` set of a `rom (<rest>` line.
fn read_zip(rest: &[char]) -> (r: Option<Vec<char>>)
    ensures
        opt_vec_view(r) == zip_from(trim(strip_close(rest@)), 0),
{
    let body = trim_vec(&strip_close_vec(rest));
    let k_name = chars_of("name");
    let zip = chars_of(".zip");
    let mut pos: usize = 0;
    loop
        invariant
            pos <= body.len(),
            body@ == trim(strip_close(rest@)),
            k_name@ == "name"@,
            zip@ == ".zip"@,
            zip_from(body@, 0) == zip_from(body@, pos as int),
        decreases body.len() - pos,
    {
        match next_pair_in(&body, pos) {
            None => {
                return None;
            },
            Some((k, v, n)) => {
                if crate::text::seq_eq(&k, &k_name) && has_suffix(&v, &zip) {
                    return Some(v);
                }
                pos = n;
            },
        }
    }
}

fn opt_string(o: &Option<Vec<char>>) -> (r: Option<String>)
    ensures
        opt_view(r) == opt_vec_view(*o),
{
    match o {
        Some(v) => Some(string_of(v)),
        None => None,
    }
}

/// The set name of a `.zip`.
fn zip_stem_of(z: &Vec<char>) -> (r: Vec<char>)
    ensures
        r@ == zip_stem(z@),
{
    match crate::media::file_name_chars(z) {
        Some(n) => lower_ascii(&crate::media::stem_chars(&n)),
        None => lower_ascii(z),
    }
}

/// Parse a MAME-style clrmamepro DAT into set → title rows: one row per
/// `.zip` named in a `rom ( ... )` line of a named game block, keyed by
/// the lower-cased set name, with the block's year and developer.
pub fn parse_mame_dat(content: &str) -> (r: Vec<MameTitleRow>)
    ensures
        r@.map_values(|x: MameTitleRow| mame_view(x)) == mame_run(lines(content@)).out,
{
    let cs = chars_of(content);
    let ls = lines_of(&cs);
    let ghost all = lines(content@);
    let game_open = chars_of("game (");
    let close = chars_of(")");
    let name_key = chars_of("name ");
    let year_key = chars_of("year ");
    let dev_key = chars_of("developer ");
    let rom_key = chars_of("rom (");
    let mut in_game = false;
    let mut name: Option<Vec<char>> = None;
    let mut year: Option<Vec<char>> = None;
    let mut dev: Option<Vec<char>> = None;
    let mut zips: Vec<Vec<char>> = Vec::new();
    let mut out: Vec<MameTitleRow> = Vec::new();
    let mut i: usize = 0;
    assert(all.take(0) =~= Seq::<Seq<char>>::empty());
    proof {
        assert((MameDat {
            in_game,
            name: opt_vec_view(name),
            year: opt_vec_view(year),
            dev: opt_vec_view(dev),
            zips: views(zips@),
            out: out@.map_values(|x: MameTitleRow| mame_view(x)),
        }) =~= mame_start());
    }
    while i < ls.len()
        invariant
            i <= ls.len(),
            views(ls@) == all,
            all == lines(content@),
            game_open@ == "game ("@,
            close@ == ")"@,
            name_key@ == "name "@,
            year_key@ == "year "@,
            dev_key@ == "developer "@,
            rom_key@ == "rom ("@,
            mame_run(all.take(i as int)) == (MameDat {
                in_game,
                name: opt_vec_view(name),
                year: opt_vec_view(year),
                dev: opt_vec_view(dev),
                zips: views(zips@),
                out: out@.map_values(|x: MameTitleRow| mame_view(x)),
            }),
        decreases ls.len() - i,
    {
        proof {
            assert(ls@[i as int]@ == all[i as int]);
            assert(all.take(i + 1).drop_last() =~= all.take(i as int));
            assert(all.take(i + 1).last() == all[i as int]);
        }
        let ghost st = mame_run(all.take(i as int));
        let line = trim_vec(&ls[i]);
        if has_prefix(&line, &game_open) {
            in_game = true;
            name = None;
            year = None;
            dev = None;
            zips = Vec::new();
        } else if !in_game {
        } else if crate::text::seq_eq(&line, &close) {
            in_game = false;
            match &name {
                Some(t) => {
                    let title = string_of(t);
                    let mut z: usize = 0;
                    let ghost base = out@.map_values(|x: MameTitleRow| mame_view(x));
                    assert(views(zips@).take(0) =~= Seq::<Seq<char>>::empty());
                    while z < zips.len()
                        invariant
                            z <= zips.len(),
                            title@ == t@,
                            out@.map_values(|x: MameTitleRow| mame_view(x)) == base + mame_rows(
                                views(zips@).take(z as int),
                                t@,
                                opt_vec_view(year),
                                opt_vec_view(dev),
                            ),
                        decreases zips.len() - z,
                    {
                        let ghost zs = views(zips@);
                        assert(zs.take(z + 1).drop_last() =~= zs.take(z as int));
                        assert(zs.take(z + 1).last() == zips@[z as int]@);
                        let stem = zip_stem_of(&zips[z]);
                        if stem.len() > 0 {
                            let ghost ob = out@;
                            out.push(
                                MameTitleRow {
                                    rom_set: string_of(&stem),
                                    title: title.clone(),
                                    year: opt_string(&year),
                                    developer: opt_string(&dev),
                                },
                            );
                            assert(out@.map_values(|x: MameTitleRow| mame_view(x)) =~= ob.map_values(
                                |x: MameTitleRow| mame_view(x),
                            ).push(mame_view(out@.last())));
                        }
                        z += 1;
                    }
                    assert(views(zips@).take(zips.len() as int) =~= views(zips@));
                },
                None => {},
            }
            name = None;
            year = None;
            dev = None;
            zips = Vec::new();
        } else if has_prefix(&line, &name_key) {
            proof {
                reveal_strlit("name ");
            }
            let rest = crate::text::slice_to_vec(&line, 5, line.len());
            assert(rest@ =~= line@.skip(5));
            name = Some(unquote_once(&rest));
        } else if has_prefix(&line, &year_key) {
            proof {
                reveal_strlit("year ");
            }
            let rest = crate::text::slice_to_vec(&line, 5, line.len());
            assert(rest@ =~= line@.skip(5));
            year = Some(unquote_once(&rest));
        } else if has_prefix(&line, &dev_key) {
            proof {
                reveal_strlit("developer ");
            }
            let rest = crate::text::slice_to_vec(&line, 10, line.len());
            assert(rest@ =~= line@.skip(10));
            dev = Some(unquote_once(&rest));
        } else if has_prefix(&line, &rom_key) {
            proof {
                reveal_strlit("rom (");
            }
            let rest = crate::text::slice_to_vec(&line, 5, line.len());
            assert(rest@ =~= line@.skip(5));
            match read_zip(&rest) {
                Some(zv) => {
                    zips.push(zv);
                    proof {
                        crate::text::lemma_views_push(zips@.drop_last(), zips@.last());
                        assert(zips@.drop_last().push(zips@.last()) =~= zips@);
                    }
                },
                None => {},
            }
        }
        proof {
            assert((MameDat {
                in_game,
                name: opt_vec_view(name),
                year: opt_vec_view(year),
                dev: opt_vec_view(dev),
                zips: views(zips@),
                out: out@.map_values(|x: MameTitleRow| mame_view(x)),
            }) =~= mame_step(st, all[i as int]));
        }
        i += 1;
    }
    assert(all.take(ls.len() as int) =~= all);
    out
}

} // verus!
