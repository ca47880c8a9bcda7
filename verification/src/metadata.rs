//! Per-game catalog metadata from libretro-database's `metadat` DAT files:
//! the DAT grammar, the merge of one parsed value into a game's record,
//! and the comparison that decides whether a stored record changes.
use vstd::prelude::*;
use crate::media::GameMetadata;
use crate::numbers::{parse_u32, parsed_u32};
use crate::text::{
    chars_of, has_prefix, lines, lines_of, owned, percent_encoded, starts_with, string_of, trim, trim_vec, url_encode, views,
};
use vstd::string::StringSliceAdditionalSpecFns;

verus! {

/// The metadat DAT kinds fetched per system.
#[derive(Clone, Copy, Debug, PartialEq, Eq, Structural)]
pub enum MetadatKind {
    Genre,
    Developer,
    Publisher,
    ReleaseYear,
    Users,
}

/// The subdirectory of `metadat/` holding a kind.
pub open spec fn kind_subdir(k: MetadatKind) -> Seq<char> {
    match k {
        MetadatKind::Genre => "genre"@,
        MetadatKind::Developer => "developer"@,
        MetadatKind::Publisher => "publisher"@,
        MetadatKind::ReleaseYear => "releaseyear"@,
        MetadatKind::Users => "maxusers"@,
    }
}

/// The field name inside `game (...)` blocks for a kind.
pub open spec fn kind_value_key(k: MetadatKind) -> Seq<char> {
    match k {
        MetadatKind::Genre => "genre"@,
        MetadatKind::Developer => "developer"@,
        MetadatKind::Publisher => "publisher"@,
        MetadatKind::ReleaseYear => "releaseyear"@,
        MetadatKind::Users => "users"@,
    }
}

impl MetadatKind {
    /// Every kind, in fetch order.
    pub const ALL: [MetadatKind; 5] = [
        MetadatKind::Genre,
        MetadatKind::Developer,
        MetadatKind::Publisher,
        MetadatKind::ReleaseYear,
        MetadatKind::Users,
    ];

    /// The subdirectory of `metadat/` holding this kind (`maxusers` for
    /// player counts).
    pub fn subdir(&self) -> (r: &'static str)
        ensures
            r@ == kind_subdir(*self),
    {
        match self {
            MetadatKind::Genre => "genre",
            MetadatKind::Developer => "developer",
            MetadatKind::Publisher => "publisher",
            MetadatKind::ReleaseYear => "releaseyear",
            MetadatKind::Users => "maxusers",
        }
    }

    /// The field name inside `game (...)` blocks (`users` for player
    /// counts).
    pub fn value_key(&self) -> (r: &'static str)
        ensures
            r@ == kind_value_key(*self),
    {
        match self {
            MetadatKind::Genre => "genre",
            MetadatKind::Developer => "developer",
            MetadatKind::Publisher => "publisher",
            MetadatKind::ReleaseYear => "releaseyear",
            MetadatKind::Users => "users",
        }
    }
}

/// `s` with every `/` and `\\` turned into `_`.
pub open spec fn separators_replaced(s: Seq<char>) -> Seq<char> {
    s.map_values(|c: char| if c == '/' || c == '\\' { '_' } else { c })
}

/// Where the merged metadata of one libretro-database system is cached,
/// relative to the app data folder: `media/cache/metadat/<system>.json`,
/// path separators in the name replaced by `_`.
pub fn metadat_cache_file(system_name: &str) -> (r: String)
    ensures
        r@ == "media/cache/metadat/"@ + separators_replaced(system_name@) + ".json"@,
{
    let cs = chars_of(system_name);
    let mut out: Vec<char> = Vec::new();
    crate::text::push_str(&mut out, "media/cache/metadat/");
    let ghost start = out@;
    let mut i: usize = 0;
    while i < cs.len()
        invariant
            i <= cs.len(),
            cs@ == system_name@,
            out@ == start + separators_replaced(cs@).take(i as int),
        decreases cs.len() - i,
    {
        let c = cs[i];
        let d = if c == '/' || c == '\\' {
            '_'
        } else {
            c
        };
        out.push(d);
        assert(out@ =~= start + separators_replaced(cs@).take(i + 1));
        i += 1;
    }
    assert(separators_replaced(cs@).take(cs.len() as int) =~= separators_replaced(cs@));
    crate::text::push_str(&mut out, ".json");
    string_of(&out)
}

/// Where a `metadat` DAT of one kind for one libretro-database system is
/// downloaded from:
/// `https://raw.githubusercontent.com/libretro/libretro-database/master/metadat/<kind>/<system>.dat`,
/// the system name percent-encoded.
pub fn metadat_url(kind: MetadatKind, system_name: &str) -> (r: String)
    ensures
        r@ == "https://raw.githubusercontent.com/libretro/libretro-database/master/metadat/"@ + kind_subdir(kind)
            + seq!['/'] + percent_encoded(system_name.spec_bytes()) + ".dat"@,
{
    let enc = url_encode(system_name);
    let mut out: Vec<char> = Vec::new();
    crate::text::push_str(&mut out, "https://raw.githubusercontent.com/libretro/libretro-database/master/metadat/");
    crate::text::push_str(&mut out, kind.subdir());
    out.push('/');
    crate::text::push_str(&mut out, enc.as_str());
    crate::text::push_str(&mut out, ".dat");
    string_of(&out)
}

/// The libretro-database system name for a PC Engine family extension.
pub open spec fn metadat_system_of_extension(ext: Seq<char>) -> Seq<char> {
    if ext == "sgx"@ {
        "NEC - PC Engine SuperGrafx"@
    } else if ext == "cue"@ || ext == "chd"@ || ext == "ccd"@ || ext == "toc"@ || ext == "m3u"@
        || ext == "iso"@ {
        "NEC - PC Engine CD - TurboGrafx-CD"@
    } else {
        "NEC - PC Engine - TurboGrafx 16"@
    }
}

/// The libretro-database system name for a PC Engine family extension.
pub fn metadat_system_name_for_extension(ext: &str) -> (r: &'static str)
    ensures
        r@ == metadat_system_of_extension(ext@),
{
    if crate::text::str_eq(ext, "sgx") {
        "NEC - PC Engine SuperGrafx"
    } else if crate::text::str_eq(ext, "cue") || crate::text::str_eq(ext, "chd")
        || crate::text::str_eq(ext, "ccd") || crate::text::str_eq(ext, "toc")
        || crate::text::str_eq(ext, "m3u") || crate::text::str_eq(ext, "iso") {
        "NEC - PC Engine CD - TurboGrafx-CD"
    } else {
        "NEC - PC Engine - TurboGrafx 16"
    }
}

// ---------------------------------------------------------------------
// Values
// ---------------------------------------------------------------------

/// `s` without leading `"` characters.
pub open spec fn strip_quotes_start(s: Seq<char>) -> Seq<char>
    decreases s.len(),
{
    if s.len() > 0 && s[0] == '"' {
        strip_quotes_start(s.drop_first())
    } else {
        s
    }
}

/// `s` without trailing `"` characters.
pub open spec fn strip_quotes_end(s: Seq<char>) -> Seq<char>
    decreases s.len(),
{
    if s.len() > 0 && s.last() == '"' {
        strip_quotes_end(s.drop_last())
    } else {
        s
    }
}

/// A field value: trimmed, then stripped of surrounding quotes.
pub open spec fn unquoted(s: Seq<char>) -> Seq<char> {
    strip_quotes_end(strip_quotes_start(trim(s)))
}

fn unquote_chars(s: &[char]) -> (r: Vec<char>)
    ensures
        r@ == unquoted(s@),
{
    let t = trim_vec(s);
    let mut a: usize = 0;
    assert(t@.skip(0) =~= t@);
    while a < t.len() && t[a] == '"'
        invariant
            a <= t.len(),
            strip_quotes_start(t@) == strip_quotes_start(t@.skip(a as int)),
        decreases t.len() - a,
    {
        assert(t@.skip(a as int).drop_first() =~= t@.skip(a + 1));
        a += 1;
    }
    let u = crate::text::slice_to_vec(&t, a, t.len());
    assert(u@ =~= t@.skip(a as int));
    let mut e: usize = u.len();
    assert(u@.take(e as int) =~= u@);
    while e > 0 && u[e - 1] == '"'
        invariant
            e <= u.len(),
            strip_quotes_end(u@) == strip_quotes_end(u@.take(e as int)),
        decreases e,
    {
        assert(u@.take(e as int).drop_last() =~= u@.take(e - 1));
        e -= 1;
    }
    let r = crate::text::slice_to_vec(&u, 0, e);
    assert(r@ =~= u@.take(e as int));
    r
}

/// A field value: trimmed, then stripped of surrounding quotes.
pub fn unquote(s: &str) -> (r: String)
    ensures
        r@ == unquoted(s@),
{
    let cs = chars_of(s);
    string_of(&unquote_chars(&cs))
}

// ---------------------------------------------------------------------
// DAT grammar
// ---------------------------------------------------------------------

/// The parser's state between lines: inside a `game (` block or not, the
/// title and value read in the current block, and the pairs emitted.
pub struct DatState {
    pub in_game: bool,
    pub title: Option<Seq<char>>,
    pub value: Option<Seq<char>>,
    pub out: Seq<(Seq<char>, Seq<char>)>,
}

pub open spec fn dat_start() -> DatState {
    DatState { in_game: false, title: None, value: None, out: Seq::empty() }
}

/// One line of a DAT, for the field `key`: `game (` opens a block; lines
/// outside blocks are passed over; `)` closes the block and emits its
/// (title, value) when both were read; `comment <title>` sets the title;
/// `<key> <value>` sets the value.
pub open spec fn dat_step(st: DatState, raw: Seq<char>, key: Seq<char>) -> DatState {
    let line = trim(raw);
    if starts_with(line, "game ("@) {
        DatState { in_game: true, title: None, value: None, out: st.out }
    } else if !st.in_game {
        st
    } else if line == ")"@ {
        DatState {
            in_game: false,
            title: None,
            value: None,
            out: match (st.title, st.value) {
                (Some(t), Some(v)) => st.out.push((t, v)),
                _ => st.out,
            },
        }
    } else if starts_with(line, "comment "@) {
        DatState { title: Some(unquoted(line.skip(8))), ..st }
    } else if starts_with(line, key) && starts_with(line.skip(key.len() as int), " "@) {
        DatState { value: Some(unquoted(line.skip(key.len() + 1int))), ..st }
    } else {
        st
    }
}

/// The parser's state after the lines `ls`.
pub open spec fn dat_run(ls: Seq<Seq<char>>, key: Seq<char>) -> DatState
    decreases ls.len(),
{
    if ls.len() == 0 {
        dat_start()
    } else {
        dat_step(dat_run(ls.drop_last(), key), ls.last(), key)
    }
}

/// The (title, value) pairs of a DAT for the field `key`, in order.
pub open spec fn dat_pairs(content: Seq<char>, key: Seq<char>) -> Seq<(Seq<char>, Seq<char>)> {
    dat_run(lines(content), key).out
}

pub open spec fn pair_views(v: Seq<(String, String)>) -> Seq<(Seq<char>, Seq<char>)> {
    v.map_values(|p: (String, String)| (p.0@, p.1@))
}

/// Parse a clrmamepro-style metadat DAT: one (title, value) pair per
/// `game (...)` block that has both a `comment` title and a `<value_key>`
/// field; the header block and blocks without the field give nothing.
pub fn parse_metadat_dat(content: &str, value_key: &str) -> (r: Vec<(String, String)>)
    ensures
        pair_views(r@) == dat_pairs(content@, value_key@),
{
    let cs = chars_of(content);
    let ls = lines_of(&cs);
    let key = chars_of(value_key);
    let game_open = chars_of("game (");
    let comment = chars_of("comment ");
    let space = chars_of(" ");
    let close = chars_of(")");
    let ghost all = lines(content@);
    let mut out: Vec<(String, String)> = Vec::new();
    let mut in_game = false;
    let mut title: Option<Vec<char>> = None;
    let mut value: Option<Vec<char>> = None;
    let mut i: usize = 0;
    assert(all.take(0) =~= Seq::<Seq<char>>::empty());
    while i < ls.len()
        invariant
            i <= ls.len(),
            views(ls@) == all,
            all == lines(content@),
            key@ == value_key@,
            game_open@ == "game ("@,
            comment@ == "comment "@,
            space@ == " "@,
            close@ == ")"@,
            ({
                let st = dat_run(all.take(i as int), value_key@);
                &&& st.in_game == in_game
                &&& st.title == match title {
                    Some(t) => Some(t@),
                    None => None::<Seq<char>>,
                }
                &&& st.value == match value {
                    Some(v) => Some(v@),
                    None => None::<Seq<char>>,
                }
                &&& st.out == pair_views(out@)
            }),
        decreases ls.len() - i,
    {
        assert(ls@[i as int]@ == all[i as int]);
        assert(all.take(i + 1).drop_last() =~= all.take(i as int));
        assert(all.take(i + 1).last() == all[i as int]);
        let line = trim_vec(&ls[i]);
        if has_prefix(&line, &game_open) {
            in_game = true;
            title = None;
            value = None;
        } else if !in_game {
        } else if crate::text::seq_eq(&line, &close) {
            in_game = false;
            let t = title;
            let v = value;
            title = None;
            value = None;
            match (t, v) {
                (Some(t), Some(v)) => {
                    out.push((string_of(&t), string_of(&v)));
                    assert(pair_views(out@) =~= dat_run(all.take(i as int), value_key@).out.push(
                        (t@, v@),
                    ));
                },
                _ => {},
            }
        } else if has_prefix(&line, &comment) {
            proof {
                reveal_strlit("comment ");
            }
            let rest = crate::text::slice_to_vec(&line, 8, line.len());
            assert(rest@ =~= line@.skip(8));
            title = Some(unquote_chars(&rest));
        } else if has_prefix(&line, &key) && line.len() > key.len() && line[key.len()] == ' ' {
            proof {
                reveal_strlit(" ");
                let after = line@.skip(key.len() as int);
                assert(after[0] == line@[key.len() as int]);
                assert(starts_with(after, " "@)) by {
                    assert(after.take(1) =~= " "@);
                }
            }
            let rest = crate::text::slice_to_vec(&line, key.len() + 1, line.len());
            assert(rest@ =~= line@.skip(key.len() + 1));
            value = Some(unquote_chars(&rest));
        } else {
            proof {
                reveal_strlit(" ");
                if starts_with(line@, key@) && line.len() > key.len() {
                    let after = line@.skip(key.len() as int);
                    assert(after[0] == line@[key.len() as int]);
                    assert(after.take(1)[0] == after[0]);
                }
            }
        }
        i += 1;
    }
    assert(all.take(ls.len() as int) =~= all);
    out
}

// ---------------------------------------------------------------------
// Merged records
// ---------------------------------------------------------------------

/// One game's metadata merged across every kind fetched. `name` is the
/// upstream title; `normalized` its normalized form.
#[derive(Clone, Debug)]
pub struct UpstreamMetadat {
    pub name: String,
    pub normalized: String,
    pub genre: Option<String>,
    pub developer: Option<String>,
    pub publisher: Option<String>,
    pub release_year: Option<u32>,
    pub users: Option<u32>,
}

/// The record `e` once the value `value` of kind `kind` is merged in: the
/// text kinds store it, the number kinds store its `u32` parse (or nothing
/// when it does not parse).
pub fn merge_metadat_value(e: &mut UpstreamMetadat, kind: MetadatKind, value: String)
    ensures
        final(e).name == old(e).name,
        final(e).normalized == old(e).normalized,
        final(e).genre == (if kind == MetadatKind::Genre { Some(value) } else { old(e).genre }),
        final(e).developer == (if kind == MetadatKind::Developer {
            Some(value)
        } else {
            old(e).developer
        }),
        final(e).publisher == (if kind == MetadatKind::Publisher {
            Some(value)
        } else {
            old(e).publisher
        }),
        final(e).release_year == (if kind == MetadatKind::ReleaseYear {
            parsed_u32(value@)
        } else {
            old(e).release_year
        }),
        final(e).users == (if kind == MetadatKind::Users {
            parsed_u32(value@)
        } else {
            old(e).users
        }),
{
    match kind {
        MetadatKind::Genre => e.genre = Some(value),
        MetadatKind::Developer => e.developer = Some(value),
        MetadatKind::Publisher => e.publisher = Some(value),
        MetadatKind::ReleaseYear => e.release_year = parse_u32(value.as_str()),
        MetadatKind::Users => e.users = parse_u32(value.as_str()),
    }
}

pub open spec fn opt_chars(o: Option<String>) -> Option<Seq<char>> {
    match o {
        Some(s) => Some(s@),
        None => None,
    }
}

/// The metadata stored for a matched upstream record.
pub fn metadata_from(upstream: &UpstreamMetadat) -> (r: GameMetadata)
    ensures
        r.year == upstream.release_year,
        opt_chars(r.genre) == opt_chars(upstream.genre),
        opt_chars(r.developer) == opt_chars(upstream.developer),
        opt_chars(r.publisher) == opt_chars(upstream.publisher),
        r.players == upstream.users,
        r.description is None,
{
    GameMetadata {
        year: upstream.release_year,
        genre: clone_opt(&upstream.genre),
        developer: clone_opt(&upstream.developer),
        publisher: clone_opt(&upstream.publisher),
        players: upstream.users,
        description: None,
    }
}

fn clone_opt(o: &Option<String>) -> (r: Option<String>)
    ensures
        opt_chars(r) == opt_chars(*o),
{
    match o {
        Some(s) => Some(s.clone()),
        None => None,
    }
}

fn opt_str_eq(a: &Option<String>, b: &Option<String>) -> (r: bool)
    ensures
        r == (opt_chars(*a) == opt_chars(*b)),
{
    match (a, b) {
        (Some(x), Some(y)) => *x == *y,
        (None, None) => true,
        _ => false,
    }
}

/// Whether two metadata records differ in some field.
pub open spec fn metadata_change(p: GameMetadata, n: GameMetadata) -> bool {
    ||| p.year != n.year
    ||| opt_chars(p.genre) != opt_chars(n.genre)
    ||| opt_chars(p.developer) != opt_chars(n.developer)
    ||| opt_chars(p.publisher) != opt_chars(n.publisher)
    ||| p.players != n.players
    ||| opt_chars(p.description) != opt_chars(n.description)
}

/// Whether storing `next` changes what is stored: always when nothing is
/// stored, else when some field differs.
pub fn metadata_differs(prior: Option<&GameMetadata>, next: &GameMetadata) -> (r: bool)
    ensures
        r == match prior {
            None => true,
            Some(p) => metadata_change(*p, *next),
        },
{
    match prior {
        None => true,
        Some(p) => p.year != next.year || !opt_str_eq(&p.genre, &next.genre) || !opt_str_eq(
            &p.developer,
            &next.developer,
        ) || !opt_str_eq(&p.publisher, &next.publisher) || p.players != next.players
            || !opt_str_eq(&p.description, &next.description),
    }
}

/// Per-ROM progress of a metadata sync.
#[derive(Clone, Debug)]
pub struct MetadataSyncProgress {
    pub system_id: String,
    pub done: usize,
    pub total: usize,
    pub current_rom_title: String,
    pub last_action: String,
}

/// Final tally of a metadata sync.
#[derive(Clone, Debug)]
pub struct MetadataSyncSummary {
    pub system_id: String,
    pub total: usize,
    pub matched: usize,
    pub updated: usize,
    pub unchanged: usize,
    pub unmatched: usize,
    pub errors: usize,
}

/// The libretro-database system of each entry, by its file extension.
pub open spec fn metadat_lists(exts: Seq<String>) -> Seq<Seq<Seq<char>>> {
    Seq::new(exts.len(), |i: int| seq![metadat_system_of_extension(exts[i]@)])
}

/// Group the entries of a metadata sync by the libretro-database system
/// whose catalog describes them, named by each entry's lower-case file
/// extension (`exts[i]` for entry `i`), in increasing order of name.
pub fn group_by_metadat_system(exts: &[String]) -> (r: Vec<(String, Vec<usize>)>)
    ensures
        crate::media::grouped_by(r@, metadat_lists(exts@)),
{
    let mut names: Vec<Vec<String>> = Vec::new();
    let mut i: usize = 0;
    while i < exts.len()
        invariant
            i <= exts.len(),
            names.len() == i,
            forall|j: int|
                0 <= j < i ==> #[trigger] crate::media::name_lists(names@)[j] == seq![
                    metadat_system_of_extension(exts@[j]@),
                ],
        decreases exts.len() - i,
    {
        let name = owned(metadat_system_name_for_extension(exts[i].as_str()));
        let one = vec![name];
        assert(one@.map_values(|s: String| s@) =~= seq![metadat_system_of_extension(exts@[i as int]@)]);
        let ghost before = names@;
        names.push(one);
        proof {
            assert forall|j: int| 0 <= j < i + 1 implies #[trigger] crate::media::name_lists(names@)[j] == seq![
                metadat_system_of_extension(exts@[j]@),
            ] by {
                if j < i {
                    assert(names@[j] == before[j]);
                    assert(crate::media::name_lists(before)[j] == seq![metadat_system_of_extension(exts@[j]@)]);
                }
            }
        }
        i += 1;
    }
    let groups = crate::media::group_by_names(&names);
    assert(crate::media::name_lists(names@) =~= metadat_lists(exts@));
    groups
}

/// How syncing one entry's metadata ended.
#[derive(Clone, Copy, Debug, PartialEq, Eq)]
pub enum MetadataResult {
    /// A catalog entry matched and changed the recorded metadata.
    Updated,
    /// A catalog entry matched the metadata already recorded.
    Unchanged,
    /// No catalog entry matched.
    NoMatch,
}

/// Count one entry's result into the tallies.
pub fn record_metadata_result(summary: &mut MetadataSyncSummary, r: MetadataResult)
    requires
        old(summary).matched < usize::MAX,
        old(summary).updated < usize::MAX,
        old(summary).unchanged < usize::MAX,
        old(summary).unmatched < usize::MAX,
    ensures
        final(summary).matched == old(summary).matched + if r is NoMatch { 0int } else { 1 },
        final(summary).updated == old(summary).updated + if r is Updated { 1int } else { 0 },
        final(summary).unchanged == old(summary).unchanged + if r is Unchanged { 1int } else { 0 },
        final(summary).unmatched == old(summary).unmatched + if r is NoMatch { 1int } else { 0 },
        final(summary).errors == old(summary).errors,
        final(summary).total == old(summary).total,
        final(summary).system_id == old(summary).system_id,
{
    match r {
        MetadataResult::Updated => {
            summary.matched = summary.matched + 1;
            summary.updated = summary.updated + 1;
        },
        MetadataResult::Unchanged => {
            summary.matched = summary.matched + 1;
            summary.unchanged = summary.unchanged + 1;
        },
        MetadataResult::NoMatch => {
            summary.unmatched = summary.unmatched + 1;
        },
    }
}

/// Count the `n` entries of a catalog that could not be fetched, as
/// errors; their progress line is `system unavailable: <name>`.
pub fn record_metadat_unavailable(summary: &mut MetadataSyncSummary, n: usize, system_name: &str) -> (line: String)
    requires
        old(summary).errors + n <= usize::MAX,
    ensures
        *final(summary) == (MetadataSyncSummary { errors: (old(summary).errors + n) as usize, ..*old(summary) }),
        line@ == "system unavailable: "@ + system_name@,
{
    summary.errors = summary.errors + n;
    let mut out: Vec<char> = Vec::new();
    crate::text::push_str(&mut out, "system unavailable: ");
    crate::text::push_str(&mut out, system_name);
    string_of(&out)
}

/// Count the `n` entries of an empty catalog as unmatched; their progress
/// line is `no metadat for system`.
pub fn record_no_metadat(summary: &mut MetadataSyncSummary, n: usize) -> (line: String)
    requires
        old(summary).unmatched + n <= usize::MAX,
    ensures
        *final(summary) == (MetadataSyncSummary { unmatched: (old(summary).unmatched + n) as usize, ..*old(summary) }),
        line@ == "no metadat for system"@,
{
    summary.unmatched = summary.unmatched + n;
    owned("no metadat for system")
}

/// Drop a game's recorded metadata; says whether there was any.
pub fn clear_metadata(gm: &mut crate::media::GameMedia) -> (cleared: bool)
    ensures
        cleared == old(gm).metadata is Some,
        *final(gm) == (crate::media::GameMedia { metadata: None, ..*old(gm) }),
{
    let cleared = gm.metadata.is_some();
    gm.metadata = None;
    cleared
}

/// Record `next` as a game's metadata when it differs from what is
/// recorded; says whether it did.
pub fn apply_metadata(gm: &mut crate::media::GameMedia, next: GameMetadata) -> (changed: bool)
    ensures
        changed == match old(gm).metadata {
            None => true,
            Some(p) => metadata_change(p, next),
        },
        *final(gm) == (crate::media::GameMedia {
            metadata: if changed { Some(next) } else { old(gm).metadata },
            ..*old(gm)
        }),
{
    let changed = metadata_differs(gm.metadata.as_ref(), &next);
    if changed {
        gm.metadata = Some(next);
    }
    changed
}

/// How long a fetched metadat catalog is reused: a day.
pub const METADAT_CACHE_TTL_SECS: u64 = 86_400;

/// Whether a cached metadat catalog of `n_entries` entries fetched at
/// `fetched_at` may still be used at `now`: it is not empty (an empty one
/// is refetched) and less than a day has passed.
pub fn metadat_cache_usable(n_entries: usize, fetched_at: u64, now: u64) -> (r: bool)
    ensures
        r == (n_entries > 0 && (if now >= fetched_at { now - fetched_at } else { 0 }) < METADAT_CACHE_TTL_SECS),
{
    n_entries > 0 && now.saturating_sub(fetched_at) < METADAT_CACHE_TTL_SECS
}

/// What a catalog record says, as plain values.
pub struct MetadatModel {
    pub name: Seq<char>,
    pub normalized: Seq<char>,
    pub genre: Option<Seq<char>>,
    pub developer: Option<Seq<char>>,
    pub publisher: Option<Seq<char>>,
    pub release_year: Option<u32>,
    pub users: Option<u32>,
}

pub open spec fn opt_text(o: Option<String>) -> Option<Seq<char>> {
    match o {
        Some(s) => Some(s@),
        None => None,
    }
}

pub open spec fn metadat_view(e: UpstreamMetadat) -> MetadatModel {
    MetadatModel {
        name: e.name@,
        normalized: e.normalized@,
        genre: opt_text(e.genre),
        developer: opt_text(e.developer),
        publisher: opt_text(e.publisher),
        release_year: e.release_year,
        users: e.users,
    }
}

/// A record of `name` with nothing known yet.
pub open spec fn fresh_metadat(name: Seq<char>) -> MetadatModel {
    MetadatModel {
        name,
        normalized: crate::normalize::normalized(name),
        genre: None,
        developer: None,
        publisher: None,
        release_year: None,
        users: None,
    }
}

/// `m` with the value `v` of kind `kind` stored.
pub open spec fn with_value(m: MetadatModel, kind: MetadatKind, v: Seq<char>) -> MetadatModel {
    match kind {
        MetadatKind::Genre => MetadatModel { genre: Some(v), ..m },
        MetadatKind::Developer => MetadatModel { developer: Some(v), ..m },
        MetadatKind::Publisher => MetadatModel { publisher: Some(v), ..m },
        MetadatKind::ReleaseYear => MetadatModel { release_year: parsed_u32(v), ..m },
        MetadatKind::Users => MetadatModel { users: parsed_u32(v), ..m },
    }
}

/// The value of the last pair named `n`.
pub open spec fn last_value(pairs: Seq<(String, String)>, n: Seq<char>) -> Option<Seq<char>>
    decreases pairs.len(),
{
    if pairs.len() == 0 {
        None
    } else if pairs.last().0@ == n {
        Some(pairs.last().1@)
    } else {
        last_value(pairs.drop_last(), n)
    }
}

/// Some record of `recs` is named `n`.
pub open spec fn name_recorded(recs: Seq<UpstreamMetadat>, n: Seq<char>) -> bool {
    exists|k: int| 0 <= k < recs.len() && (#[trigger] recs[k]).name@ == n
}

/// Some pair of `pairs` is named `n`.
pub open spec fn name_paired(pairs: Seq<(String, String)>, n: Seq<char>) -> bool {
    exists|i: int| 0 <= i < pairs.len() && (#[trigger] pairs[i]).0@ == n
}

/// The index of the last record of `recs` named `n`, or -1.
pub open spec fn named_index(recs: Seq<UpstreamMetadat>, n: Seq<char>) -> int
    decreases recs.len(),
{
    if recs.len() == 0 {
        -1
    } else if recs.last().name@ == n {
        recs.len() - 1
    } else {
        named_index(recs.drop_last(), n)
    }
}

/// What `recs` records of `n`: its record, or a fresh one.
pub open spec fn base_of(recs: Seq<UpstreamMetadat>, n: Seq<char>) -> MetadatModel {
    if named_index(recs, n) >= 0 {
        metadat_view(recs[named_index(recs, n)])
    } else {
        fresh_metadat(n)
    }
}

proof fn lemma_named_index(recs: Seq<UpstreamMetadat>, n: Seq<char>)
    ensures
        -1 <= named_index(recs, n) < recs.len(),
        named_index(recs, n) >= 0 ==> recs[named_index(recs, n)].name@ == n,
        named_index(recs, n) >= 0 <==> name_recorded(recs, n),
    decreases recs.len(),
{
    if recs.len() > 0 {
        if recs.last().name@ == n {
            assert(recs[recs.len() - 1].name@ == n);
        } else {
            lemma_named_index(recs.drop_last(), n);
            if name_recorded(recs, n) {
                let k = choose|k: int| 0 <= k < recs.len() && (#[trigger] recs[k]).name@ == n;
                assert(k != recs.len() - 1);
                assert(recs.drop_last()[k] == recs[k]);
            }
            if named_index(recs.drop_last(), n) >= 0 {
                assert(recs.drop_last()[named_index(recs.drop_last(), n)] == recs[named_index(recs.drop_last(), n)]);
            }
        }
    }
}

/// The record of `n` once the pairs of kind `kind` are merged into `recs`:
/// the last value given for `n` stored over what was recorded.
pub open spec fn merged_of(recs: Seq<UpstreamMetadat>, kind: MetadatKind, pairs: Seq<(String, String)>, n: Seq<char>) -> MetadatModel {
    match last_value(pairs, n) {
        Some(v) => with_value(base_of(recs, n), kind, v),
        None => base_of(recs, n),
    }
}

/// Names strictly increasing.
pub open spec fn names_sorted(recs: Seq<UpstreamMetadat>) -> bool {
    forall|a: int, b: int| 0 <= a < b < recs.len() ==> crate::text::lex_lt(#[trigger] recs[a].name@, #[trigger] recs[b].name@)
}

proof fn lemma_last_value_step(pairs: Seq<(String, String)>, i: int, n: Seq<char>)
    requires
        0 <= i < pairs.len(),
    ensures
        last_value(pairs.take(i + 1), n) == if pairs[i].0@ == n { Some(pairs[i].1@) } else { last_value(pairs.take(i), n) },
{
    assert(pairs.take(i + 1).drop_last() =~= pairs.take(i));
}

proof fn lemma_last_value_named(pairs: Seq<(String, String)>, n: Seq<char>)
    requires
        last_value(pairs, n) is Some,
    ensures
        name_paired(pairs, n),
    decreases pairs.len(),
{
    if pairs.last().0@ == n {
        assert(pairs[pairs.len() - 1].0@ == n);
    } else {
        lemma_last_value_named(pairs.drop_last(), n);
        let i = choose|i: int| 0 <= i < pairs.drop_last().len() && (#[trigger] pairs.drop_last()[i]).0@ == n;
        assert(pairs[i] == pairs.drop_last()[i]);
    }
}

proof fn lemma_with_value_twice(m: MetadatModel, kind: MetadatKind, a: Seq<char>, b: Seq<char>)
    ensures
        with_value(with_value(m, kind, a), kind, b) == with_value(m, kind, b),
{
}

proof fn lemma_base_unique(recs: Seq<UpstreamMetadat>, k: int)
    requires
        names_sorted(recs),
        0 <= k < recs.len(),
    ensures
        base_of(recs, recs[k].name@) == metadat_view(recs[k]),
{
    let n = recs[k].name@;
    assert(name_recorded(recs, n));
    lemma_named_index(recs, n);
    let c = named_index(recs, n);
    if c != k {
        if c < k {
            assert(crate::text::lex_lt(recs[c].name@, recs[k].name@));
        } else {
            assert(crate::text::lex_lt(recs[k].name@, recs[c].name@));
        }
        crate::text::lemma_lex_lt_irreflexive(n);
    }
}

/// What holds of the records after the first `i` pairs are merged.
pub open spec fn merge_state(
    orig: Seq<UpstreamMetadat>,
    kind: MetadatKind,
    all: Seq<(String, String)>,
    i: int,
    recs: Seq<UpstreamMetadat>,
) -> bool {
    &&& names_sorted(recs)
    &&& forall|k: int|
        0 <= k < recs.len() ==> metadat_view(#[trigger] recs[k]) == merged_of(orig, kind, all.take(i), recs[k].name@)
    &&& forall|k: int| 0 <= k < orig.len() ==> #[trigger] name_recorded(recs, orig[k].name@)
    &&& forall|j: int| 0 <= j < i ==> #[trigger] name_recorded(recs, all[j].0@)
    &&& forall|k: int|
        0 <= k < recs.len() ==> name_recorded(orig, (#[trigger] recs[k]).name@) || name_paired(
            all.take(i),
            recs[k].name@,
        )
}

/// Stored values of the first `i + 1` pairs: as of the first `i`, except
/// that `n`, the name of pair `i`, now has that pair's value.
proof fn lemma_merged_step(
    orig: Seq<UpstreamMetadat>,
    kind: MetadatKind,
    all: Seq<(String, String)>,
    i: int,
    m: Seq<char>,
)
    requires
        0 <= i < all.len(),
    ensures
        m != all[i].0@ ==> merged_of(orig, kind, all.take(i + 1), m) == merged_of(orig, kind, all.take(i), m),
        m == all[i].0@ ==> merged_of(orig, kind, all.take(i + 1), m) == with_value(
            merged_of(orig, kind, all.take(i), m),
            kind,
            all[i].1@,
        ),
{
    lemma_last_value_step(all, i, m);
    match last_value(all.take(i), m) {
        Some(v0) => {
            lemma_with_value_twice(base_of(orig, m), kind, v0, all[i].1@);
        },
        None => {},
    }
}

/// Names a pair of the first `i + 1` gives: those of the first `i`, and
/// that of pair `i`.
proof fn lemma_paired_step(all: Seq<(String, String)>, i: int, m: Seq<char>)
    requires
        0 <= i < all.len(),
        name_paired(all.take(i), m) || m == all[i].0@,
    ensures
        name_paired(all.take(i + 1), m),
{
    if m == all[i].0@ {
        assert(all.take(i + 1)[i] == all[i]);
    } else {
        let j = choose|j: int| 0 <= j < all.take(i).len() && (#[trigger] all.take(i)[j]).0@ == m;
        assert(all.take(i + 1)[j] == all.take(i)[j]);
    }
}

/// Pair `i`, whose name is recorded at `q`, stored into that record.
#[verifier::rlimit(60)]
#[verifier::spinoff_prover]
proof fn lemma_merge_recorded(
    orig: Seq<UpstreamMetadat>,
    kind: MetadatKind,
    all: Seq<(String, String)>,
    i: int,
    before: Seq<UpstreamMetadat>,
    q: int,
    e: UpstreamMetadat,
)
    requires
        names_sorted(orig),
        merge_state(orig, kind, all, i, before),
        0 <= i < all.len(),
        0 <= q < before.len(),
        before[q].name@ == all[i].0@,
        metadat_view(e) == with_value(metadat_view(before[q]), kind, all[i].1@),
    ensures
        merge_state(orig, kind, all, i + 1, before.update(q, e)),
{
    let n = all[i].0@;
    let after = before.update(q, e);
    assert(e.name@ == n);
    assert forall|k: int| 0 <= k < after.len() implies (#[trigger] after[k]).name@ == before[k].name@ by {}
    assert forall|a: int, b: int| 0 <= a < b < after.len() implies crate::text::lex_lt(
        #[trigger] after[a].name@,
        #[trigger] after[b].name@,
    ) by {
        assert(after[a].name@ == before[a].name@ && after[b].name@ == before[b].name@);
    }
    assert forall|k: int| 0 <= k < after.len() implies metadat_view(#[trigger] after[k]) == merged_of(
        orig,
        kind,
        all.take(i + 1),
        after[k].name@,
    ) by {
        lemma_merged_step(orig, kind, all, i, after[k].name@);
        if k != q {
            assert(after[k] == before[k]);
            if k < q {
                assert(crate::text::lex_lt(before[k].name@, before[q].name@));
            } else {
                assert(crate::text::lex_lt(before[q].name@, before[k].name@));
            }
            crate::text::lemma_lex_lt_irreflexive(n);
        }
    }
    assert forall|k: int| 0 <= k < orig.len() implies #[trigger] name_recorded(after, orig[k].name@) by {
        assert(name_recorded(before, orig[k].name@));
        let z = choose|z: int| 0 <= z < before.len() && (#[trigger] before[z]).name@ == orig[k].name@;
        assert(after[z].name@ == before[z].name@);
    }
    assert forall|j: int| 0 <= j < i + 1 implies #[trigger] name_recorded(after, all[j].0@) by {
        if j == i {
            assert(after[q].name@ == all[j].0@);
        } else {
            assert(name_recorded(before, all[j].0@));
            let z = choose|z: int| 0 <= z < before.len() && (#[trigger] before[z]).name@ == all[j].0@;
            assert(after[z].name@ == before[z].name@);
        }
    }
    assert forall|k: int| 0 <= k < after.len() implies name_recorded(orig, (#[trigger] after[k]).name@)
        || name_paired(all.take(i + 1), after[k].name@) by {
        assert(after[k].name@ == before[k].name@);
        assert(name_recorded(orig, before[k].name@) || name_paired(all.take(i), before[k].name@));
        if !name_recorded(orig, before[k].name@) {
            lemma_paired_step(all, i, before[k].name@);
        }
    }
}

/// The name of pair `i`, in no record, is also in none of the starting
/// records and in no earlier pair.
proof fn lemma_unrecorded(
    orig: Seq<UpstreamMetadat>,
    kind: MetadatKind,
    all: Seq<(String, String)>,
    i: int,
    before: Seq<UpstreamMetadat>,
)
    requires
        merge_state(orig, kind, all, i, before),
        0 <= i < all.len(),
        forall|z: int| 0 <= z < before.len() ==> (#[trigger] before[z]).name@ != all[i].0@,
    ensures
        !name_recorded(orig, all[i].0@),
        last_value(all.take(i), all[i].0@) is None,
        merged_of(orig, kind, all.take(i), all[i].0@) == fresh_metadat(all[i].0@),
{
    let n = all[i].0@;
    lemma_named_index(orig, n);
    if name_recorded(orig, n) {
        let k = choose|k: int| 0 <= k < orig.len() && (#[trigger] orig[k]).name@ == n;
        assert(name_recorded(before, orig[k].name@));
        let z = choose|z: int| 0 <= z < before.len() && (#[trigger] before[z]).name@ == orig[k].name@;
    }
    if last_value(all.take(i), n) is Some {
        lemma_last_value_named(all.take(i), n);
        let j = choose|j: int| 0 <= j < all.take(i).len() && (#[trigger] all.take(i)[j]).0@ == n;
        assert(all.take(i)[j] == all[j]);
        assert(name_recorded(before, all[j].0@));
        let z = choose|z: int| 0 <= z < before.len() && (#[trigger] before[z]).name@ == all[j].0@;
    }
}

/// Pair `i`, whose name is not recorded, stored into a fresh record
/// inserted at `q`, its place in name order.
#[verifier::rlimit(60)]
#[verifier::spinoff_prover]
proof fn lemma_merge_fresh(
    orig: Seq<UpstreamMetadat>,
    kind: MetadatKind,
    all: Seq<(String, String)>,
    i: int,
    before: Seq<UpstreamMetadat>,
    q: int,
    e: UpstreamMetadat,
)
    requires
        names_sorted(orig),
        merge_state(orig, kind, all, i, before),
        0 <= i < all.len(),
        0 <= q <= before.len(),
        forall|z: int| 0 <= z < before.len() ==> (#[trigger] before[z]).name@ != all[i].0@,
        forall|z: int| 0 <= z < q ==> crate::text::lex_lt((#[trigger] before[z]).name@, all[i].0@),
        q < before.len() ==> crate::text::lex_lt(all[i].0@, before[q].name@),
        metadat_view(e) == with_value(fresh_metadat(all[i].0@), kind, all[i].1@),
    ensures
        merge_state(orig, kind, all, i + 1, before.insert(q, e)),
{
    let n = all[i].0@;
    let after = before.insert(q, e);
    assert(e.name@ == n);
    lemma_unrecorded(orig, kind, all, i, before);
    assert forall|a: int, b: int| 0 <= a < b < after.len() implies crate::text::lex_lt(
        #[trigger] after[a].name@,
        #[trigger] after[b].name@,
    ) by {
        if b < q {
            assert(after[a] == before[a] && after[b] == before[b]);
        } else if b == q {
            assert(after[a] == before[a]);
        } else if a < q {
            assert(after[a] == before[a] && after[b] == before[b - 1]);
            crate::text::lemma_lex_lt_transitive(before[a].name@, n, before[q].name@);
            if b - 1 > q {
                crate::text::lemma_lex_lt_transitive(before[a].name@, before[q].name@, before[b - 1].name@);
            }
        } else if a == q {
            assert(after[b] == before[b - 1]);
            if b - 1 > q {
                crate::text::lemma_lex_lt_transitive(n, before[q].name@, before[b - 1].name@);
            }
        } else {
            assert(after[a] == before[a - 1] && after[b] == before[b - 1]);
        }
    }
    assert forall|k: int| 0 <= k < after.len() implies metadat_view(#[trigger] after[k]) == merged_of(
        orig,
        kind,
        all.take(i + 1),
        after[k].name@,
    ) by {
        lemma_merged_step(orig, kind, all, i, after[k].name@);
        if k < q {
            assert(after[k] == before[k]);
        } else if k > q {
            assert(after[k] == before[k - 1]);
        }
    }
    assert forall|k: int| 0 <= k < orig.len() implies #[trigger] name_recorded(after, orig[k].name@) by {
        assert(name_recorded(before, orig[k].name@));
        let z = choose|z: int| 0 <= z < before.len() && (#[trigger] before[z]).name@ == orig[k].name@;
        if z < q {
            assert(after[z] == before[z]);
        } else {
            assert(after[z + 1] == before[z]);
        }
    }
    assert forall|j: int| 0 <= j < i + 1 implies #[trigger] name_recorded(after, all[j].0@) by {
        if j == i {
            assert(after[q].name@ == all[j].0@);
        } else {
            assert(name_recorded(before, all[j].0@));
            let z = choose|z: int| 0 <= z < before.len() && (#[trigger] before[z]).name@ == all[j].0@;
            if z < q {
                assert(after[z] == before[z]);
            } else {
                assert(after[z + 1] == before[z]);
            }
        }
    }
    assert forall|k: int| 0 <= k < after.len() implies name_recorded(orig, (#[trigger] after[k]).name@)
        || name_paired(all.take(i + 1), after[k].name@) by {
        if k == q {
            lemma_paired_step(all, i, n);
        } else {
            let b = if k < q { k } else { k - 1 };
            assert(after[k] == before[b]);
            assert(name_recorded(orig, before[b].name@) || name_paired(all.take(i), before[b].name@));
            if !name_recorded(orig, before[b].name@) {
                lemma_paired_step(all, i, before[b].name@);
            }
        }
    }
}

/// Before any pair is merged, the records are as they were.
proof fn lemma_merge_start(orig: Seq<UpstreamMetadat>, kind: MetadatKind, all: Seq<(String, String)>)
    requires
        names_sorted(orig),
    ensures
        merge_state(orig, kind, all, 0, orig),
{
    assert forall|k: int| 0 <= k < orig.len() implies metadat_view(#[trigger] orig[k]) == merged_of(
        orig,
        kind,
        all.take(0),
        orig[k].name@,
    ) by {
        lemma_base_unique(orig, k);
    }
    assert forall|k: int| 0 <= k < orig.len() implies #[trigger] name_recorded(orig, orig[k].name@) by {}
    assert forall|k: int| 0 <= k < orig.len() implies name_recorded(orig, (#[trigger] orig[k]).name@) || name_paired(
        all.take(0),
        orig[k].name@,
    ) by {}
}

/// Merge the (name, value) pairs of one kind of catalog into the records,
/// which are kept one per name in increasing order of name: a name not yet
/// recorded gets a fresh record (its title normalized), and each pair
/// stores its value over the name's record, the last pair of a name
/// winning.
pub fn merge_metadat_pairs(records: &mut Vec<UpstreamMetadat>, kind: MetadatKind, pairs: Vec<(String, String)>)
    requires
        names_sorted(old(records)@),
    ensures
        merge_state(old(records)@, kind, pairs@, pairs.len() as int, final(records)@),
{
    let ghost orig = records@;
    let ghost all = pairs@;
    assert(all.len() == pairs.len());
    let mut rest = pairs;
    let mut taken: Vec<(String, String)> = Vec::new();
    while rest.len() > 0
        invariant
            rest@ + taken@.reverse() == all,
            all.len() <= usize::MAX,
        decreases rest.len(),
    {
        let ghost r0 = rest@;
        let ghost t0 = taken@;
        let p = rest.pop().unwrap();
        taken.push(p);
        proof {
            assert(r0 == rest@.push(p));
            assert(taken@.reverse() =~= seq![p] + t0.reverse());
            assert(rest@ + taken@.reverse() =~= r0 + t0.reverse());
        }
    }
    assert(taken@.reverse() =~= all);
    let mut i: usize = 0;
    proof {
        lemma_merge_start(orig, kind, all);
    }
    while taken.len() > 0
        invariant
            i + taken.len() == all.len(),
            all.len() <= usize::MAX,
            taken@.reverse() == all.skip(i as int),
            names_sorted(orig),
            merge_state(orig, kind, all, i as int, records@),
        decreases taken.len(),
    {
        let ghost t0 = taken@;
        let (name, value) = taken.pop().unwrap();
        proof {
            assert(t0 == taken@.push((name, value)));
            assert(t0.reverse() =~= seq![(name, value)] + taken@.reverse());
            assert(all.skip(i as int)[0] == (name, value));
            assert(all[i as int] == (name, value));
            assert(all.skip(i + 1) =~= all.skip(i as int).drop_first());
            assert(taken@.reverse() =~= (seq![(name, value)] + taken@.reverse()).drop_first());
        }
        let ghost before = records@;
        let key = chars_of(name.as_str());
        let mut q: usize = 0;
        while q < records.len() && crate::text::lex_less(&chars_of(records[q].name.as_str()), &key)
            invariant
                q <= records.len(),
                forall|z: int| 0 <= z < q ==> crate::text::lex_lt((#[trigger] records@[z]).name@, key@),
            decreases records.len() - q,
        {
            q += 1;
        }
        let present = q < records.len() && crate::text::str_eq(records[q].name.as_str(), name.as_str());
        if present {
            let mut e = records.remove(q);
            merge_metadat_value(&mut e, kind, value);
            proof {
                lemma_merge_recorded(orig, kind, all, i as int, before, q as int, e);
            }
            records.insert(q, e);
            assert(records@ =~= before.update(q as int, e));
        } else {
            let normalized = crate::normalize::normalize_title(name.as_str());
            let mut e = UpstreamMetadat {
                name,
                normalized,
                genre: None,
                developer: None,
                publisher: None,
                release_year: None,
                users: None,
            };
            merge_metadat_value(&mut e, kind, value);
            proof {
                let n = all[i as int].0@;
                if q < before.len() {
                    crate::text::lemma_lex_lt_total(before[q as int].name@, n);
                }
                assert forall|z: int| 0 <= z < before.len() implies (#[trigger] before[z]).name@ != n by {
                    crate::text::lemma_lex_lt_irreflexive(n);
                    if z > q {
                        crate::text::lemma_lex_lt_transitive(n, before[q as int].name@, before[z].name@);
                    }
                }
                lemma_merge_fresh(orig, kind, all, i as int, before, q as int, e);
            }
            records.insert(q, e);
        }
        i += 1;
    }
}
} // verus!
