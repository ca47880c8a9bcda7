//! The decisions of an identification pass over a system's library: which
//! identification path a game takes, which files the hashing pre-pass
//! reads, how each game's outcome is counted and reported.
//!
//! Reading files, hashing discs and querying the library database are the
//! caller's part; it reports each game's outcome here.
use vstd::prelude::*;
use crate::rom_hashes::{cd_container_ext, disc_shape_system, is_cd_container_ext, is_disc_shape_system};
use crate::rom_header::{HeaderRule, Sha1Candidate};
use crate::text::{push_str, str_eq, string_of};

verus! {

/// Progress of a pass, reported after each game.
#[derive(Clone, Debug)]
pub struct RomResolveProgress {
    pub system_id: String,
    pub done: usize,
    pub total: usize,
    pub current_title: String,
    pub last_action: String,
}

/// The tallies of a pass.
#[derive(Clone, Debug)]
pub struct RomResolveSummary {
    pub system_id: String,
    /// Games whose content was examined (a hash computed or a disc id read).
    pub scanned: usize,
    pub matched: usize,
    pub unmatched: usize,
    /// Disc images without a recognisable disc id.
    pub skipped_cd: usize,
    pub errors: usize,
    /// Canonical hash entries known for the system at the start.
    pub canonical_entries: i64,
    /// Library games of the system at the start.
    pub library_total: i64,
    /// Of those, games already identified.
    pub already_identified: i64,
}

/// The tallies of a hash-table sync.
#[derive(Clone, Debug)]
pub struct RomHashSyncSummary {
    pub system_id: String,
    pub upstream_entries: usize,
    pub written: usize,
    pub from_cache: bool,
}

/// The tallies of a MAME title sync.
#[derive(Clone, Copy, Debug)]
pub struct MameTitleSyncSummary {
    pub upstream_entries: usize,
    pub written: usize,
}

impl RomResolveSummary {
    /// The tallies of a pass that has not looked at any game yet.
    pub fn new(system_id: String, canonical_entries: i64, library_total: i64, already_identified: i64) -> (r: Self)
        ensures
            r.system_id == system_id,
            r.scanned == 0 && r.matched == 0 && r.unmatched == 0 && r.skipped_cd == 0 && r.errors == 0,
            r.canonical_entries == canonical_entries,
            r.library_total == library_total,
            r.already_identified == already_identified,
    {
        RomResolveSummary {
            system_id,
            scanned: 0,
            matched: 0,
            unmatched: 0,
            skipped_cd: 0,
            errors: 0,
            canonical_entries,
            library_total,
            already_identified,
        }
    }
}

/// How the identification of one game ended.
#[derive(Clone, Debug)]
pub enum GameOutcome {
    /// A disc matched a canonical title by its file name.
    FuzzyMatched { title: String, stamp_failed: bool },
    /// A disc matched a canonical title by its per-track hashes.
    PerTrackMatched { title: String, stamp_failed: bool },
    /// A disc's id matched a known serial.
    DiscIdMatched { title: String, stamp_failed: bool },
    /// A disc's id was read but matched no serial.
    DiscIdUnmatched { disc_id: String, stamp_failed: bool },
    /// A disc image without a disc id matched by its whole-file hash.
    FileShaMatched { title: String, stamp_failed: bool },
    /// A disc image without a disc id whose whole-file hash matched nothing.
    FileShaUnmatched { sha1: String },
    /// A disc image without a recognisable disc id, not hashed.
    NoDiscSignature { ext: String },
    /// Reading a disc image for its id failed.
    DiscReadFailed { message: String },
    /// Reading a cartridge ROM failed.
    RomReadFailed { message: String },
    /// A cartridge ROM's hash matched, raw or with its header stripped.
    HashMatched { title: String, header_stripped: bool, stamp_failed: bool },
    /// No candidate hash of a cartridge ROM matched.
    HashUnmatched { stamp_failed: bool },
}

/// Whether an outcome counts the game as scanned.
pub open spec fn counts_scanned(o: GameOutcome) -> bool {
    match o {
        GameOutcome::FuzzyMatched { .. } | GameOutcome::PerTrackMatched { .. } | GameOutcome::DiscIdMatched {
            ..
        } | GameOutcome::DiscIdUnmatched { .. } | GameOutcome::HashMatched { .. } | GameOutcome::HashUnmatched {
            ..
        } => true,
        _ => false,
    }
}

/// Whether an outcome counts the game as matched.
pub open spec fn counts_matched(o: GameOutcome) -> bool {
    match o {
        GameOutcome::FuzzyMatched { .. } | GameOutcome::PerTrackMatched { .. } | GameOutcome::DiscIdMatched {
            ..
        } | GameOutcome::FileShaMatched { .. } | GameOutcome::HashMatched { .. } => true,
        _ => false,
    }
}

/// Whether an outcome counts the game as unmatched.
pub open spec fn counts_unmatched(o: GameOutcome) -> bool {
    o is DiscIdUnmatched || o is FileShaUnmatched || o is HashUnmatched
}

/// Whether an outcome counts an error: a failed read, or a failed write of
/// the identification to the library.
pub open spec fn counts_error(o: GameOutcome) -> bool {
    match o {
        GameOutcome::FuzzyMatched { stamp_failed, .. } => stamp_failed,
        GameOutcome::PerTrackMatched { stamp_failed, .. } => stamp_failed,
        GameOutcome::DiscIdMatched { stamp_failed, .. } => stamp_failed,
        GameOutcome::DiscIdUnmatched { stamp_failed, .. } => stamp_failed,
        GameOutcome::FileShaMatched { stamp_failed, .. } => stamp_failed,
        GameOutcome::HashMatched { stamp_failed, .. } => stamp_failed,
        GameOutcome::HashUnmatched { stamp_failed } => stamp_failed,
        GameOutcome::DiscReadFailed { .. } | GameOutcome::RomReadFailed { .. } => true,
        _ => false,
    }
}

/// `n` plus one when `b` holds.
pub open spec fn bump(n: usize, b: bool) -> int {
    if b { n + 1 } else { n as int }
}

/// Count one game's outcome into the tallies.
pub fn record_outcome(summary: &mut RomResolveSummary, outcome: &GameOutcome)
    requires
        old(summary).scanned < usize::MAX,
        old(summary).matched < usize::MAX,
        old(summary).unmatched < usize::MAX,
        old(summary).skipped_cd < usize::MAX,
        old(summary).errors < usize::MAX,
    ensures
        final(summary).scanned == bump(old(summary).scanned, counts_scanned(*outcome)),
        final(summary).matched == bump(old(summary).matched, counts_matched(*outcome)),
        final(summary).unmatched == bump(old(summary).unmatched, counts_unmatched(*outcome)),
        final(summary).skipped_cd == bump(old(summary).skipped_cd, outcome is NoDiscSignature),
        final(summary).errors == bump(old(summary).errors, counts_error(*outcome)),
        final(summary).system_id == old(summary).system_id,
        final(summary).canonical_entries == old(summary).canonical_entries,
        final(summary).library_total == old(summary).library_total,
        final(summary).already_identified == old(summary).already_identified,
{
    let (scanned, matched, unmatched, skipped, error) = match outcome {
        GameOutcome::FuzzyMatched { stamp_failed, .. } => (true, true, false, false, *stamp_failed),
        GameOutcome::PerTrackMatched { stamp_failed, .. } => (true, true, false, false, *stamp_failed),
        GameOutcome::DiscIdMatched { stamp_failed, .. } => (true, true, false, false, *stamp_failed),
        GameOutcome::DiscIdUnmatched { stamp_failed, .. } => (true, false, true, false, *stamp_failed),
        GameOutcome::FileShaMatched { stamp_failed, .. } => (false, true, false, false, *stamp_failed),
        GameOutcome::FileShaUnmatched { .. } => (false, false, true, false, false),
        GameOutcome::NoDiscSignature { .. } => (false, false, false, true, false),
        GameOutcome::DiscReadFailed { .. } => (false, false, false, false, true),
        GameOutcome::RomReadFailed { .. } => (false, false, false, false, true),
        GameOutcome::HashMatched { stamp_failed, .. } => (true, true, false, false, *stamp_failed),
        GameOutcome::HashUnmatched { stamp_failed } => (true, false, true, false, *stamp_failed),
    };
    if scanned {
        summary.scanned = summary.scanned + 1;
    }
    if matched {
        summary.matched = summary.matched + 1;
    }
    if unmatched {
        summary.unmatched = summary.unmatched + 1;
    }
    if skipped {
        summary.skipped_cd = summary.skipped_cd + 1;
    }
    if error {
        summary.errors = summary.errors + 1;
    }
}

/// The progress line reported for an outcome.
pub open spec fn action_text(o: GameOutcome) -> Seq<char> {
    match o {
        GameOutcome::FuzzyMatched { title, .. } => "matched (filename) → "@ + title@,
        GameOutcome::PerTrackMatched { title, .. } => "matched (per-track) → "@ + title@,
        GameOutcome::DiscIdMatched { title, .. } => "matched (disc-id) → "@ + title@,
        GameOutcome::DiscIdUnmatched { disc_id, .. } => "disc-id "@ + disc_id@ + " — no match"@,
        GameOutcome::FileShaMatched { title, .. } => "matched (file-sha1) → "@ + title@,
        GameOutcome::FileShaUnmatched { sha1 } => "file-sha1 "@ + sha1@ + " — no match"@,
        GameOutcome::NoDiscSignature { ext } => "no disc-id signature in ."@ + ext@,
        GameOutcome::DiscReadFailed { message } => "disc-id read failed: "@ + message@,
        GameOutcome::RomReadFailed { message } => "read error: "@ + message@,
        GameOutcome::HashMatched { title, header_stripped, .. } => if header_stripped {
            "matched (header-stripped) → "@ + title@
        } else {
            "matched → "@ + title@
        },
        GameOutcome::HashUnmatched { .. } => "no match"@,
    }
}

fn joined(a: &str, b: &str, c: &str) -> (r: String)
    ensures
        r@ == a@ + b@ + c@,
{
    let mut out: Vec<char> = Vec::new();
    push_str(&mut out, a);
    push_str(&mut out, b);
    push_str(&mut out, c);
    string_of(&out)
}

/// The progress line reported for an outcome.
pub fn last_action(outcome: &GameOutcome) -> (r: String)
    ensures
        r@ == action_text(*outcome),
{
    proof {
        reveal_strlit("");
    }
    match outcome {
        GameOutcome::FuzzyMatched { title, .. } => joined("matched (filename) → ", title.as_str(), ""),
        GameOutcome::PerTrackMatched { title, .. } => joined("matched (per-track) → ", title.as_str(), ""),
        GameOutcome::DiscIdMatched { title, .. } => joined("matched (disc-id) → ", title.as_str(), ""),
        GameOutcome::DiscIdUnmatched { disc_id, .. } => joined("disc-id ", disc_id.as_str(), " — no match"),
        GameOutcome::FileShaMatched { title, .. } => joined("matched (file-sha1) → ", title.as_str(), ""),
        GameOutcome::FileShaUnmatched { sha1 } => joined("file-sha1 ", sha1.as_str(), " — no match"),
        GameOutcome::NoDiscSignature { ext } => joined("no disc-id signature in .", ext.as_str(), ""),
        GameOutcome::DiscReadFailed { message } => joined("disc-id read failed: ", message.as_str(), ""),
        GameOutcome::RomReadFailed { message } => joined("read error: ", message.as_str(), ""),
        GameOutcome::HashMatched { title, header_stripped, .. } => {
            if *header_stripped {
                joined("matched (header-stripped) → ", title.as_str(), "")
            } else {
                joined("matched → ", title.as_str(), "")
            }
        },
        GameOutcome::HashUnmatched { .. } => joined("no match", "", ""),
    }
}

/// The progress record reported after the `done`-th of `total` games.
pub fn progress_for(system_id: &str, done: usize, total: usize, current_title: &str, outcome: &GameOutcome) -> (r:
    RomResolveProgress)
    ensures
        r.system_id@ == system_id@,
        r.done == done,
        r.total == total,
        r.current_title@ == current_title@,
        r.last_action@ == action_text(*outcome),
{
    RomResolveProgress {
        system_id: crate::text::owned(system_id),
        done,
        total,
        current_title: crate::text::owned(current_title),
        last_action: last_action(outcome),
    }
}

// ---------------------------------------------------------------------
// Paths through a pass
// ---------------------------------------------------------------------

/// The progress label and unit of a pass: discs on disc-based systems,
/// ROMs (counted as games) elsewhere.
pub fn resolve_job_label(system_id: &str) -> (r: (String, String))
    ensures
        disc_shape_system(system_id@) ==> r.0@ == "Identifying "@ + system_id@ + " discs"@ && r.1@ == "discs"@,
        !disc_shape_system(system_id@) ==> r.0@ == "Identifying "@ + system_id@ + " ROMs"@ && r.1@ == "games"@,
{
    if is_disc_shape_system(system_id) {
        (joined("Identifying ", system_id, " discs"), crate::text::owned("discs"))
    } else {
        (joined("Identifying ", system_id, " ROMs"), crate::text::owned("games"))
    }
}

/// Whether a disc goes through per-track hash identification: on a
/// disc-based system with the experimental switch on, for a disc not
/// inside an archive, when the per-track table has rows (`None` when
/// counting them failed).
pub fn per_track_eligible(disc_shape: bool, experimental: bool, archived: bool, track_rows: Option<i64>) -> (r: bool)
    ensures
        r == (disc_shape && experimental && !archived && (track_rows matches Some(n) && n > 0)),
{
    disc_shape && experimental && !archived && match track_rows {
        Some(n) => n > 0,
        None => false,
    }
}

/// What one disc's identification has learned so far; `None` for a
/// question not asked yet.
#[derive(Clone, Debug)]
pub struct DiscAnswers {
    /// The canonical title the disc's file name matched in the fuzzy index.
    pub fuzzy_title: Option<String>,
    /// Whether per-track identification applies (see `per_track_eligible`).
    pub per_track_eligible: bool,
    /// The per-track answer: the matched title, or none when nothing
    /// matched or the attempt failed.
    pub per_track: Option<Option<String>>,
    /// Reading the disc id: the id, none for no signature, or the error.
    pub disc_id: Option<Result<Option<String>, String>>,
    /// The canonical title the disc id's serial names.
    pub serial_title: Option<Option<String>>,
    /// Whether the whole-file hash applies (see `file_sha_fallback_eligible`).
    pub file_sha_eligible: bool,
    /// Hashing the whole file: the SHA-1, or none when hashing failed.
    pub file_sha: Option<Option<String>>,
    /// The title of this system that the whole-file SHA-1 names.
    pub sha_title: Option<Option<String>>,
}

/// How a disc's identification ended.
#[derive(Clone, Debug)]
pub enum DiscVerdict {
    Fuzzy(String),
    PerTrack(String),
    DiscIdMatched { disc_id: String, title: String },
    DiscIdUnmatched(String),
    FileShaMatched { sha1: String, title: String },
    FileShaUnmatched(String),
    NoSignature,
    ReadFailed(String),
}

/// What a disc's identification does next.
#[derive(Clone, Debug)]
pub enum DiscStep {
    /// Try the per-track hashes.
    AskPerTrack,
    /// Read the disc id.
    AskDiscId,
    /// Look up this disc id among the serials.
    AskSerial(String),
    /// Hash the whole file.
    AskFileSha,
    /// Look up this whole-file SHA-1.
    AskShaLookup(String),
    /// Identification ends here.
    Done(DiscVerdict),
}

/// The order in which a disc is identified: its file name, then its
/// per-track hashes (where they apply), then its disc id and serial, then
/// for an image without a disc id its whole-file hash (where that applies);
/// a disc that none of these reach has no signature.
pub open spec fn disc_step_of(a: DiscAnswers) -> DiscStep {
    match a.fuzzy_title {
        Some(t) => DiscStep::Done(DiscVerdict::Fuzzy(t)),
        None => if a.per_track_eligible && a.per_track is None {
            DiscStep::AskPerTrack
        } else if a.per_track_eligible && a.per_track matches Some(Some(_)) {
            DiscStep::Done(DiscVerdict::PerTrack(a.per_track->0->0))
        } else {
            match a.disc_id {
                None => DiscStep::AskDiscId,
                Some(Err(m)) => DiscStep::Done(DiscVerdict::ReadFailed(m)),
                Some(Ok(Some(id))) => match a.serial_title {
                    None => DiscStep::AskSerial(id),
                    Some(Some(t)) => DiscStep::Done(DiscVerdict::DiscIdMatched { disc_id: id, title: t }),
                    Some(None) => DiscStep::Done(DiscVerdict::DiscIdUnmatched(id)),
                },
                Some(Ok(None)) => if !a.file_sha_eligible {
                    DiscStep::Done(DiscVerdict::NoSignature)
                } else {
                    match a.file_sha {
                        None => DiscStep::AskFileSha,
                        Some(None) => DiscStep::Done(DiscVerdict::NoSignature),
                        Some(Some(sha)) => match a.sha_title {
                            None => DiscStep::AskShaLookup(sha),
                            Some(Some(t)) => DiscStep::Done(DiscVerdict::FileShaMatched { sha1: sha, title: t }),
                            Some(None) => DiscStep::Done(DiscVerdict::FileShaUnmatched(sha)),
                        },
                    }
                },
            }
        },
    }
}

/// The next step of a disc's identification, given what it has learned.
pub fn disc_step(a: &DiscAnswers) -> (r: DiscStep)
    ensures
        r == disc_step_of(*a),
{
    if let Some(t) = &a.fuzzy_title {
        return DiscStep::Done(DiscVerdict::Fuzzy(t.clone()));
    }
    if a.per_track_eligible {
        match &a.per_track {
            None => {
                return DiscStep::AskPerTrack;
            },
            Some(Some(t)) => {
                return DiscStep::Done(DiscVerdict::PerTrack(t.clone()));
            },
            Some(None) => {},
        }
    }
    match &a.disc_id {
        None => DiscStep::AskDiscId,
        Some(Err(m)) => DiscStep::Done(DiscVerdict::ReadFailed(m.clone())),
        Some(Ok(Some(id))) => match &a.serial_title {
            None => DiscStep::AskSerial(id.clone()),
            Some(Some(t)) => DiscStep::Done(DiscVerdict::DiscIdMatched { disc_id: id.clone(), title: t.clone() }),
            Some(None) => DiscStep::Done(DiscVerdict::DiscIdUnmatched(id.clone())),
        },
        Some(Ok(None)) => {
            if !a.file_sha_eligible {
                return DiscStep::Done(DiscVerdict::NoSignature);
            }
            match &a.file_sha {
                None => DiscStep::AskFileSha,
                Some(None) => DiscStep::Done(DiscVerdict::NoSignature),
                Some(Some(sha)) => match &a.sha_title {
                    None => DiscStep::AskShaLookup(sha.clone()),
                    Some(Some(t)) => DiscStep::Done(DiscVerdict::FileShaMatched { sha1: sha.clone(), title: t.clone() }),
                    Some(None) => DiscStep::Done(DiscVerdict::FileShaUnmatched(sha.clone())),
                },
            }
        },
    }
}

/// The outcome a disc verdict is counted and reported as; `ext` is the
/// disc's extension and `stamp_failed` whether recording a match failed.
pub open spec fn disc_outcome_of(v: DiscVerdict, ext: String, stamp_failed: bool) -> GameOutcome {
    match v {
        DiscVerdict::Fuzzy(t) => GameOutcome::FuzzyMatched { title: t, stamp_failed },
        DiscVerdict::PerTrack(t) => GameOutcome::PerTrackMatched { title: t, stamp_failed },
        DiscVerdict::DiscIdMatched { disc_id, title } => GameOutcome::DiscIdMatched { title, stamp_failed },
        DiscVerdict::DiscIdUnmatched(id) => GameOutcome::DiscIdUnmatched { disc_id: id, stamp_failed },
        DiscVerdict::FileShaMatched { sha1, title } => GameOutcome::FileShaMatched { title, stamp_failed },
        DiscVerdict::FileShaUnmatched(sha) => GameOutcome::FileShaUnmatched { sha1: sha },
        DiscVerdict::NoSignature => GameOutcome::NoDiscSignature { ext },
        DiscVerdict::ReadFailed(m) => GameOutcome::DiscReadFailed { message: m },
    }
}

/// The outcome of a disc's verdict.
pub fn disc_outcome(v: DiscVerdict, ext: String, stamp_failed: bool) -> (r: GameOutcome)
    ensures
        r == disc_outcome_of(v, ext, stamp_failed),
{
    match v {
        DiscVerdict::Fuzzy(t) => GameOutcome::FuzzyMatched { title: t, stamp_failed },
        DiscVerdict::PerTrack(t) => GameOutcome::PerTrackMatched { title: t, stamp_failed },
        DiscVerdict::DiscIdMatched { disc_id, title } => GameOutcome::DiscIdMatched { title, stamp_failed },
        DiscVerdict::DiscIdUnmatched(id) => GameOutcome::DiscIdUnmatched { disc_id: id, stamp_failed },
        DiscVerdict::FileShaMatched { sha1, title } => GameOutcome::FileShaMatched { title, stamp_failed },
        DiscVerdict::FileShaUnmatched(sha) => GameOutcome::FileShaUnmatched { sha1: sha },
        DiscVerdict::NoSignature => GameOutcome::NoDiscSignature { ext },
        DiscVerdict::ReadFailed(m) => GameOutcome::DiscReadFailed { message: m },
    }
}

/// Whether a disc image without a disc id may be identified by hashing
/// the whole file: a loose `.iso` on PS2, GameCube or Dreamcast, whose
/// redump catalogs carry whole-file hashes.
pub fn file_sha_fallback_eligible(ext: &str, archived: bool, system_id: &str) -> (r: bool)
    ensures
        r == (ext@ == "iso"@ && !archived && (system_id@ == "ps2"@ || system_id@ == "gamecube"@
            || system_id@ == "dreamcast"@)),
{
    str_eq(ext, "iso") && !archived && (str_eq(system_id, "ps2") || str_eq(system_id, "gamecube") || str_eq(
        system_id,
        "dreamcast",
    ))
}

/// A library file to hash: its path and, inside an archive, its entry.
pub open spec fn key_view(k: (String, Option<String>)) -> (Seq<char>, Option<Seq<char>>) {
    (k.0@, match k.1 {
        Some(s) => Some(s@),
        None => None,
    })
}

/// A game as the hashing pre-pass sees it: path, archive entry and
/// lower-case extension.
pub open spec fn game_key(g: (String, Option<String>, String)) -> (Seq<char>, Option<Seq<char>>) {
    (g.0@, match g.1 {
        Some(s) => Some(s@),
        None => None,
    })
}

fn opt_eq(a: &Option<String>, b: &Option<String>) -> (r: bool)
    ensures
        r == (match *a {
            Some(s) => Some(s@),
            None => None::<Seq<char>>,
        } == match *b {
            Some(s) => Some(s@),
            None => None::<Seq<char>>,
        }),
{
    match (a, b) {
        (Some(x), Some(y)) => str_eq(x.as_str(), y.as_str()),
        (None, None) => true,
        _ => false,
    }
}

fn opt_clone(a: &Option<String>) -> (r: Option<String>)
    ensures
        r == *a,
{
    match a {
        Some(s) => Some(s.clone()),
        None => None,
    }
}

/// Some game among the first `n`, not a disc container, is the file `key`.
pub open spec fn cart_game_with_key(
    games: Seq<(String, Option<String>, String)>,
    n: int,
    system_id: Seq<char>,
    key: (Seq<char>, Option<Seq<char>>),
) -> bool {
    exists|j: int| 0 <= j < n && !cd_container_ext((#[trigger] games[j]).2@, system_id) && game_key(games[j]) == key
}

/// Some listed file is `key`.
pub open spec fn key_listed(out: Seq<(String, Option<String>)>, key: (Seq<char>, Option<Seq<char>>)) -> bool {
    exists|k: int| 0 <= k < out.len() && key_view(#[trigger] out[k]) == key
}

/// The files of `games` to hash, in first-seen order: each game that is
/// not a disc container, once per distinct file.
pub open spec fn cart_keys(
    games: Seq<(String, Option<String>, String)>,
    system_id: Seq<char>,
) -> Seq<(Seq<char>, Option<Seq<char>>)>
    decreases games.len(),
{
    if games.len() == 0 {
        Seq::empty()
    } else {
        let prev = cart_keys(games.drop_last(), system_id);
        let g = games.last();
        if !cd_container_ext(g.2@, system_id) && !prev.contains(game_key(g)) {
            prev.push(game_key(g))
        } else {
            prev
        }
    }
}

/// The file keys of a list, in order.
pub open spec fn key_views(v: Seq<(String, Option<String>)>) -> Seq<(Seq<char>, Option<Seq<char>>)> {
    v.map_values(|k: (String, Option<String>)| key_view(k))
}

/// The files the parallel hashing pre-pass reads: each game that is not a
/// disc container, once per distinct file, in first-seen order.
pub fn cart_hash_keys(games: &[(String, Option<String>, String)], system_id: &str) -> (r: Vec<(String, Option<String>)>)
    ensures
        key_views(r@) == cart_keys(games@, system_id@),
        forall|a: int, b: int| 0 <= a < b < r.len() ==> key_view(#[trigger] r@[a]) != key_view(#[trigger] r@[b]),
        forall|k: int|
            0 <= k < r.len() ==> #[trigger] cart_game_with_key(games@, games.len() as int, system_id@, key_view(r@[k])),
        forall|i: int|
            0 <= i < games.len() && !cd_container_ext(games@[i].2@, system_id@) ==> #[trigger] key_listed(
                r@,
                game_key(games@[i]),
            ),
{
    let mut out: Vec<(String, Option<String>)> = Vec::new();
    let mut i: usize = 0;
    while i < games.len()
        invariant
            i <= games.len(),
            key_views(out@) == cart_keys(games@.take(i as int), system_id@),
            forall|a: int, b: int| 0 <= a < b < out.len() ==> key_view(#[trigger] out@[a]) != key_view(#[trigger] out@[b]),
            forall|k: int|
                0 <= k < out.len() ==> #[trigger] cart_game_with_key(games@, i as int, system_id@, key_view(out@[k])),
            forall|j: int|
                0 <= j < i && !cd_container_ext(games@[j].2@, system_id@) ==> #[trigger] key_listed(
                    out@,
                    game_key(games@[j]),
                ),
        decreases games.len() - i,
    {
        let g = &games[i];
        proof {
            assert(games@.take(i + 1).drop_last() =~= games@.take(i as int));
            assert(games@.take(i + 1).last() == games@[i as int]);
            assert forall|k: int| 0 <= k < out.len() implies #[trigger] cart_game_with_key(
                games@,
                i + 1,
                system_id@,
                key_view(out@[k]),
            ) by {
                assert(cart_game_with_key(games@, i as int, system_id@, key_view(out@[k])));
                let j = choose|j: int|
                    0 <= j < i && !cd_container_ext((#[trigger] games@[j]).2@, system_id@) && game_key(games@[j])
                        == key_view(out@[k]);
                assert(games@[j] == games@[j]);
            }
        }
        if !is_cd_container_ext(g.2.as_str(), system_id) {
            let mut p: usize = 0;
            let mut seen = false;
            while p < out.len()
                invariant_except_break
                    !seen,
                invariant
                    p <= out.len(),
                    forall|q: int| 0 <= q < p ==> key_view(#[trigger] out@[q]) != game_key(*g),
                ensures
                    seen ==> key_listed(out@, game_key(*g)),
                    !seen ==> forall|q: int| 0 <= q < out.len() ==> key_view(#[trigger] out@[q]) != game_key(*g),
                decreases out.len() - p,
            {
                if str_eq(out[p].0.as_str(), g.0.as_str()) && opt_eq(&out[p].1, &g.1) {
                    seen = true;
                    assert(key_view(out@[p as int]) == game_key(*g));
                    break;
                }
                p += 1;
            }
            if !seen {
                let ghost before = out@;
                out.push((g.0.clone(), opt_clone(&g.1)));
                proof {
                    assert(key_view(out@[before.len() as int]) == game_key(games@[i as int]));
                    assert forall|k: int| 0 <= k < out.len() implies #[trigger] cart_game_with_key(
                        games@,
                        i + 1,
                        system_id@,
                        key_view(out@[k]),
                    ) by {
                        if k < before.len() {
                            assert(out@[k] == before[k]);
                        } else {
                            assert(games@[i as int] == games@[i as int]);
                        }
                    }
                    assert forall|j: int|
                        0 <= j < i + 1 && !cd_container_ext(games@[j].2@, system_id@) implies #[trigger] key_listed(
                            out@,
                            game_key(games@[j]),
                        ) by {
                        if j < i {
                            assert(key_listed(before, game_key(games@[j])));
                            let k0 = choose|k: int| 0 <= k < before.len() && key_view(#[trigger] before[k]) == game_key(games@[j]);
                            assert(out@[k0] == before[k0]);
                        } else {
                            assert(key_view(out@[before.len() as int]) == game_key(games@[j]));
                        }
                    }
                    assert(!key_views(before).contains(game_key(*g))) by {
                        if key_views(before).contains(game_key(*g)) {
                            let k = choose|k: int| 0 <= k < key_views(before).len() && key_views(before)[k] == game_key(*g);
                            assert(key_view(before[k]) == game_key(*g));
                        }
                    }
                    assert(key_views(out@) =~= key_views(before).push(game_key(*g)));
                }
            } else {
                assert(key_views(out@).contains(game_key(*g))) by {
                    let k = choose|k: int| 0 <= k < out.len() && key_view(#[trigger] out@[k]) == game_key(*g);
                    assert(key_views(out@)[k] == game_key(*g));
                }
            }
        }
        i += 1;
    }
    assert(games@.take(games.len() as int) =~= games@);
    out
}

/// The SHA-1 of the as-is candidate, which a game keeps when no candidate
/// matches so that a later pass need not hash it again.
pub fn raw_sha1_of(candidates: &[Sha1Candidate]) -> (r: Option<String>)
    ensures
        match r {
            Some(s) => exists|i: int|
                0 <= i < candidates.len() && (#[trigger] candidates@[i]).rule is Raw && candidates@[i].sha1 == s
                    && forall|j: int| 0 <= j < i ==> !((#[trigger] candidates@[j]).rule is Raw),
            None => forall|i: int| 0 <= i < candidates.len() ==> !((#[trigger] candidates@[i]).rule is Raw),
        },
{
    let mut i: usize = 0;
    while i < candidates.len()
        invariant
            i <= candidates.len(),
            forall|j: int| 0 <= j < i ==> !((#[trigger] candidates@[j]).rule is Raw),
        decreases candidates.len() - i,
    {
        let is_raw = match candidates[i].rule {
            HeaderRule::Raw => true,
            _ => false,
        };
        if is_raw {
            return Some(candidates[i].sha1.clone());
        }
        i += 1;
    }
    None
}

} // verus!
