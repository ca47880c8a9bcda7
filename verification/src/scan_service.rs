//! Folder-scan classification: the rows a scan emits, how each is assigned
//! a system (content hint first, then the extension map), which rows go
//! through hash identification, the confidence of each outcome, and which
//! directory entries the walk descends into or reads.
use vstd::prelude::*;
use crate::rom_header::HeaderRule;
use crate::text::{chars_of, owned, string_of};

verus! {

/// How a row's system was determined, from highest to lowest confidence.
#[derive(Clone, Copy, Debug, PartialEq, Eq, Structural)]
pub enum Confidence {
    /// The SHA-1 of the file's bytes matched a database entry.
    Hash,
    /// The SHA-1 of a header-stripped or byte-swapped view matched.
    Header,
    /// The extension mapped to a system; no hash matched.
    Extension,
    /// The system came from a content peek or a directory-mode hint.
    Hint,
}

/// One row found by a folder scan.
#[derive(Clone, Debug)]
pub struct ScannedRom {
    /// `<archive>#<inner>` for archived entries; the raw path otherwise.
    pub path: String,
    pub file_name: String,
    pub extension: String,
    pub archive_inner_path: Option<String>,
    /// System suggested by a content peek (e.g. a Neo Geo `.zip`).
    pub system_hint: Option<String>,
    /// The system the row was classified to.
    pub system_id: Option<String>,
    /// Title shown before commit: the cleaned file name, or the
    /// canonical name on a hash hit.
    pub suggested_title: Option<String>,
    pub confidence: Option<Confidence>,
    /// The SHA-1 that matched, lower-case hex.
    pub sha1: Option<String>,
}

impl Default for ScannedRom {
    fn default() -> (r: Self)
        ensures
            r.path@.len() == 0 && r.file_name@.len() == 0 && r.extension@.len() == 0,
            r.archive_inner_path is None && r.system_hint is None && r.system_id is None,
            r.suggested_title is None && r.confidence is None && r.sha1 is None,
    {
        ScannedRom {
            path: String::new(),
            file_name: String::new(),
            extension: String::new(),
            archive_inner_path: None,
            system_hint: None,
            system_id: None,
            suggested_title: None,
            confidence: None,
            sha1: None,
        }
    }
}

/// Progress of a running scan.
#[derive(Clone, Debug)]
pub struct ScanProgress {
    pub job_id: u64,
    pub folder: String,
    pub files_seen: u64,
    pub matches: u64,
    pub archived: u64,
    pub current_file: String,
}

/// The final report of a scan.
#[derive(Clone, Debug)]
pub struct ScanCompletePayload {
    pub job_id: u64,
    pub folder: String,
    pub matches: u64,
    pub archived: u64,
    pub cancelled: bool,
    pub error_message: Option<String>,
    pub rows: Vec<ScannedRom>,
}

pub open spec fn opt_chars(o: Option<String>) -> Option<Seq<char>> {
    match o {
        Some(s) => Some(s@),
        None => None,
    }
}

/// The system an extension maps to: the value of the first pair whose
/// key is `ext`.
pub open spec fn mapped_system(map: Seq<(String, String)>, ext: Seq<char>) -> Option<Seq<char>>
    decreases map.len(),
{
    if map.len() == 0 {
        None
    } else if map[0].0@ == ext {
        Some(map[0].1@)
    } else {
        mapped_system(map.drop_first(), ext)
    }
}

/// The system of a row: its content hint, else what its extension maps
/// to.
pub open spec fn row_system(row: ScannedRom, map: Seq<(String, String)>) -> Option<Seq<char>> {
    match row.system_hint {
        Some(h) => Some(h@),
        None => mapped_system(map, row.extension@),
    }
}

/// The system an extension maps to.
pub fn lookup_extension(map: &[(String, String)], ext: &String) -> (r: Option<String>)
    ensures
        opt_chars(r) == mapped_system(map@, ext@),
{
    let mut i: usize = 0;
    assert(map@.skip(0) =~= map@);
    while i < map.len()
        invariant
            i <= map.len(),
            mapped_system(map@, ext@) == mapped_system(map@.skip(i as int), ext@),
        decreases map.len() - i,
    {
        assert(map@.skip(i as int)[0] == map@[i as int]);
        assert(map@.skip(i as int).drop_first() =~= map@.skip(i + 1));
        if map[i].0 == *ext {
            return Some(map[i].1.clone());
        }
        i += 1;
    }
    None
}

/// The system of a row: its content hint, else what its extension maps
/// to (`None` when neither applies).
pub fn classify_row(row: &ScannedRom, extension_to_system: &[(String, String)]) -> (r: Option<String>)
    ensures
        opt_chars(r) == row_system(*row, extension_to_system@),
{
    match &row.system_hint {
        Some(h) => Some(h.clone()),
        None => lookup_extension(extension_to_system, &row.extension),
    }
}

/// The confidence of a hash hit found through a header rule: `Hash` for
/// the raw bytes, `Header` for any strip or swap.
pub open spec fn rule_confidence(rule: HeaderRule) -> Confidence {
    match rule {
        HeaderRule::Raw => Confidence::Hash,
        _ => Confidence::Header,
    }
}

/// The confidence of a hash hit found through a header rule.
pub fn confidence_from_rule(rule: HeaderRule) -> (r: Confidence)
    ensures
        r == rule_confidence(rule),
{
    match rule {
        HeaderRule::Raw => Confidence::Hash,
        HeaderRule::SkipMagic { .. } | HeaderRule::SkipModulo { .. } | HeaderRule::ByteSwap {
            ..
        } => Confidence::Header,
    }
}

/// A row before hash identification: its system, its cleaned title,
/// whether the system came from a hint, and whether hashing is skipped
/// (unclassified rows, hinted rows, disc containers).
#[derive(Clone, Debug)]
pub struct PreClassified {
    pub row_index: usize,
    pub system_id: Option<String>,
    pub suggested_title: String,
    pub from_hint: bool,
    pub skip_hash: bool,
}

/// The outcome for one row.
#[derive(Clone, Debug)]
pub struct SmartClassifyResult {
    pub row_index: usize,
    pub system_id: Option<String>,
    pub suggested_title: Option<String>,
    pub confidence: Option<Confidence>,
    pub sha1: Option<String>,
}

/// Whether hashing is skipped for a row of system `sys`.
pub open spec fn skips_hash(row: ScannedRom, sys: Option<Seq<char>>) -> bool {
    match sys {
        None => true,
        Some(s) => row.system_hint is Some || crate::rom_hashes::cd_container_ext(row.extension@, s),
    }
}

/// The first stage for row `i`.
pub fn pre_classify(i: usize, row: &ScannedRom, extension_to_system: &[(String, String)]) -> (r: PreClassified)
    ensures
        r.row_index == i,
        opt_chars(r.system_id) == row_system(*row, extension_to_system@),
        r.suggested_title@ == crate::title_clean::title_of(row.file_name@),
        r.from_hint == row.system_hint is Some,
        r.skip_hash == skips_hash(*row, row_system(*row, extension_to_system@)),
{
    let from_hint = row.system_hint.is_some();
    let system_id = classify_row(row, extension_to_system);
    let suggested_title = crate::title_clean::title_from_file_name(row.file_name.as_str());
    let skip_hash = match &system_id {
        None => true,
        Some(sys) => from_hint || crate::rom_hashes::is_cd_container_ext(
            row.extension.as_str(),
            sys.as_str(),
        ),
    };
    PreClassified { row_index: i, system_id, suggested_title, from_hint, skip_hash }
}

fn clone_opt(o: &Option<String>) -> (r: Option<String>)
    ensures
        opt_chars(r) == opt_chars(*o),
{
    match o {
        Some(s) => Some(s.clone()),
        None => None,
    }
}

/// The outcome of a row that is not hashed: `Hint` for hinted rows,
/// `Extension` for other classified rows, no confidence when
/// unclassified; the cleaned title either way.
pub fn result_without_hash(p: &PreClassified) -> (r: SmartClassifyResult)
    ensures
        r.row_index == p.row_index,
        opt_chars(r.system_id) == opt_chars(p.system_id),
        opt_chars(r.suggested_title) == Some(p.suggested_title@),
        r.confidence == (match p.system_id {
            Some(_) => if p.from_hint {
                Some(Confidence::Hint)
            } else {
                Some(Confidence::Extension)
            },
            None => None::<Confidence>,
        }),
        r.sha1 is None,
{
    let confidence = match &p.system_id {
        Some(_) => if p.from_hint {
            Some(Confidence::Hint)
        } else {
            Some(Confidence::Extension)
        },
        None => None,
    };
    SmartClassifyResult {
        row_index: p.row_index,
        system_id: clone_opt(&p.system_id),
        suggested_title: Some(p.suggested_title.clone()),
        confidence,
        sha1: None,
    }
}

/// A database hit for one of a row's candidate hashes.
#[derive(Clone, Debug)]
pub struct HashHit {
    /// The system of the database entry.
    pub system_id: String,
    /// The canonical game name.
    pub game_name: String,
    /// The header rule of the candidate that hit.
    pub rule: HeaderRule,
    /// The candidate SHA-1.
    pub sha1: String,
}

/// The outcome of a hashed row of system `system_id`: on a hit, the
/// entry's system and canonical name, the rule's confidence and the
/// SHA-1; without one (unreadable file, no match, cancelled), the row's
/// own system and cleaned title at `Extension` confidence.
pub fn result_from_hash(row_index: usize, system_id: &str, fallback_title: &str, hit: Option<HashHit>) -> (r: SmartClassifyResult)
    ensures
        r.row_index == row_index,
        match hit {
            Some(h) => opt_chars(r.system_id) == Some(h.system_id@) && opt_chars(r.suggested_title)
                == Some(h.game_name@) && r.confidence == Some(rule_confidence(h.rule))
                && opt_chars(r.sha1) == Some(h.sha1@),
            None => opt_chars(r.system_id) == Some(system_id@) && opt_chars(r.suggested_title)
                == Some(fallback_title@) && r.confidence == Some(Confidence::Extension)
                && r.sha1 is None,
        },
{
    match hit {
        Some(h) => {
            let confidence = confidence_from_rule(h.rule);
            SmartClassifyResult {
                row_index,
                system_id: Some(h.system_id),
                suggested_title: Some(h.game_name),
                confidence: Some(confidence),
                sha1: Some(h.sha1),
            }
        },
        None => SmartClassifyResult {
            row_index,
            system_id: Some(owned(system_id)),
            suggested_title: Some(owned(fallback_title)),
            confidence: Some(Confidence::Extension),
            sha1: None,
        },
    }
}

/// The classification fields of a row.
pub struct RowFields {
    pub system_id: Option<Seq<char>>,
    pub suggested_title: Option<Seq<char>>,
    pub confidence: Option<Confidence>,
    pub sha1: Option<Seq<char>>,
}

pub open spec fn fields_of(row: ScannedRom) -> RowFields {
    RowFields {
        system_id: opt_chars(row.system_id),
        suggested_title: opt_chars(row.suggested_title),
        confidence: row.confidence,
        sha1: opt_chars(row.sha1),
    }
}

pub open spec fn result_fields(r: SmartClassifyResult) -> RowFields {
    RowFields {
        system_id: opt_chars(r.system_id),
        suggested_title: opt_chars(r.suggested_title),
        confidence: r.confidence,
        sha1: opt_chars(r.sha1),
    }
}

/// The fields row `i` ends with: those of the last result for it, or its
/// own when there is none.
pub open spec fn final_fields(row: ScannedRom, i: int, results: Seq<SmartClassifyResult>) -> RowFields
    decreases results.len(),
{
    if results.len() == 0 {
        fields_of(row)
    } else if results.last().row_index == i {
        result_fields(results.last())
    } else {
        final_fields(row, i, results.drop_last())
    }
}

/// Write each result onto its row, in order; results for rows that do not
/// exist are passed over. Paths, names and hints are untouched.
pub fn apply_results(rows: &mut Vec<ScannedRom>, results: Vec<SmartClassifyResult>)
    ensures
        final(rows)@.len() == old(rows)@.len(),
        forall|i: int|
            0 <= i < old(rows)@.len() ==> fields_of(#[trigger] final(rows)@[i]) == final_fields(
                old(rows)@[i],
                i,
                results@,
            ) && final(rows)@[i].path == old(rows)@[i].path && final(rows)@[i].file_name
                == old(rows)@[i].file_name && final(rows)@[i].extension == old(rows)@[i].extension
                && opt_chars(final(rows)@[i].archive_inner_path) == opt_chars(old(rows)@[i].archive_inner_path)
                && opt_chars(final(rows)@[i].system_hint) == opt_chars(old(rows)@[i].system_hint),
{
    let ghost orig = rows@;
    let mut k: usize = 0;
    while k < results.len()
        invariant
            k <= results.len(),
            rows@.len() == orig.len(),
            forall|i: int|
                0 <= i < orig.len() ==> fields_of(#[trigger] rows@[i]) == final_fields(
                    orig[i],
                    i,
                    results@.take(k as int),
                ) && rows@[i].path == orig[i].path && rows@[i].file_name == orig[i].file_name
                    && rows@[i].extension == orig[i].extension && opt_chars(rows@[i].archive_inner_path)
                    == opt_chars(orig[i].archive_inner_path) && opt_chars(rows@[i].system_hint) == opt_chars(orig[i].system_hint),
        decreases results.len() - k,
    {
        let r = &results[k];
        proof {
            assert(results@.take(k + 1).drop_last() =~= results@.take(k as int));
            assert(results@.take(k + 1).last() == results@[k as int]);
        }
        if r.row_index < rows.len() {
            let idx = r.row_index;
            let mut row = rows[idx].clone_fields();
            row.system_id = clone_opt(&r.system_id);
            row.suggested_title = clone_opt(&r.suggested_title);
            row.confidence = r.confidence;
            row.sha1 = clone_opt(&r.sha1);
            rows.set(idx, row);
        }
        k += 1;
    }
    assert(results@.take(results.len() as int) =~= results@);
}

impl ScannedRom {
    /// A copy of the row.
    pub fn clone_fields(&self) -> (r: Self)
        ensures
            r.path == self.path && r.file_name == self.file_name && r.extension == self.extension,
            opt_chars(r.archive_inner_path) == opt_chars(self.archive_inner_path),
            opt_chars(r.system_hint) == opt_chars(self.system_hint),
            opt_chars(r.system_id) == opt_chars(self.system_id),
            opt_chars(r.suggested_title) == opt_chars(self.suggested_title),
            r.confidence == self.confidence,
            opt_chars(r.sha1) == opt_chars(self.sha1),
    {
        ScannedRom {
            path: self.path.clone(),
            file_name: self.file_name.clone(),
            extension: self.extension.clone(),
            archive_inner_path: clone_opt(&self.archive_inner_path),
            system_hint: clone_opt(&self.system_hint),
            system_id: clone_opt(&self.system_id),
            suggested_title: clone_opt(&self.suggested_title),
            confidence: self.confidence,
            sha1: clone_opt(&self.sha1),
        }
    }
}

/// What the walk does with one directory entry.
#[derive(Clone, Copy, Debug, PartialEq, Eq, Structural)]
pub enum WalkStep {
    /// Hidden entries, directories past the depth limit, and entries that
    /// are neither files nor directories.
    Skip,
    /// A directory within the depth limit.
    Descend,
    /// A regular file.
    File,
}

/// What the walk does with an entry named `name` at depth `depth`.
pub open spec fn walk_step(name: Seq<char>, is_dir: bool, is_file: bool, depth: u32, max_depth: u32) -> WalkStep {
    if name.len() > 0 && name[0] == '.' {
        WalkStep::Skip
    } else if is_dir {
        if depth + 1 <= max_depth {
            WalkStep::Descend
        } else {
            WalkStep::Skip
        }
    } else if is_file {
        WalkStep::File
    } else {
        WalkStep::Skip
    }
}

/// What the walk does with an entry named `name` at depth `depth`.
pub fn walk_entry(name: &str, is_dir: bool, is_file: bool, depth: u32, max_depth: u32) -> (r: WalkStep)
    ensures
        r == walk_step(name@, is_dir, is_file, depth, max_depth),
{
    let cs = chars_of(name);
    if cs.len() > 0 && cs[0] == '.' {
        WalkStep::Skip
    } else if is_dir {
        if depth < max_depth {
            WalkStep::Descend
        } else {
            WalkStep::Skip
        }
    } else if is_file {
        WalkStep::File
    } else {
        WalkStep::Skip
    }
}

/// The lower-cased extension of a file path, as the walk matches it
/// against the wanted extensions.
pub fn scan_extension(path: &str) -> (r: Option<String>)
    ensures
        opt_chars(r) == crate::media::dump_ext(path@),
{
    match crate::media::dump_ext_chars(path) {
        Some(e) => Some(string_of(&e)),
        None => None,
    }
}

/// Whether `ext` is one of the wanted extensions.
pub fn is_wanted(wanted: &[String], ext: &String) -> (r: bool)
    ensures
        r == exists|i: int| 0 <= i < wanted@.len() && (#[trigger] wanted@[i])@ == ext@,
{
    let mut i: usize = 0;
    while i < wanted.len()
        invariant
            i <= wanted.len(),
            forall|j: int| 0 <= j < i ==> (#[trigger] wanted@[j])@ != ext@,
        decreases wanted.len() - i,
    {
        if wanted[i] == *ext {
            return true;
        }
        i += 1;
    }
    false
}

} // verus!
