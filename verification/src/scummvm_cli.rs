//! Parsing of `scummvm --detect` output. Detection rows have the shape
//! `<gameid> <description> <absolute path>`; header lines, dash rules,
//! blank lines and anything else that does not fit are skipped.
//!
//! The path column is found by walking back from each `/` or `\` to the
//! preceding whitespace. The walk looks at UTF-8 bytes one at a time and
//! treats a byte as whitespace when the `char` of the same value is (so
//! the continuation bytes `0x85` and `0xA0` count); the character model
//! below states exactly which characters stop it, and which would stop it
//! inside a character.
use vstd::prelude::*;
use crate::text::{
    chars_of, index_of_ws, is_alnum, is_ascii_alnum, is_ws, is_whitespace, lemma_index_of_ws_bound,
    has_prefix, lines, lines_of, skip_ws_start, slice_to_vec, starts_with, string_of, trim,
    trim_end, trim_end_vec, trim_start, trim_start_vec, trim_vec, views,
};
use crate::normalize::{utf8_len, utf8_width, lemma_utf8_len_prefix_le};

verus! {

/// One row from the parsed `scummvm --detect` output.
#[derive(Debug, Clone)]
pub struct CliDetectionRow {
    /// Game id as ScummVM reports it.
    pub game_id: String,
    /// Human description from the CLI.
    pub description: String,
    /// Absolute path the CLI reported for this detection.
    pub directory: String,
}

// ---------------------------------------------------------------------
// Bytes of a character
// ---------------------------------------------------------------------

/// A UTF-8 byte that, read as a `char`, is whitespace.
pub open spec fn ws_byte(b: int) -> bool {
    (9 <= b <= 13) || b == 0x20 || b == 0x85 || b == 0xA0
}

/// The last UTF-8 byte of `c`.
pub open spec fn last_byte(c: char) -> int {
    if (c as u32) < 0x80 {
        c as u32 as int
    } else {
        0x80 + (c as u32) % 64
    }
}

/// Whether a byte of `c` other than its first and last is a whitespace byte.
pub open spec fn inner_ws_byte(c: char) -> bool {
    let u = c as u32 as int;
    (u >= 0x800 && ws_byte(0x80 + (u / 64) % 64)) || (u >= 0x10000 && ws_byte(
        0x80 + (u / 4096) % 64,
    ))
}

fn stops_walk(c: char) -> (r: bool)
    ensures
        r == ws_byte(last_byte(c)),
{
    let u = c as u32;
    let b = if u < 0x80 {
        u
    } else {
        0x80 + u % 64
    };
    (9 <= b && b <= 13) || b == 0x20 || b == 0x85 || b == 0xA0
}

fn breaks_walk(c: char) -> (r: bool)
    ensures
        r == inner_ws_byte(c),
{
    let u = c as u32;
    let b1 = 0x80 + (u / 64) % 64;
    let b2 = 0x80 + (u / 4096) % 64;
    (u >= 0x800 && (b1 == 0x85 || b1 == 0xA0)) || (u >= 0x10000 && (b2 == 0x85 || b2 == 0xA0))
}

// ---------------------------------------------------------------------
// Path column
// ---------------------------------------------------------------------

/// Walking back from character index `k` over characters whose bytes are
/// not whitespace: the index the walk stops at, or `None` when it would
/// stop inside a character.
pub open spec fn walk_back(s: Seq<char>, k: int) -> Option<int>
    decreases k,
{
    if k <= 0 {
        Some(0)
    } else if ws_byte(last_byte(s[k - 1])) {
        Some(k)
    } else if inner_ws_byte(s[k - 1]) {
        None
    } else {
        walk_back(s, k - 1)
    }
}

/// Index of the last `/` or `\` before index `i`, or -1.
pub open spec fn last_slash_before(s: Seq<char>, i: int) -> int
    decreases i,
{
    if i <= 0 {
        -1
    } else if s[i - 1] == '/' || s[i - 1] == '\\' {
        i - 1
    } else {
        last_slash_before(s, i - 1)
    }
}

/// Unix (`/...`) or Windows (`X:\...`, `X:/...`) absolute path, after trimming.
pub open spec fn absolute_path(t: Seq<char>) -> bool {
    let u = trim(t);
    (u.len() >= 1 && u[0] == '/') || (u.len() >= 3 && crate::text::is_ascii_alpha(u[0]) && u[1]
        == ':' && (u[2] == '\\' || u[2] == '/'))
}

/// Outcome of the search for the path column.
pub enum PathScan {
    Found(int),
    NotFound,
    /// The walk would stop inside a character.
    Fault,
}

/// Searching from index `i` backwards for the last slash whose
/// whitespace-delimited token is an absolute path.
pub open spec fn path_scan(s: Seq<char>, i: int) -> PathScan
    decreases i + 1,
{
    let p = last_slash_before(s, i);
    if i <= 0 || p < 0 {
        PathScan::NotFound
    } else {
        match walk_back(s, p) {
            None => PathScan::Fault,
            Some(start) => if absolute_path(s.skip(start)) {
                PathScan::Found(start)
            } else {
                proof {
                    lemma_last_slash_bound(s, i);
                }
                path_scan(s, p)
            },
        }
    }
}

pub proof fn lemma_last_slash_bound(s: Seq<char>, i: int)
    requires
        0 <= i,
    ensures
        last_slash_before(s, i) < i,
        i > 0 ==> last_slash_before(s, i) >= -1,
    decreases i,
{
    if i > 0 && !(s[i - 1] == '/' || s[i - 1] == '\\') {
        lemma_last_slash_bound(s, i - 1);
    }
}

pub proof fn lemma_walk_back_bound(s: Seq<char>, k: int)
    ensures
        walk_back(s, k) matches Some(j) ==> 0 <= j && (k >= 0 ==> j <= k),
    decreases k,
{
    if k > 0 && !ws_byte(last_byte(s[k - 1])) && !inner_ws_byte(s[k - 1]) {
        lemma_walk_back_bound(s, k - 1);
    }
}

pub proof fn lemma_path_scan_bound(s: Seq<char>, i: int)
    requires
        0 <= i <= s.len(),
    ensures
        path_scan(s, i) matches PathScan::Found(j) ==> 0 <= j < i,
    decreases i + 1,
{
    let p = last_slash_before(s, i);
    lemma_last_slash_bound(s, i);
    if i > 0 && p >= 0 {
        lemma_walk_back_bound(s, p);
        if let Some(start) = walk_back(s, p) {
            if !absolute_path(s.skip(start)) {
                lemma_path_scan_bound(s, p);
            }
        }
    }
}

fn is_absolute(t: &[char]) -> (r: bool)
    ensures
        r == absolute_path(t@),
{
    let u = trim_vec(t);
    (u.len() >= 1 && u[0] == '/') || (u.len() >= 3 && crate::text::is_alpha(u[0]) && u[1] == ':'
        && (u[2] == '\\' || u[2] == '/'))
}

/// Whether `s` (trimmed) looks like an absolute Unix or Windows path.
pub fn looks_like_absolute_path(s: &str) -> (r: bool)
    ensures
        r == absolute_path(s@),
{
    is_absolute(&chars_of(s))
}

/// The search for the path column, in characters.
fn scan_path(s: &[char]) -> (r: Result<Option<usize>, ()>)
    ensures
        match path_scan(s@, s.len() as int) {
            PathScan::Found(j) => r == Ok::<Option<usize>, ()>(Some(j as usize)),
            PathScan::NotFound => r == Ok::<Option<usize>, ()>(None),
            PathScan::Fault => r is Err,
        },
{
    let mut i: usize = s.len();
    loop
        invariant
            i <= s.len(),
            path_scan(s@, s.len() as int) == path_scan(s@, i as int),
        decreases i,
    {
        let mut p: usize = i;
        let mut found = false;
        while p > 0
            invariant_except_break
                !found,
            invariant
                p <= i <= s.len(),
                last_slash_before(s@, i as int) == last_slash_before(s@, p as int),
            ensures
                found ==> p > 0 && (s@[p - 1] == '/' || s@[p - 1] == '\\'),
                !found ==> p == 0,
            decreases p,
        {
            if s[p - 1] == '/' || s[p - 1] == '\\' {
                found = true;
                break;
            }
            p -= 1;
        }
        if !found {
            proof {
                assert(last_slash_before(s@, p as int) == -1);
            }
            return Ok(None);
        }
        let pos = p - 1;
        assert(last_slash_before(s@, i as int) == pos);
        let mut start: usize = pos;
        let mut fault = false;
        while start > 0
            invariant_except_break
                !fault,
            invariant
                start <= pos,
                walk_back(s@, pos as int) == walk_back(s@, start as int),
                pos < s.len(),
            ensures
                fault ==> walk_back(s@, pos as int) is None,
                !fault ==> walk_back(s@, pos as int) == Some(start as int),
            decreases start,
        {
            let c = s[start - 1];
            if stops_walk(c) {
                break;
            }
            if breaks_walk(c) {
                fault = true;
                break;
            }
            start -= 1;
        }
        if fault {
            return Err(());
        }
        assert(walk_back(s@, pos as int) == Some(start as int));
        let candidate = slice_to_vec(s, start, s.len());
        assert(candidate@ =~= s@.skip(start as int));
        if is_absolute(&candidate) {
            return Ok(Some(start));
        }
        proof {
            lemma_last_slash_bound(s@, i as int);
        }
        i = pos;
    }
}

/// Whether the search for the path column in `s` would stop inside a
/// character.
pub open spec fn path_scan_faults(s: Seq<char>) -> bool {
    path_scan(s, s.len() as int) is Fault
}

/// Byte offset of the last absolute-path-looking token in `s`.
pub fn find_last_path_start(s: &str) -> (r: Option<usize>)
    requires
        utf8_len(s@) <= usize::MAX,
        !path_scan_faults(s@),
    ensures
        match path_scan(s@, s@.len() as int) {
            PathScan::Found(j) => r == Some(utf8_len(s@.take(j)) as usize),
            _ => r is None,
        },
{
    let cs = chars_of(s);
    match scan_path(&cs) {
        Ok(Some(j)) => {
            proof {
                lemma_path_scan_bound(s@, s@.len() as int);
            }
            Some(utf8_offset(&cs, j))
        },
        _ => None,
    }
}

/// Bytes taken by the first `k` characters of `s` in UTF-8.
fn utf8_offset(s: &[char], k: usize) -> (r: usize)
    requires
        k <= s.len(),
        utf8_len(s@) <= usize::MAX,
    ensures
        r == utf8_len(s@.take(k as int)),
{
    let mut total: usize = 0;
    let mut i: usize = 0;
    assert(s@.take(0) =~= Seq::<char>::empty());
    while i < k
        invariant
            i <= k <= s.len(),
            total == utf8_len(s@.take(i as int)),
            utf8_len(s@) <= usize::MAX,
        decreases k - i,
    {
        proof {
            let t = s@.take(i + 1);
            assert(t.drop_last() =~= s@.take(i as int));
            lemma_utf8_len_prefix_le(s@, i + 1);
        }
        let c = s[i];
        let u = c as u32;
        let w: usize = if u < 0x80 {
            1
        } else if u < 0x800 {
            2
        } else if u < 0x10000 {
            3
        } else {
            4
        };
        total = total + w;
        i += 1;
    }
    total
}

// ---------------------------------------------------------------------
// Rows
// ---------------------------------------------------------------------

/// ScummVM game-id grammar: `[A-Za-z0-9_-]+`.
pub open spec fn game_id_char(c: char) -> bool {
    is_ascii_alnum(c) || c == '_' || c == '-'
}

pub open spec fn valid_game_id(id: Seq<char>) -> bool {
    forall|i: int| 0 <= i < id.len() ==> game_id_char(#[trigger] id[i])
}

/// Where a row line stands once its game id is read: the id and the rest
/// of the line after it, without leading whitespace.
pub open spec fn id_and_rest(line: Seq<char>) -> Option<(Seq<char>, Seq<char>)> {
    let lead = trim_start(line);
    let n = index_of_ws(lead);
    if lead.len() == 0 || n >= lead.len() || !valid_game_id(lead.take(n as int)) {
        None
    } else {
        Some((lead.take(n as int), trim_start(lead.skip(n as int))))
    }
}

/// Whether reading the row `line` would stop inside a character.
pub open spec fn row_faults(line: Seq<char>) -> bool {
    match id_and_rest(line) {
        Some((_, rest)) => path_scan_faults(rest),
        None => false,
    }
}

/// The (game id, description, path) of a detection row, or `None` when
/// the line does not have that shape.
pub open spec fn detect_row(line: Seq<char>) -> Option<(Seq<char>, Seq<char>, Seq<char>)> {
    match id_and_rest(line) {
        None => None,
        Some((id, rest)) => match path_scan(rest, rest.len() as int) {
            PathScan::Found(j) => {
                let d = trim(rest.take(j));
                let p = trim(rest.skip(j));
                if d.len() == 0 || p.len() == 0 {
                    None
                } else {
                    Some((id, d, p))
                }
            },
            _ => None,
        },
    }
}

proof fn lemma_index_of_ws_at(s: Seq<char>, i: int)
    requires
        0 <= i <= s.len(),
        forall|j: int| 0 <= j < i ==> !is_ws(#[trigger] s[j]),
        i == s.len() || is_ws(s[i]),
    ensures
        index_of_ws(s) == i,
    decreases i,
{
    if i > 0 {
        let t = s.drop_first();
        assert forall|j: int| 0 <= j < i - 1 implies !is_ws(#[trigger] t[j]) by {
            assert(t[j] == s[j + 1]);
        }
        if i < s.len() {
            assert(t[i - 1] == s[i]);
        }
        lemma_index_of_ws_at(t, i - 1);
    }
}

/// Index of the first whitespace character of `s`, or its length.
fn first_ws(s: &[char]) -> (r: usize)
    ensures
        r == index_of_ws(s@),
{
    let mut i: usize = 0;
    while i < s.len() && !is_whitespace(s[i])
        invariant
            i <= s.len(),
            forall|j: int| 0 <= j < i ==> !is_ws(#[trigger] s@[j]),
        decreases s.len() - i,
    {
        i += 1;
    }
    proof {
        lemma_index_of_ws_at(s@, i as int);
    }
    i
}

fn all_game_id_chars(s: &[char]) -> (r: bool)
    ensures
        r == valid_game_id(s@),
{
    let mut i: usize = 0;
    while i < s.len()
        invariant
            i <= s.len(),
            forall|j: int| 0 <= j < i ==> game_id_char(#[trigger] s@[j]),
        decreases s.len() - i,
    {
        let c = s[i];
        if !(is_alnum(c) && (c as u32) < 0x80 || c == '_' || c == '-') {
            assert(!game_id_char(s@[i as int]));
            return false;
        }
        i += 1;
    }
    true
}

/// Reads one row line: `Err` where the path search would stop inside a
/// character, else the row or `None`.
fn read_row(line: &[char]) -> (r: Result<Option<(Vec<char>, Vec<char>, Vec<char>)>, ()>)
    ensures
        r is Err <==> row_faults(line@),
        r matches Ok(o) ==> match detect_row(line@) {
            None => o is None,
            Some((id, d, p)) => o matches Some((a, b, c)) && a@ == id && b@ == d && c@ == p,
        },
{
    let a = skip_ws_start(line);
    let lead = slice_to_vec(line, a, line.len());
    assert(lead@ =~= trim_start(line@));
    let n = first_ws(&lead);
    proof {
        lemma_index_of_ws_bound(lead@);
    }
    if lead.len() == 0 || n >= lead.len() {
        return Ok(None);
    }
    let id = slice_to_vec(&lead, 0, n);
    assert(id@ =~= lead@.take(n as int));
    if !all_game_id_chars(&id) {
        return Ok(None);
    }
    let tail = slice_to_vec(&lead, n, lead.len());
    assert(tail@ =~= lead@.skip(n as int));
    let rest = trim_start_vec(&tail);
    match scan_path(&rest) {
        Err(()) => Err(()),
        Ok(None) => Ok(None),
        Ok(Some(j)) => {
            proof {
                lemma_path_scan_bound(rest@, rest.len() as int);
            }
            let head = slice_to_vec(&rest, 0, j);
            assert(head@ =~= rest@.take(j as int));
            let path = slice_to_vec(&rest, j, rest.len());
            assert(path@ =~= rest@.skip(j as int));
            let d = trim_vec(&head);
            let p = trim_vec(&path);
            if d.len() == 0 || p.len() == 0 {
                Ok(None)
            } else {
                Ok(Some((id, d, p)))
            }
        },
    }
}

// ---------------------------------------------------------------------
// Whole output
// ---------------------------------------------------------------------

/// The column-title line and the dash rule under it.
pub open spec fn header_line(lead: Seq<char>) -> bool {
    starts_with(lead, seq!['-', '-', '-']) || starts_with(lead, seq!['G', 'a', 'm', 'e', 'I', 'D'])
}

/// Lines the parser passes over without reading them as rows.
pub open spec fn skipped_line(line: Seq<char>) -> bool {
    let t = trim_end(line);
    t.len() == 0 || header_line(trim_start(t))
}

/// A line whose reading would stop inside a character.
pub open spec fn line_faults(line: Seq<char>) -> bool {
    !skipped_line(line) && row_faults(trim_end(line))
}

/// Whether some line of `out` is such a line.
pub open spec fn output_faults(out: Seq<char>) -> bool {
    exists|i: int| 0 <= i < lines(out).len() && #[trigger] line_faults(lines(out)[i])
}

/// The rows read from `ls`, in order.
pub open spec fn detect_rows(ls: Seq<Seq<char>>) -> Seq<(Seq<char>, Seq<char>, Seq<char>)>
    decreases ls.len(),
{
    if ls.len() == 0 {
        seq![]
    } else {
        let before = detect_rows(ls.drop_last());
        let l = ls.last();
        if skipped_line(l) {
            before
        } else {
            match detect_row(trim_end(l)) {
                Some(row) => before.push(row),
                None => before,
            }
        }
    }
}

/// A row as its three character sequences.
pub open spec fn row_view(r: CliDetectionRow) -> (Seq<char>, Seq<char>, Seq<char>) {
    (r.game_id@, r.description@, r.directory@)
}

pub open spec fn rows_view(rs: Seq<CliDetectionRow>) -> Seq<(Seq<char>, Seq<char>, Seq<char>)> {
    rs.map_values(|r: CliDetectionRow| row_view(r))
}

/// Reads one line of the output: `Err` where it would stop inside a
/// character, else the row it holds, if any.
fn read_line(line: &[char]) -> (r: Result<Option<CliDetectionRow>, ()>)
    ensures
        r is Err <==> line_faults(line@),
        r matches Ok(o) ==> if skipped_line(line@) {
            o is None
        } else {
            match detect_row(trim_end(line@)) {
                None => o is None,
                Some(row) => o matches Some(x) && row_view(x) == row,
            }
        },
{
    let t = trim_end_vec(line);
    if t.len() == 0 {
        return Ok(None);
    }
    let lead = trim_start_vec(&t);
    if has_prefix(&lead, &['-', '-', '-']) || has_prefix(&lead, &['G', 'a', 'm', 'e', 'I', 'D']) {
        return Ok(None);
    }
    match read_row(&t) {
        Err(()) => Err(()),
        Ok(None) => Ok(None),
        Ok(Some((a, b, c))) => Ok(
            Some(
                CliDetectionRow {
                    game_id: string_of(&a),
                    description: string_of(&b),
                    directory: string_of(&c),
                },
            ),
        ),
    }
}

/// Whether reading `stdout` would stop inside a character on some line
/// (the check that [`parse_detect_output`] asks its callers to make).
pub fn detect_output_faults(stdout: &str) -> (r: bool)
    ensures
        r == output_faults(stdout@),
{
    let cs = chars_of(stdout);
    let ls = lines_of(&cs);
    let mut i: usize = 0;
    while i < ls.len()
        invariant
            i <= ls.len(),
            views(ls@) == lines(stdout@),
            forall|j: int| 0 <= j < i ==> !line_faults(#[trigger] lines(stdout@)[j]),
        decreases ls.len() - i,
    {
        assert(ls@[i as int]@ == lines(stdout@)[i as int]);
        if read_line(&ls[i]).is_err() {
            return true;
        }
        i += 1;
    }
    false
}

/// Parse `scummvm --detect` stdout into rows, skipping blank lines, the
/// column titles, the dash rule and every line that is not a row.
pub fn parse_detect_output(stdout: &str) -> (r: Vec<CliDetectionRow>)
    requires
        !output_faults(stdout@),
    ensures
        rows_view(r@) == detect_rows(lines(stdout@)),
{
    let cs = chars_of(stdout);
    let ls = lines_of(&cs);
    let ghost all = lines(stdout@);
    let mut rows: Vec<CliDetectionRow> = Vec::new();
    let mut i: usize = 0;
    assert(all.take(0) =~= Seq::<Seq<char>>::empty());
    while i < ls.len()
        invariant
            i <= ls.len(),
            views(ls@) == all,
            all == lines(stdout@),
            !output_faults(stdout@),
            rows_view(rows@) == detect_rows(all.take(i as int)),
        decreases ls.len() - i,
    {
        assert(ls@[i as int]@ == all[i as int]);
        assert(all.take(i + 1).drop_last() =~= all.take(i as int));
        assert(all.take(i + 1).last() == all[i as int]);
        match read_line(&ls[i]) {
            Err(()) => {
                assert(line_faults(all[i as int]));
                assert(false);
            },
            Ok(None) => {},
            Ok(Some(row)) => {
                rows.push(row);
                assert(rows_view(rows@) =~= detect_rows(all.take(i as int)).push(row_view(row)));
            },
        }
        i += 1;
    }
    assert(all.take(ls.len() as int) =~= all);
    rows
}

} // verus!
