//! Curated ScummVM detection: a table of sentinel files, one per game,
//! matched case-insensitively against the file names directly inside a
//! game directory, and the `.scummvm` descriptor each match writes.
use vstd::prelude::*;
use crate::text::{ascii_lower, chars_of, lower_ascii, owned, seq_eq, string_of};

verus! {

/// One entry of the curated detection table.
#[derive(Clone, Copy, Debug)]
pub struct ScummvmGame {
    /// File name whose presence identifies the game (any ASCII case).
    pub sentinel: &'static str,
    /// The `gameid:engineid` line of the `.scummvm` descriptor.
    pub descriptor: &'static str,
    /// Human label for the confirmation UI.
    pub label: &'static str,
    /// Release note shown next to a match.
    pub notes: &'static str,
}

/// The curated detection table, most popular SCUMM titles first.
pub open spec fn table() -> Seq<ScummvmGame> {
    seq![
        ScummvmGame { sentinel: "MONKEY.000", descriptor: "monkey:scumm", label: "The Secret of Monkey Island", notes: "1990 LucasArts · SCUMM v5 · CD/Enhanced" },
        ScummvmGame { sentinel: "MONKEY2.000", descriptor: "monkey2:scumm", label: "Monkey Island 2: LeChuck's Revenge", notes: "1991 LucasArts · SCUMM v5" },
        ScummvmGame { sentinel: "ATLANTIS.000", descriptor: "atlantis:scumm", label: "Indiana Jones and the Fate of Atlantis", notes: "1992 LucasArts · SCUMM v5" },
        ScummvmGame { sentinel: "LOOM.000", descriptor: "loomcd:scumm", label: "Loom (CD/Enhanced)", notes: "1990 LucasArts · SCUMM v4 · CD Talkie" },
        ScummvmGame { sentinel: "ZAK.000", descriptor: "zak:scumm", label: "Zak McKracken and the Alien Mindbenders (Enhanced)", notes: "1988 LucasArts · SCUMM v3 · FM Towns / Enhanced" },
        ScummvmGame { sentinel: "TENTACLE.000", descriptor: "tentacle:scumm", label: "Day of the Tentacle", notes: "1993 LucasArts · SCUMM v6" },
        ScummvmGame { sentinel: "SAMNMAX.000", descriptor: "samnmax:scumm", label: "Sam & Max Hit the Road", notes: "1993 LucasArts · SCUMM v6" },
        ScummvmGame { sentinel: "FT.LA0", descriptor: "ft:scumm", label: "Full Throttle", notes: "1995 LucasArts · SCUMM v7" },
        ScummvmGame { sentinel: "DIG.LA0", descriptor: "dig:scumm", label: "The Dig", notes: "1995 LucasArts · SCUMM v7" },
        ScummvmGame { sentinel: "COMI.LA0", descriptor: "comi:scumm", label: "The Curse of Monkey Island", notes: "1997 LucasArts · SCUMM v8" },
        ScummvmGame { sentinel: "INDY3.LFL", descriptor: "indy3:scumm", label: "Indiana Jones and the Last Crusade", notes: "1989 LucasArts · SCUMM v3 · LFL files" },
        ScummvmGame { sentinel: "SKY.DNR", descriptor: "sky:sky", label: "Beneath a Steel Sky", notes: "1994 Revolution · Sky engine · FREEWARE" },
        ScummvmGame { sentinel: "SKY.DSK", descriptor: "sky:sky", label: "Beneath a Steel Sky", notes: "1994 Revolution · Sky engine · FREEWARE" },
        ScummvmGame { sentinel: "QUEEN.1", descriptor: "queen:queen", label: "Flight of the Amazon Queen", notes: "1995 IBI · Queen engine · FREEWARE" },
        ScummvmGame { sentinel: "QUEEN.1C", descriptor: "queen:queen", label: "Flight of the Amazon Queen (CD)", notes: "1995 IBI · Queen engine · CD Talkie · FREEWARE" },
        ScummvmGame { sentinel: "DISK1.VGA", descriptor: "lure:lure", label: "Lure of the Temptress", notes: "1992 Revolution · Lure engine · FREEWARE" },
        ScummvmGame { sentinel: "DRASCULA.000", descriptor: "drascula:drascula", label: "Drascula: The Vampire Strikes Back", notes: "1996 Alcachofa Soft · Drascula engine · FREEWARE" },
        ScummvmGame { sentinel: "VOL.CAT", descriptor: "soltys:cge", label: "Soltys", notes: "1997 L.K. Avalon · CGE engine · FREEWARE" },
    ]
}

/// The curated detection table, most popular SCUMM titles first.
pub fn known_games() -> (r: &'static [ScummvmGame])
    ensures
        r@ == table(),
{
    let r: &'static [ScummvmGame] = &[
        ScummvmGame { sentinel: "MONKEY.000", descriptor: "monkey:scumm", label: "The Secret of Monkey Island", notes: "1990 LucasArts · SCUMM v5 · CD/Enhanced" },
        ScummvmGame { sentinel: "MONKEY2.000", descriptor: "monkey2:scumm", label: "Monkey Island 2: LeChuck's Revenge", notes: "1991 LucasArts · SCUMM v5" },
        ScummvmGame { sentinel: "ATLANTIS.000", descriptor: "atlantis:scumm", label: "Indiana Jones and the Fate of Atlantis", notes: "1992 LucasArts · SCUMM v5" },
        ScummvmGame { sentinel: "LOOM.000", descriptor: "loomcd:scumm", label: "Loom (CD/Enhanced)", notes: "1990 LucasArts · SCUMM v4 · CD Talkie" },
        ScummvmGame { sentinel: "ZAK.000", descriptor: "zak:scumm", label: "Zak McKracken and the Alien Mindbenders (Enhanced)", notes: "1988 LucasArts · SCUMM v3 · FM Towns / Enhanced" },
        ScummvmGame { sentinel: "TENTACLE.000", descriptor: "tentacle:scumm", label: "Day of the Tentacle", notes: "1993 LucasArts · SCUMM v6" },
        ScummvmGame { sentinel: "SAMNMAX.000", descriptor: "samnmax:scumm", label: "Sam & Max Hit the Road", notes: "1993 LucasArts · SCUMM v6" },
        ScummvmGame { sentinel: "FT.LA0", descriptor: "ft:scumm", label: "Full Throttle", notes: "1995 LucasArts · SCUMM v7" },
        ScummvmGame { sentinel: "DIG.LA0", descriptor: "dig:scumm", label: "The Dig", notes: "1995 LucasArts · SCUMM v7" },
        ScummvmGame { sentinel: "COMI.LA0", descriptor: "comi:scumm", label: "The Curse of Monkey Island", notes: "1997 LucasArts · SCUMM v8" },
        ScummvmGame { sentinel: "INDY3.LFL", descriptor: "indy3:scumm", label: "Indiana Jones and the Last Crusade", notes: "1989 LucasArts · SCUMM v3 · LFL files" },
        ScummvmGame { sentinel: "SKY.DNR", descriptor: "sky:sky", label: "Beneath a Steel Sky", notes: "1994 Revolution · Sky engine · FREEWARE" },
        ScummvmGame { sentinel: "SKY.DSK", descriptor: "sky:sky", label: "Beneath a Steel Sky", notes: "1994 Revolution · Sky engine · FREEWARE" },
        ScummvmGame { sentinel: "QUEEN.1", descriptor: "queen:queen", label: "Flight of the Amazon Queen", notes: "1995 IBI · Queen engine · FREEWARE" },
        ScummvmGame { sentinel: "QUEEN.1C", descriptor: "queen:queen", label: "Flight of the Amazon Queen (CD)", notes: "1995 IBI · Queen engine · CD Talkie · FREEWARE" },
        ScummvmGame { sentinel: "DISK1.VGA", descriptor: "lure:lure", label: "Lure of the Temptress", notes: "1992 Revolution · Lure engine · FREEWARE" },
        ScummvmGame { sentinel: "DRASCULA.000", descriptor: "drascula:drascula", label: "Drascula: The Vampire Strikes Back", notes: "1996 Alcachofa Soft · Drascula engine · FREEWARE" },
        ScummvmGame { sentinel: "VOL.CAT", descriptor: "soltys:cge", label: "Soltys", notes: "1997 L.K. Avalon · CGE engine · FREEWARE" },
    ];
    assert(r@ =~= table());
    r
}

/// The sentinels of the table, in order.
pub open spec fn sentinels() -> Seq<Seq<char>> {
    seq![
        "MONKEY.000"@,
        "MONKEY2.000"@,
        "ATLANTIS.000"@,
        "LOOM.000"@,
        "ZAK.000"@,
        "TENTACLE.000"@,
        "SAMNMAX.000"@,
        "FT.LA0"@,
        "DIG.LA0"@,
        "COMI.LA0"@,
        "INDY3.LFL"@,
        "SKY.DNR"@,
        "SKY.DSK"@,
        "QUEEN.1"@,
        "QUEEN.1C"@,
        "DISK1.VGA"@,
        "DRASCULA.000"@,
        "VOL.CAT"@,
    ]
}

/// The descriptors of the table, in order.
pub open spec fn descriptors() -> Seq<Seq<char>> {
    seq![
        "monkey:scumm"@,
        "monkey2:scumm"@,
        "atlantis:scumm"@,
        "loomcd:scumm"@,
        "zak:scumm"@,
        "tentacle:scumm"@,
        "samnmax:scumm"@,
        "ft:scumm"@,
        "dig:scumm"@,
        "comi:scumm"@,
        "indy3:scumm"@,
        "sky:sky"@,
        "sky:sky"@,
        "queen:queen"@,
        "queen:queen"@,
        "lure:lure"@,
        "drascula:drascula"@,
        "soltys:cge"@,
    ]
}

/// Whether two names are equal ignoring ASCII case (`eq_ignore_ascii_case`).
pub open spec fn same_ignoring_ascii_case(a: Seq<char>, b: Seq<char>) -> bool {
    ascii_lower(a) == ascii_lower(b)
}

/// Index of the first table entry whose sentinel is `name` in any ASCII
/// case, or the table's length.
pub open spec fn sentinel_index(name: Seq<char>) -> nat {
    sentinel_index_from(name, 0)
}

pub open spec fn sentinel_index_from(name: Seq<char>, i: nat) -> nat
    decreases 18 - i,
{
    if i >= 18 {
        18
    } else if same_ignoring_ascii_case(sentinels()[i as int], name) {
        i
    } else {
        sentinel_index_from(name, i + 1)
    }
}


/// Index of the table entry whose sentinel is `file_name` in any ASCII
/// case: the first such entry, or `None`.
pub fn sentinel_match(file_name: &str) -> (r: Option<usize>)
    ensures
        match r {
            Some(i) => i == sentinel_index(file_name@) && i < 18,
            None => sentinel_index(file_name@) == 18,
        },
{
    let name = lower_ascii(&chars_of(file_name));
    let games = known_games();
    let mut i: usize = 0;
    while i < 18
        invariant
            i <= 18,
            name@ == ascii_lower(file_name@),
            games@ == table(),
            sentinel_index(file_name@) == sentinel_index_from(file_name@, i as nat),
        decreases 18 - i,
    {
        let s = lower_ascii(&chars_of(games[i].sentinel));
        proof {
            table_views();
        }
        if seq_eq(&s, &name) {
            return Some(i);
        }
        i += 1;
    }
    None
}

proof fn table_views()
    ensures
        forall|i: int| 0 <= i < 18 ==> #[trigger] table()[i].sentinel@ == sentinels()[i],
        forall|i: int| 0 <= i < 18 ==> #[trigger] table()[i].descriptor@ == descriptors()[i],
{
    assert forall|i: int| 0 <= i < 18 implies #[trigger] table()[i].sentinel@ == sentinels()[i] by {
    }
}


/// The matched part of a detection row.
#[derive(Clone, Debug)]
pub struct MatchedGame {
    pub descriptor: String,
    pub label: String,
    pub notes: String,
}

impl MatchedGame {
    /// The strings of a table entry.
    pub fn from_static(g: &'static ScummvmGame) -> (r: Self)
        ensures
            r.descriptor@ == g.descriptor@,
            r.label@ == g.label@,
            r.notes@ == g.notes@,
    {
        MatchedGame { descriptor: owned(g.descriptor), label: owned(g.label), notes: owned(g.notes) }
    }
}

/// The first file name, in order, that some sentinel matches, and the
/// first entry it matches.
pub open spec fn detected_in(names: Seq<Seq<char>>) -> Option<nat>
    decreases names.len(),
{
    if names.len() == 0 {
        None
    } else if sentinel_index(names[0]) < table().len() {
        Some(sentinel_index(names[0]))
    } else {
        detected_in(names.drop_first())
    }
}

/// The game detected in a directory whose regular files are named
/// `file_names` (in the order the directory lists them): the first name
/// that some sentinel matches, in any ASCII case.
pub fn detect_in_file_names(file_names: &[String]) -> (r: Option<&'static ScummvmGame>)
    ensures
        match detected_in(crate::media::names(file_names@)) {
            Some(i) => r matches Some(g) && *g == table()[i as int],
            None => r is None,
        },
{
    let ghost ns = crate::media::names(file_names@);
    let mut k: usize = 0;
    assert(ns.skip(0) =~= ns);
    while k < file_names.len()
        invariant
            k <= file_names.len(),
            ns == crate::media::names(file_names@),
            detected_in(ns) == detected_in(ns.skip(k as int)),
        decreases file_names.len() - k,
    {
        proof {
            let rest = ns.skip(k as int);
            assert(rest[0] == file_names@[k as int]@);
            assert(rest.drop_first() =~= ns.skip(k + 1));
        }
        match sentinel_match(file_names[k].as_str()) {
            Some(i) => {
                return Some(&known_games()[i]);
            },
            None => {},
        }
        k += 1;
    }
    assert(ns.skip(k as int) =~= Seq::<Seq<char>>::empty());
    None
}

/// `<directory name>.scummvm`: the descriptor written next to a game
/// directory.
pub fn descriptor_file_name(directory_name: &str) -> (r: String)
    ensures
        r@ == directory_name@ + ".scummvm"@,
{
    let mut out: Vec<char> = Vec::new();
    crate::text::push_str(&mut out, directory_name);
    crate::text::push_str(&mut out, ".scummvm");
    string_of(&out)
}

/// Whether a directory entry is passed over by the parent walk: hidden
/// names start with `.`.
pub fn is_hidden_name(name: &str) -> (r: bool)
    ensures
        r == (name@.len() > 0 && name@[0] == '.'),
{
    let cs = chars_of(name);
    cs.len() > 0 && cs[0] == '.'
}

/// One row of the detection report.
#[derive(Debug)]
pub struct DetectionResult {
    /// Absolute path to the game directory.
    pub directory: std::path::PathBuf,
    /// The directory's name.
    pub directory_name: String,
    /// The table match, if any.
    pub matched: Option<MatchedGame>,
    /// Where the `.scummvm` descriptor would be written.
    pub descriptor_path: std::path::PathBuf,
    /// Whether a descriptor already exists there.
    pub already_exists: bool,
}

/// One descriptor write confirmed by the operator.
#[derive(Debug)]
pub struct DescriptorWrite {
    /// Where to write.
    pub path: std::path::PathBuf,
    /// The `gameid:engineid` line.
    pub descriptor: String,
    /// Whether an existing file may be replaced.
    pub overwrite: bool,
}

/// Whether a confirmed write goes ahead: always when overwriting is
/// allowed, else only where no file exists yet.
pub fn should_write(w: &DescriptorWrite, exists: bool) -> (r: bool)
    ensures
        r == (w.overwrite || !exists),
{
    w.overwrite || !exists
}

/// The text written into a descriptor file: the descriptor trimmed, then
/// a newline.
pub fn descriptor_body(descriptor: &str) -> (r: String)
    ensures
        r@ == crate::text::trim(descriptor@).push('\n'),
{
    let mut t = crate::text::trim_vec(&chars_of(descriptor));
    t.push('\n');
    string_of(&t)
}

} // verus!
