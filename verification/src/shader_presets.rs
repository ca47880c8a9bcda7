//! The shader preset registry: which files under `shaders/presets/` are
//! preset definitions, how user presets overlay the built-in ones by
//! name, and which file-system events can change the registry.
//!
//! Decoding the TOML and the bezel images is the caller's part.
use vstd::prelude::*;
use crate::text::{
    chars_of, ends_with, has_suffix, lex_less, lex_lt, lemma_lex_lt_irreflexive, lemma_lex_lt_total,
    lemma_lex_lt_transitive, matches_at, occurs_at, slice_to_vec, str_eq, string_of,
};

verus! {

/// A preset's `[bezel]` block: the image to composite over the game.
#[derive(Clone, Debug)]
pub struct BezelSpec {
    /// Absolute, or relative to `<exe_dir>/shaders/`.
    pub image: String,
}

/// What the preset dropdown shows of a preset.
#[derive(Clone, Debug)]
pub struct ShaderPresetSummary {
    pub name: String,
    pub display_name: String,
    pub description: String,
    pub base: String,
}

/// A decoded bezel image: RGBA bytes and dimensions.
#[derive(Clone, Debug)]
pub struct ResolvedBezel {
    pub rgba: Vec<u8>,
    pub width: u32,
    pub height: u32,
}

/// The file name ending that marks a preset definition.
pub open spec fn preset_suffix() -> Seq<char> {
    ".preset.toml"@
}

/// `s` with every trailing repetition of `p` removed (`str::trim_end_matches`).
pub open spec fn strip_suffixes(s: Seq<char>, p: Seq<char>) -> Seq<char>
    decreases s.len(),
{
    if p.len() > 0 && ends_with(s, p) {
        strip_suffixes(s.take(s.len() - p.len()), p)
    } else {
        s
    }
}

/// The preset a file defines: its name with the preset ending trimmed off,
/// when it has that ending and something is left.
pub open spec fn preset_name_of(file_name: Seq<char>) -> Option<Seq<char>> {
    if ends_with(file_name, preset_suffix()) && strip_suffixes(file_name, preset_suffix()).len() > 0 {
        Some(strip_suffixes(file_name, preset_suffix()))
    } else {
        None
    }
}

/// The preset name a file under `shaders/presets/` defines, if it is a
/// preset file (`<name>.preset.toml`).
pub fn preset_name_from_file_name(file_name: &str) -> (r: Option<String>)
    ensures
        match r {
            Some(n) => preset_name_of(file_name@) == Some(n@),
            None => preset_name_of(file_name@) is None,
        },
{
    proof {
        reveal_strlit(".preset.toml");
    }
    let s = chars_of(file_name);
    let p = chars_of(".preset.toml");
    assert(p@.len() == 12);
    if !has_suffix(&s, &p) {
        return None;
    }
    let mut end: usize = s.len();
    assert(s@.take(s.len() as int) =~= s@);
    while end >= p.len() && matches_at(&s, &p, end - p.len())
        invariant
            end <= s.len(),
            p@ == preset_suffix(),
            p@.len() == 12,
            strip_suffixes(s@.take(end as int), p@) == strip_suffixes(s@, p@),
        decreases end,
    {
        let ghost t = s@.take(end as int);
        assert(t.skip(t.len() - p@.len()) =~= s@.subrange(end - p.len(), end as int));
        assert(ends_with(t, p@));
        assert(t.take(t.len() - p@.len()) =~= s@.take(end - p.len()));
        end = end - p.len();
    }
    proof {
        let t = s@.take(end as int);
        if p@.len() <= t.len() {
            assert(t.skip(t.len() - p@.len()) =~= s@.subrange(end - p.len(), end as int));
            assert(!occurs_at(s@, p@, end - p.len()));
        }
        assert(!ends_with(t, p@));
        assert(s@.take(s.len() as int) =~= s@);
    }
    if end == 0 {
        return None;
    }
    Some(string_of(&slice_to_vec(&s, 0, end)))
}

// ---------------------------------------------------------------------
// Overlay by name
// ---------------------------------------------------------------------

/// Entry `i` is the last of `s` with its name.
pub open spec fn is_last_of<T>(s: Seq<(String, T)>, i: int) -> bool {
    &&& 0 <= i < s.len()
    &&& forall|j: int| i < j < s.len() ==> (#[trigger] s[j]).0@ != s[i].0@
}

/// `e` is the last entry of `s` with its name, at or after index `from`.
pub open spec fn last_entry_from<T>(s: Seq<(String, T)>, from: int, e: (String, T)) -> bool {
    exists|i: int| from <= i && is_last_of(s, i) && #[trigger] s[i] == e
}

/// Some entry of `out` carries name `n`.
pub open spec fn name_listed<T>(out: Seq<(String, T)>, n: Seq<char>) -> bool {
    exists|k: int| 0 <= k < out.len() && (#[trigger] out[k]).0@ == n
}

/// Names strictly increasing.
pub open spec fn names_increasing<T>(s: Seq<(String, T)>) -> bool {
    forall|a: int, b: int| 0 <= a < b < s.len() ==> lex_lt(#[trigger] s[a].0@, #[trigger] s[b].0@)
}

/// `out` is `s` keyed by name: one entry per name, in increasing order of
/// name, each the last entry of `s` with that name.
pub open spec fn overlaid<T>(out: Seq<(String, T)>, s: Seq<(String, T)>) -> bool {
    &&& names_increasing(out)
    &&& forall|k: int| 0 <= k < out.len() ==> #[trigger] last_entry_from(s, 0, out[k])
    &&& forall|i: int| 0 <= i < s.len() ==> #[trigger] name_listed(out, s[i].0@)
}

/// In increasing names, `name` is absent when it falls strictly between
/// the names before `q` and the one at `q`.
proof fn lemma_name_absent<T>(s: Seq<(String, T)>, q: int, name: Seq<char>)
    requires
        names_increasing(s),
        0 <= q <= s.len(),
        forall|z: int| 0 <= z < q ==> lex_lt((#[trigger] s[z]).0@, name),
        q < s.len() ==> !lex_lt(s[q].0@, name) && s[q].0@ != name,
    ensures
        !name_listed(s, name),
        q < s.len() ==> lex_lt(name, s[q].0@),
{
    if q < s.len() {
        lemma_lex_lt_total(s[q].0@, name);
    }
    assert forall|z: int| 0 <= z < s.len() implies (#[trigger] s[z]).0@ != name by {
        lemma_lex_lt_irreflexive(name);
        if z > q {
            lemma_lex_lt_transitive(name, s[q].0@, s[z].0@);
        }
    }
}

/// Inserting a name at its place keeps names increasing.
proof fn lemma_insert_increasing<T>(s: Seq<(String, T)>, q: int, e: (String, T))
    requires
        names_increasing(s),
        0 <= q <= s.len(),
        forall|z: int| 0 <= z < q ==> lex_lt((#[trigger] s[z]).0@, e.0@),
        q < s.len() ==> lex_lt(e.0@, s[q].0@),
    ensures
        names_increasing(s.insert(q, e)),
{
    let t = s.insert(q, e);
    assert forall|a: int, b: int| 0 <= a < b < t.len() implies lex_lt(#[trigger] t[a].0@, #[trigger] t[b].0@) by {
        if b < q {
        } else if b == q {
        } else if a < q {
            lemma_lex_lt_transitive(t[a].0@, e.0@, s[q].0@);
            if b - 1 > q {
                lemma_lex_lt_transitive(t[a].0@, s[q].0@, s[b - 1].0@);
            }
        } else if a == q {
            if b - 1 > q {
                lemma_lex_lt_transitive(e.0@, s[q].0@, s[b - 1].0@);
            }
        } else {
        }
    }
}

/// Entry `from - 1` of `all`, already listed under its name in `out`,
/// leaves the listing as it is.
proof fn lemma_step_listed<T>(out: Seq<(String, T)>, all: Seq<(String, T)>, from: int, q: int)
    requires
        0 < from <= all.len(),
        0 <= q < out.len(),
        out[q].0@ == all[from - 1].0@,
        forall|k: int| 0 <= k < out.len() ==> #[trigger] last_entry_from(all, from, out[k]),
        forall|i: int| from <= i < all.len() ==> #[trigger] name_listed(out, all[i].0@),
    ensures
        forall|k: int| 0 <= k < out.len() ==> #[trigger] last_entry_from(all, from - 1, out[k]),
        forall|i: int| from - 1 <= i < all.len() ==> #[trigger] name_listed(out, all[i].0@),
{
    assert forall|k: int| 0 <= k < out.len() implies #[trigger] last_entry_from(all, from - 1, out[k]) by {
        assert(last_entry_from(all, from, out[k]));
        let i = choose|i: int| from <= i && is_last_of(all, i) && #[trigger] all[i] == out[k];
        assert(all[i] == out[k]);
    }
    assert forall|i: int| from - 1 <= i < all.len() implies #[trigger] name_listed(out, all[i].0@) by {
        if i == from - 1 {
            assert(out[q].0@ == all[i].0@);
        }
    }
}

/// Entry `from - 1` of `all`, whose name `out` does not list, inserted at
/// `q`.
proof fn lemma_step_inserted<T>(out: Seq<(String, T)>, all: Seq<(String, T)>, from: int, q: int)
    requires
        0 < from <= all.len(),
        0 <= q <= out.len(),
        !name_listed(out, all[from - 1].0@),
        forall|k: int| 0 <= k < out.len() ==> #[trigger] last_entry_from(all, from, out[k]),
        forall|i: int| from <= i < all.len() ==> #[trigger] name_listed(out, all[i].0@),
    ensures
        forall|k: int|
            0 <= k < out.len() + 1 ==> #[trigger] last_entry_from(all, from - 1, out.insert(q, all[from - 1])[k]),
        forall|i: int|
            from - 1 <= i < all.len() ==> #[trigger] name_listed(out.insert(q, all[from - 1]), all[i].0@),
{
    let i0 = from - 1;
    let t = out.insert(q, all[i0]);
    assert forall|j: int| i0 < j < all.len() implies (#[trigger] all[j]).0@ != all[i0].0@ by {
        assert(name_listed(out, all[j].0@));
    }
    assert(is_last_of(all, i0));
    assert forall|k: int| 0 <= k < t.len() implies #[trigger] last_entry_from(all, from - 1, t[k]) by {
        if k < q {
            assert(t[k] == out[k]);
            assert(last_entry_from(all, from, out[k]));
            let i = choose|i: int| from <= i && is_last_of(all, i) && #[trigger] all[i] == out[k];
            assert(all[i] == t[k]);
        } else if k == q {
            assert(all[i0] == t[k]);
        } else {
            assert(t[k] == out[k - 1]);
            assert(last_entry_from(all, from, out[k - 1]));
            let i = choose|i: int| from <= i && is_last_of(all, i) && #[trigger] all[i] == out[k - 1];
            assert(all[i] == t[k]);
        }
    }
    assert forall|j: int| from - 1 <= j < all.len() implies #[trigger] name_listed(t, all[j].0@) by {
        if j == i0 {
            assert(t[q].0@ == all[j].0@);
        } else {
            assert(name_listed(out, all[j].0@));
            let k0 = choose|k: int| 0 <= k < out.len() && (#[trigger] out[k]).0@ == all[j].0@;
            if k0 < q {
                assert(t[k0] == out[k0]);
            } else {
                assert(t[k0 + 1] == out[k0]);
            }
        }
    }
}

/// Key named entries by name, a later entry replacing an earlier one of the
/// same name, and list them in increasing order of name. Built-in presets
/// followed by the user's files give the registry in dropdown order.
pub fn overlay_by_name<T>(entries: Vec<(String, T)>) -> (r: Vec<(String, T)>)
    ensures
        overlaid(r@, entries@),
{
    let ghost all = entries@;
    let mut rest = entries;
    let mut out: Vec<(String, T)> = Vec::new();
    while rest.len() > 0
        invariant
            rest.len() <= all.len(),
            rest@ == all.take(rest.len() as int),
            names_increasing(out@),
            forall|k: int| 0 <= k < out.len() ==> #[trigger] last_entry_from(all, rest.len() as int, out@[k]),
            forall|i: int| rest.len() <= i < all.len() ==> #[trigger] name_listed(out@, all[i].0@),
        decreases rest.len(),
    {
        let ghost from: int = rest.len() as int;
        let e = rest.pop().unwrap();
        assert(e == all[from - 1]);
        assert(rest@ =~= all.take(from - 1));
        let name = chars_of(e.0.as_str());
        let mut q: usize = 0;
        while q < out.len() && lex_less(&chars_of(out[q].0.as_str()), &name)
            invariant
                q <= out.len(),
                forall|z: int| 0 <= z < q ==> lex_lt((#[trigger] out@[z]).0@, name@),
            decreases out.len() - q,
        {
            q += 1;
        }
        let present = q < out.len() && str_eq(out[q].0.as_str(), e.0.as_str());
        if present {
            proof {
                lemma_step_listed(out@, all, from, q as int);
            }
        } else {
            proof {
                lemma_name_absent(out@, q as int, name@);
                lemma_insert_increasing(out@, q as int, e);
                lemma_step_inserted(out@, all, from, q as int);
            }
            out.insert(q, e);
        }
    }
    out
}

// ---------------------------------------------------------------------
// Watch events
// ---------------------------------------------------------------------

/// The kind of a file-system change notification.
#[derive(Clone, Copy, Debug, PartialEq, Eq)]
pub enum WatchEventKind {
    /// The watcher could not say what happened.
    Any,
    /// A file was read or opened.
    Access,
    Create,
    Modify,
    Remove,
    Other,
}

/// Whether an event can change the preset registry: a creation, change,
/// removal or unknown change that touches a preset file.
pub open spec fn relevant(kind: WatchEventKind, file_names: Seq<Option<String>>) -> bool {
    &&& (kind is Create || kind is Modify || kind is Remove || kind is Any)
    &&& exists|i: int|
        0 <= i < file_names.len() && (#[trigger] file_names[i]) is Some && ends_with(
            file_names[i]->0@,
            preset_suffix(),
        )
}

/// Whether an event with `kind` on paths whose final names are
/// `file_names` (none for a path without one) should reload the registry.
pub fn is_relevant(kind: WatchEventKind, file_names: &[Option<String>]) -> (r: bool)
    ensures
        r == relevant(kind, file_names@),
{
    let kind_matters = match kind {
        WatchEventKind::Create => true,
        WatchEventKind::Modify => true,
        WatchEventKind::Remove => true,
        WatchEventKind::Any => true,
        WatchEventKind::Access => false,
        WatchEventKind::Other => false,
    };
    if !kind_matters {
        return false;
    }
    let p = chars_of(".preset.toml");
    let mut i: usize = 0;
    while i < file_names.len()
        invariant
            i <= file_names.len(),
            p@ == preset_suffix(),
            kind is Create || kind is Modify || kind is Remove || kind is Any,
            forall|j: int|
                0 <= j < i ==> !((#[trigger] file_names@[j]) is Some && ends_with(file_names@[j]->0@, preset_suffix())),
        decreases file_names.len() - i,
    {
        match &file_names[i] {
            Some(n) => {
                if has_suffix(&chars_of(n.as_str()), &p) {
                    assert(file_names@[i as int] is Some && ends_with(file_names@[i as int]->0@, preset_suffix()));
                    return true;
                }
            },
            None => {},
        }
        i += 1;
    }
    false
}

} // verus!
