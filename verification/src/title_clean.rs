//! Filename-to-title cleanup used at scan time, before any canonical
//! identification: strip the extension, turn underscore runs into single
//! spaces, trim. Region tags and bracket flags are kept.
use vstd::prelude::*;
use crate::text::{chars_of, string_of, trim, trim_vec};

verus! {

/// Index of the last `c` in `s`, or -1 when absent.
pub open spec fn last_index_of(s: Seq<char>, c: char) -> int
    decreases s.len(),
{
    if s.len() == 0 {
        -1
    } else if s.last() == c {
        s.len() - 1
    } else {
        last_index_of(s.drop_last(), c)
    }
}

/// The file name without its extension: everything before the last `.`,
/// unless that dot is the first character.
pub open spec fn without_extension(s: Seq<char>) -> Seq<char> {
    let i = last_index_of(s, '.');
    if i > 0 {
        s.take(i)
    } else {
        s
    }
}

/// Each run of `_` replaced by one space.
pub open spec fn underscores_to_spaces(s: Seq<char>) -> Seq<char>
    decreases s.len(),
{
    if s.len() == 0 {
        seq![]
    } else {
        let prev = underscores_to_spaces(s.drop_last());
        if s.last() == '_' {
            if s.len() >= 2 && s[s.len() - 2] == '_' {
                prev
            } else {
                prev.push(' ')
            }
        } else {
            prev.push(s.last())
        }
    }
}

/// The scan-time title of a file name.
pub open spec fn title_of(name: Seq<char>) -> Seq<char> {
    trim(underscores_to_spaces(without_extension(name)))
}

pub proof fn lemma_last_index_of_bound(s: Seq<char>, c: char)
    ensures
        -1 <= last_index_of(s, c) < s.len(),
    decreases s.len(),
{
    if s.len() > 0 && s.last() != c {
        lemma_last_index_of_bound(s.drop_last(), c);
    }
}

/// Index of the last `c` in `s`, if any (`str::rfind`).
pub fn rfind_char(s: &[char], c: char) -> (r: Option<usize>)
    ensures
        r matches Some(i) ==> i == last_index_of(s@, c),
        r is None ==> last_index_of(s@, c) == -1,
{
    let mut i: usize = s.len();
    assert(s@.take(i as int) =~= s@);
    while i > 0
        invariant
            i <= s.len(),
            last_index_of(s@, c) == last_index_of(s@.take(i as int), c),
        decreases i,
    {
        proof {
            let t = s@.take(i as int);
            assert(t.drop_last() =~= s@.take(i - 1));
            assert(t.last() == s@[i - 1]);
        }
        if s[i - 1] == c {
            return Some(i - 1);
        }
        i -= 1;
    }
    None
}

/// Strip the extension and replace `_` runs with single spaces, then trim.
pub fn title_from_file_name(name: &str) -> (r: String)
    ensures
        r@ == title_of(name@),
{
    let s = chars_of(name);
    let end = match rfind_char(&s, '.') {
        Some(i) if i > 0 => i,
        _ => s.len(),
    };
    proof {
        lemma_last_index_of_bound(s@, '.');
    }
    let mut out: Vec<char> = Vec::new();
    let mut k: usize = 0;
    while k < end
        invariant
            end <= s.len(),
            k <= end,
            out@ == underscores_to_spaces(s@.take(k as int)),
        decreases end - k,
    {
        let c = s[k];
        proof {
            let t = s@.take(k + 1);
            assert(t.drop_last() =~= s@.take(k as int));
        }
        if c == '_' {
            if !(k >= 1 && s[k - 1] == '_') {
                out.push(' ');
            }
        } else {
            out.push(c);
        }
        k += 1;
    }
    proof {
        assert(s@.take(end as int) =~= without_extension(s@));
    }
    string_of(&trim_vec(&out))
}

} // verus!
