//! Character-level string toolkit shared by the parsers and name
//! normalizers. Strings are modelled by their `Seq<char>` view; every
//! helper here states its result over that view.
use vstd::prelude::*;
use vstd::string::StringSliceAdditionalSpecFns;

verus! {

// ---------------------------------------------------------------------
// Character classes
// ---------------------------------------------------------------------

/// Unicode `White_Space` property, the set `char::is_whitespace` tests.
pub open spec fn is_ws(c: char) -> bool {
    let u = c as u32;
    ||| u == 0x20
    ||| 0x09 <= u <= 0x0D
    ||| u == 0x85
    ||| u == 0xA0
    ||| u == 0x1680
    ||| 0x2000 <= u <= 0x200A
    ||| u == 0x2028
    ||| u == 0x2029
    ||| u == 0x202F
    ||| u == 0x205F
    ||| u == 0x3000
}

pub open spec fn is_ascii_alpha(c: char) -> bool {
    ('a' as u32) <= (c as u32) <= ('z' as u32) || ('A' as u32) <= (c as u32) <= ('Z' as u32)
}

pub open spec fn is_ascii_digit(c: char) -> bool {
    ('0' as u32) <= (c as u32) <= ('9' as u32)
}

pub open spec fn is_ascii_alnum(c: char) -> bool {
    is_ascii_alpha(c) || is_ascii_digit(c)
}

pub open spec fn is_ascii_char(c: char) -> bool {
    (c as u32) < 0x80
}

pub open spec fn all_ascii(s: Seq<char>) -> bool {
    forall|i: int| 0 <= i < s.len() ==> is_ascii_char(#[trigger] s[i])
}

/// ASCII upper-case letters mapped to lower case; everything else kept.
pub open spec fn lower_char(c: char) -> char {
    if ('A' as u32) <= (c as u32) <= ('Z' as u32) {
        ((c as u32) + 32) as char
    } else {
        c
    }
}

/// ASCII lower-case letters mapped to upper case; everything else kept.
pub open spec fn upper_char(c: char) -> char {
    if ('a' as u32) <= (c as u32) <= ('z' as u32) {
        ((c as u32) - 32) as char
    } else {
        c
    }
}

pub open spec fn ascii_lower(s: Seq<char>) -> Seq<char> {
    s.map_values(|c: char| lower_char(c))
}

pub open spec fn ascii_upper(s: Seq<char>) -> Seq<char> {
    s.map_values(|c: char| upper_char(c))
}

pub fn is_whitespace(c: char) -> (r: bool)
    ensures
        r == is_ws(c),
{
    let u = c as u32;
    u == 0x20 || (0x09 <= u && u <= 0x0D) || u == 0x85 || u == 0xA0 || u == 0x1680 || (0x2000
        <= u && u <= 0x200A) || u == 0x2028 || u == 0x2029 || u == 0x202F || u == 0x205F || u
        == 0x3000
}

pub fn is_alnum(c: char) -> (r: bool)
    ensures
        r == is_ascii_alnum(c),
{
    let u = c as u32;
    (('a' as u32) <= u && u <= ('z' as u32)) || (('A' as u32) <= u && u <= ('Z' as u32)) || ((
    '0' as u32) <= u && u <= ('9' as u32))
}

pub fn is_alpha(c: char) -> (r: bool)
    ensures
        r == is_ascii_alpha(c),
{
    let u = c as u32;
    (('a' as u32) <= u && u <= ('z' as u32)) || (('A' as u32) <= u && u <= ('Z' as u32))
}

pub fn to_lower(c: char) -> (r: char)
    ensures
        r == lower_char(c),
{
    let u = c as u32;
    if ('A' as u32) <= u && u <= ('Z' as u32) {
        let l = u + 32;
        assert(l < 0xD800);
        char_from_ascii(l)
    } else {
        c
    }
}

pub fn to_upper(c: char) -> (r: char)
    ensures
        r == upper_char(c),
{
    let u = c as u32;
    if ('a' as u32) <= u && u <= ('z' as u32) {
        let l = u - 32;
        char_from_ascii(l)
    } else {
        c
    }
}

/// Converts a code point below 0x80 to its `char`.
fn char_from_ascii(u: u32) -> (r: char)
    requires
        u < 0x80,
    ensures
        r == u as char,
        r as u32 == u,
{
    let b = u as u8;
    let r = b as char;
    assert(r as u32 == u);
    r
}

// ---------------------------------------------------------------------
// Conversions between `&str`, `String` and `Vec<char>`
// ---------------------------------------------------------------------

/// The characters of `s`, in order.
pub fn chars_of(s: &str) -> (r: Vec<char>)
    ensures
        r@ == s@,
{
    let mut out: Vec<char> = Vec::new();
    for c in it: s.chars()
        invariant
            out@ == it.seq().take(it.index() as int),
            it.seq() == s@,
    {
        out.push(c);
    }
    assert(out@ =~= s@);
    out
}

/// Appends one character to a `String` (`String::push`).
#[verifier::external_body]
pub(crate) fn push_char(s: &mut String, c: char)
    ensures
        final(s)@ == old(s)@.push(c),
{
    s.push(c);
}

/// A `String` holding exactly the characters of `v`.
pub fn string_of(v: &[char]) -> (r: String)
    ensures
        r@ == v@,
{
    let mut out = String::new();
    let mut i: usize = 0;
    while i < v.len()
        invariant
            i <= v.len(),
            out@ == v@.take(i as int),
        decreases v.len() - i,
    {
        push_char(&mut out, v[i]);
        i += 1;
        assert(out@ =~= v@.take(i as int));
    }
    assert(v@.take(v.len() as int) =~= v@);
    out
}

/// An owned copy of `s`.
pub fn owned(s: &str) -> (r: String)
    ensures
        r@ == s@,
{
    s.to_owned()
}

/// Character-wise equality of two string slices.
pub fn str_eq(a: &str, b: &str) -> (r: bool)
    ensures
        r == (a@ == b@),
{
    let x = chars_of(a);
    let y = chars_of(b);
    seq_eq(&x, &y)
}

/// Element-wise equality of two character slices.
pub fn seq_eq(x: &[char], y: &[char]) -> (r: bool)
    ensures
        r == (x@ == y@),
{
    if x.len() != y.len() {
        return false;
    }
    let mut i: usize = 0;
    while i < x.len()
        invariant
            x.len() == y.len(),
            i <= x.len(),
            forall|j: int| 0 <= j < i ==> x@[j] == y@[j],
        decreases x.len() - i,
    {
        if x[i] != y[i] {
            return false;
        }
        i += 1;
    }
    assert(x@ =~= y@);
    true
}

/// Whether `s` begins with `p`.
pub open spec fn starts_with(s: Seq<char>, p: Seq<char>) -> bool {
    p.len() <= s.len() && s.take(p.len() as int) == p
}

/// Whether `s` ends with `p`.
pub open spec fn ends_with(s: Seq<char>, p: Seq<char>) -> bool {
    p.len() <= s.len() && s.skip(s.len() - p.len()) == p
}

/// Whether `p` occurs in `s` starting at index `i`.
pub open spec fn occurs_at(s: Seq<char>, p: Seq<char>, i: int) -> bool {
    0 <= i && i + p.len() <= s.len() && s.subrange(i, i + p.len()) == p
}

/// Whether `p` occurs anywhere in `s` (`str::contains`).
pub open spec fn contains(s: Seq<char>, p: Seq<char>) -> bool {
    exists|i: int| occurs_at(s, p, i)
}

pub fn has_prefix(s: &[char], p: &[char]) -> (r: bool)
    ensures
        r == starts_with(s@, p@),
{
    if p.len() > s.len() {
        return false;
    }
    let mut i: usize = 0;
    while i < p.len()
        invariant
            p.len() <= s.len(),
            i <= p.len(),
            forall|j: int| 0 <= j < i ==> s@[j] == p@[j],
        decreases p.len() - i,
    {
        if s[i] != p[i] {
            assert(s@.take(p.len() as int)[i as int] != p@[i as int]);
            return false;
        }
        i += 1;
    }
    assert(s@.take(p.len() as int) =~= p@);
    true
}

/// Whether `p` occurs in `s` at index `at`.
pub fn matches_at(s: &[char], p: &[char], at: usize) -> (r: bool)
    ensures
        r == occurs_at(s@, p@, at as int),
{
    if at > s.len() || p.len() > s.len() - at {
        return false;
    }
    let mut i: usize = 0;
    while i < p.len()
        invariant
            at + p.len() <= s.len(),
            i <= p.len(),
            forall|j: int| 0 <= j < i ==> s@[at + j] == p@[j],
        decreases p.len() - i,
    {
        if s[at + i] != p[i] {
            assert(s@.subrange(at as int, at + p.len())[i as int] != p@[i as int]);
            return false;
        }
        i += 1;
    }
    assert(s@.subrange(at as int, at + p.len()) =~= p@);
    true
}

pub fn has_suffix(s: &[char], p: &[char]) -> (r: bool)
    ensures
        r == ends_with(s@, p@),
{
    if p.len() > s.len() {
        return false;
    }
    let at = s.len() - p.len();
    let r = matches_at(s, p, at);
    assert(s@.subrange(at as int, at + p.len()) =~= s@.skip(at as int));
    r
}

/// Index of the first occurrence of `p` in `s`, if any (`str::find`).
pub fn find_seq(s: &[char], p: &[char]) -> (r: Option<usize>)
    ensures
        r matches Some(i) ==> occurs_at(s@, p@, i as int) && forall|j: int|
            0 <= j < i ==> !occurs_at(s@, p@, j),
        r is None ==> !contains(s@, p@),
{
    if p.len() > s.len() {
        return None;
    }
    let last = s.len() - p.len();
    let mut i: usize = 0;
    loop
        invariant
            p.len() <= s.len(),
            last == s.len() - p.len(),
            i <= last,
            forall|j: int| 0 <= j < i ==> !occurs_at(s@, p@, j),
        decreases last - i,
    {
        if matches_at(s, p, i) {
            return Some(i);
        }
        if i == last {
            return None;
        }
        i += 1;
    }
}

pub fn contains_seq(s: &[char], p: &[char]) -> (r: bool)
    ensures
        r == contains(s@, p@),
{
    find_seq(s, p).is_some()
}

/// ASCII case-folded copy (`to_ascii_lowercase`).
pub fn lower_ascii(s: &[char]) -> (r: Vec<char>)
    ensures
        r@ == ascii_lower(s@),
{
    let mut out: Vec<char> = Vec::new();
    let mut i: usize = 0;
    while i < s.len()
        invariant
            i <= s.len(),
            out@ == ascii_lower(s@.take(i as int)),
        decreases s.len() - i,
    {
        out.push(to_lower(s[i]));
        i += 1;
        assert(ascii_lower(s@.take(i as int)) =~= ascii_lower(s@.take(i - 1)).push(
            lower_char(s@[i - 1]),
        ));
    }
    assert(s@.take(s.len() as int) =~= s@);
    out
}

/// ASCII upper-cased copy (`to_ascii_uppercase`).
pub fn upper_ascii(s: &[char]) -> (r: Vec<char>)
    ensures
        r@ == ascii_upper(s@),
{
    let mut out: Vec<char> = Vec::new();
    let mut i: usize = 0;
    while i < s.len()
        invariant
            i <= s.len(),
            out@ == ascii_upper(s@.take(i as int)),
        decreases s.len() - i,
    {
        out.push(to_upper(s[i]));
        i += 1;
        assert(ascii_upper(s@.take(i as int)) =~= ascii_upper(s@.take(i - 1)).push(
            upper_char(s@[i - 1]),
        ));
    }
    assert(s@.take(s.len() as int) =~= s@);
    out
}

// ---------------------------------------------------------------------
// Trimming
// ---------------------------------------------------------------------

/// `s` without leading whitespace (`str::trim_start`).
pub open spec fn trim_start(s: Seq<char>) -> Seq<char>
    decreases s.len(),
{
    if s.len() > 0 && is_ws(s[0]) {
        trim_start(s.drop_first())
    } else {
        s
    }
}

/// `s` without trailing whitespace (`str::trim_end`).
pub open spec fn trim_end(s: Seq<char>) -> Seq<char>
    decreases s.len(),
{
    if s.len() > 0 && is_ws(s.last()) {
        trim_end(s.drop_last())
    } else {
        s
    }
}

/// `s` without leading or trailing whitespace (`str::trim`).
pub open spec fn trim(s: Seq<char>) -> Seq<char> {
    trim_end(trim_start(s))
}

pub proof fn lemma_trim_start_skip(s: Seq<char>, i: int)
    requires
        0 <= i <= s.len(),
        forall|j: int| 0 <= j < i ==> is_ws(#[trigger] s[j]),
    ensures
        trim_start(s) == trim_start(s.skip(i)),
    decreases i,
{
    if i > 0 {
        assert(s.drop_first().skip(i - 1) =~= s.skip(i));
        lemma_trim_start_skip(s.drop_first(), i - 1);
    } else {
        assert(s.skip(0) =~= s);
    }
}

pub proof fn lemma_trim_end_take(s: Seq<char>, i: int)
    requires
        0 <= i <= s.len(),
        forall|j: int| i <= j < s.len() ==> is_ws(#[trigger] s[j]),
    ensures
        trim_end(s) == trim_end(s.take(i)),
    decreases s.len() - i,
{
    if i < s.len() {
        assert(s.drop_last().take(i) =~= s.take(i));
        lemma_trim_end_take(s.drop_last(), i);
    } else {
        assert(s.take(i) =~= s);
    }
}

/// Index of the first non-whitespace character (or the length).
pub fn skip_ws_start(s: &[char]) -> (r: usize)
    ensures
        r <= s.len(),
        trim_start(s@) == s@.skip(r as int),
{
    let mut i: usize = 0;
    while i < s.len() && is_whitespace(s[i])
        invariant
            i <= s.len(),
            forall|j: int| 0 <= j < i ==> is_ws(#[trigger] s@[j]),
        decreases s.len() - i,
    {
        i += 1;
    }
    proof {
        lemma_trim_start_skip(s@, i as int);
        let t = s@.skip(i as int);
        if t.len() > 0 {
            assert(t[0] == s@[i as int]);
        }
    }
    i
}

/// One past the last non-whitespace character (or zero).
pub fn skip_ws_end(s: &[char]) -> (r: usize)
    ensures
        r <= s.len(),
        trim_end(s@) == s@.take(r as int),
{
    let mut e: usize = s.len();
    while e > 0 && is_whitespace(s[e - 1])
        invariant
            e <= s.len(),
            forall|j: int| e <= j < s.len() ==> is_ws(#[trigger] s@[j]),
        decreases e,
    {
        e -= 1;
    }
    proof {
        lemma_trim_end_take(s@, e as int);
        let t = s@.take(e as int);
        if t.len() > 0 {
            assert(t.last() == s@[e - 1]);
        }
    }
    e
}

/// A copy of `s[from..to]`.
pub fn slice_to_vec(s: &[char], from: usize, to: usize) -> (r: Vec<char>)
    requires
        from <= to <= s.len(),
    ensures
        r@ == s@.subrange(from as int, to as int),
{
    let mut out: Vec<char> = Vec::new();
    let mut i: usize = from;
    while i < to
        invariant
            from <= i <= to <= s.len(),
            out@ == s@.subrange(from as int, i as int),
        decreases to - i,
    {
        out.push(s[i]);
        i += 1;
        assert(out@ =~= s@.subrange(from as int, i as int));
    }
    out
}

pub fn trim_start_vec(s: &[char]) -> (r: Vec<char>)
    ensures
        r@ == trim_start(s@),
{
    let a = skip_ws_start(s);
    assert(s@.subrange(a as int, s.len() as int) =~= s@.skip(a as int));
    slice_to_vec(s, a, s.len())
}

pub fn trim_end_vec(s: &[char]) -> (r: Vec<char>)
    ensures
        r@ == trim_end(s@),
{
    let e = skip_ws_end(s);
    assert(s@.subrange(0, e as int) =~= s@.take(e as int));
    slice_to_vec(s, 0, e)
}

pub fn trim_vec(s: &[char]) -> (r: Vec<char>)
    ensures
        r@ == trim(s@),
{
    let t = trim_start_vec(s);
    trim_end_vec(&t)
}

/// The character sequences held by a vector of character vectors.
pub open spec fn views(v: Seq<Vec<char>>) -> Seq<Seq<char>> {
    v.map_values(|x: Vec<char>| x@)
}

pub proof fn lemma_views_push(v: Seq<Vec<char>>, x: Vec<char>)
    ensures
        views(v.push(x)) == views(v).push(x@),
{
    assert(views(v.push(x)) =~= views(v).push(x@));
}

// ---------------------------------------------------------------------
// Lines (`str::lines`)
// ---------------------------------------------------------------------

/// Index of the first `c` in `s`, or `s.len()` when absent.
pub open spec fn index_of(s: Seq<char>, c: char) -> nat
    decreases s.len(),
{
    if s.len() == 0 {
        0
    } else if s[0] == c {
        0
    } else {
        1 + index_of(s.drop_first(), c)
    }
}

/// `s` with one trailing `'\r'` removed, if present.
pub open spec fn strip_cr(s: Seq<char>) -> Seq<char> {
    if s.len() > 0 && s.last() == '\r' {
        s.drop_last()
    } else {
        s
    }
}

/// The lines of `s`: split after each `'\n'`; the `'\n'` and a `'\r'`
/// just before it are dropped; a final line without `'\n'` is kept as
/// is; no empty line is produced after a final `'\n'`.
pub open spec fn lines(s: Seq<char>) -> Seq<Seq<char>>
    decreases s.len(),
{
    if s.len() == 0 {
        seq![]
    } else {
        let i = index_of(s, '\n');
        if i >= s.len() {
            seq![s]
        } else {
            seq![strip_cr(s.take(i as int))] + lines(s.skip(i + 1 as int))
        }
    }
}

pub proof fn lemma_index_of_bound(s: Seq<char>, c: char)
    ensures
        index_of(s, c) <= s.len(),
        index_of(s, c) < s.len() ==> s[index_of(s, c) as int] == c,
        forall|j: int| 0 <= j < index_of(s, c) ==> s[j] != c,
    decreases s.len(),
{
    if s.len() > 0 && s[0] != c {
        lemma_index_of_bound(s.drop_first(), c);
        assert forall|j: int| 0 <= j < index_of(s, c) implies s[j] != c by {
            if j > 0 {
                assert(s[j] == s.drop_first()[j - 1]);
            }
        }
    }
}

pub proof fn lemma_index_of_concat(a: Seq<char>, b: Seq<char>, c: char)
    requires
        forall|j: int| 0 <= j < a.len() ==> a[j] != c,
    ensures
        index_of(a + b, c) == a.len() + index_of(b, c),
    decreases a.len(),
{
    if a.len() > 0 {
        assert((a + b).drop_first() =~= a.drop_first() + b);
        lemma_index_of_concat(a.drop_first(), b, c);
    } else {
        assert(a + b =~= b);
    }
}

pub proof fn lemma_lines_no_newline(a: Seq<char>)
    requires
        forall|j: int| 0 <= j < a.len() ==> a[j] != '\n',
    ensures
        lines(a) == (if a.len() == 0 {
            Seq::<Seq<char>>::empty()
        } else {
            seq![a]
        }),
{
    lemma_index_of_concat(a, Seq::<char>::empty(), '\n');
    assert(a + Seq::<char>::empty() =~= a);
}

pub proof fn lemma_lines_step(cur: Seq<char>, rest: Seq<char>)
    requires
        forall|j: int| 0 <= j < cur.len() ==> cur[j] != '\n',
        rest.len() > 0,
        rest[0] == '\n',
    ensures
        lines(cur + rest) == seq![strip_cr(cur)] + lines(rest.drop_first()),
{
    lemma_index_of_concat(cur, rest, '\n');
    let s = cur + rest;
    assert(s.take(cur.len() as int) =~= cur);
    assert(s.skip(cur.len() + 1 as int) =~= rest.drop_first());
}

/// The lines of `s` (`str::lines`).
pub fn lines_of(s: &[char]) -> (r: Vec<Vec<char>>)
    ensures
        views(r@) == lines(s@),
{
    let mut out: Vec<Vec<char>> = Vec::new();
    let mut cur: Vec<char> = Vec::new();
    let mut i: usize = 0;
    proof {
        assert(cur@ + s@.skip(0) =~= s@);
        assert(views(out@) + lines(s@) =~= lines(s@));
    }
    while i < s.len()
        invariant
            i <= s.len(),
            forall|j: int| 0 <= j < cur@.len() ==> cur@[j] != '\n',
            lines(s@) == views(out@) + lines(cur@ + s@.skip(i as int)),
        decreases s.len() - i,
    {
        let c = s[i];
        if c == '\n' {
            proof {
                lemma_lines_step(cur@, s@.skip(i as int));
                assert(s@.skip(i as int).drop_first() =~= s@.skip(i + 1));
                assert(Seq::<char>::empty() + s@.skip(i + 1) =~= s@.skip(i + 1));
            }
            let mut line = cur;
            if line.len() > 0 && line[line.len() - 1] == '\r' {
                line.pop();
            }
            let ghost old_out = views(out@);
            proof { lemma_views_push(out@, line); }
            out.push(line);
            proof {
                assert(views(out@) =~= old_out.push(strip_cr(cur@)));
                assert(lines(s@) == old_out + (seq![strip_cr(cur@)] + lines(s@.skip(i + 1))));
                assert(old_out + (seq![strip_cr(cur@)] + lines(s@.skip(i + 1))) =~= old_out.push(
                    strip_cr(cur@),
                ) + lines(s@.skip(i + 1)));
            }
            cur = Vec::new();
        } else {
            let ghost old_cur = cur@;
            cur.push(c);
            proof {
                assert(old_cur + s@.skip(i as int) =~= cur@ + s@.skip(i + 1));
            }
        }
        i += 1;
    }
    proof {
        assert(cur@ + s@.skip(i as int) =~= cur@);
        lemma_lines_no_newline(cur@);
    }
    if cur.len() > 0 {
        let ghost old_out = views(out@);
        proof { lemma_views_push(out@, cur); }
        out.push(cur);
        proof {
            assert(views(out@) =~= old_out + seq![cur@]);
        }
    } else {
        proof {
            assert(views(out@) + Seq::<Seq<char>>::empty() =~= views(out@));
        }
    }
    out
}

// ---------------------------------------------------------------------
// Whitespace-separated words (`str::split_whitespace`)
// ---------------------------------------------------------------------

/// Index of the first whitespace character of `s`, or `s.len()`.
pub open spec fn index_of_ws(s: Seq<char>) -> nat
    decreases s.len(),
{
    if s.len() == 0 {
        0
    } else if is_ws(s[0]) {
        0
    } else {
        1 + index_of_ws(s.drop_first())
    }
}

/// The maximal runs of non-whitespace characters of `s`, in order.
pub open spec fn words(s: Seq<char>) -> Seq<Seq<char>>
    decreases s.len(),
{
    if s.len() == 0 {
        seq![]
    } else if is_ws(s[0]) {
        words(s.drop_first())
    } else {
        let i = index_of_ws(s);
        if i >= s.len() {
            seq![s]
        } else {
            seq![s.take(i as int)] + words(s.skip(i as int))
        }
    }
}

pub proof fn lemma_index_of_ws_concat(a: Seq<char>, b: Seq<char>)
    requires
        forall|j: int| 0 <= j < a.len() ==> !is_ws(a[j]),
    ensures
        index_of_ws(a + b) == a.len() + index_of_ws(b),
    decreases a.len(),
{
    if a.len() > 0 {
        assert((a + b).drop_first() =~= a.drop_first() + b);
        lemma_index_of_ws_concat(a.drop_first(), b);
    } else {
        assert(a + b =~= b);
    }
}

pub proof fn lemma_index_of_ws_bound(s: Seq<char>)
    ensures
        index_of_ws(s) <= s.len(),
    decreases s.len(),
{
    if s.len() > 0 && !is_ws(s[0]) {
        lemma_index_of_ws_bound(s.drop_first());
    }
}

pub proof fn lemma_words_step(cur: Seq<char>, rest: Seq<char>)
    requires
        forall|j: int| 0 <= j < cur.len() ==> !is_ws(cur[j]),
        rest.len() > 0,
        is_ws(rest[0]),
    ensures
        words(cur + rest) == (if cur.len() == 0 {
            words(rest.drop_first())
        } else {
            seq![cur] + words(rest)
        }),
{
    if cur.len() == 0 {
        assert(cur + rest =~= rest);
    } else {
        lemma_index_of_ws_concat(cur, rest);
        let s = cur + rest;
        assert(s[0] == cur[0]);
        assert(s.take(cur.len() as int) =~= cur);
        assert(s.skip(cur.len() as int) =~= rest);
    }
}

pub proof fn lemma_words_no_ws(cur: Seq<char>)
    requires
        forall|j: int| 0 <= j < cur.len() ==> !is_ws(cur[j]),
    ensures
        words(cur) == (if cur.len() == 0 {
            Seq::<Seq<char>>::empty()
        } else {
            seq![cur]
        }),
{
    if cur.len() > 0 {
        lemma_index_of_ws_concat(cur, Seq::<char>::empty());
        assert(cur + Seq::<char>::empty() =~= cur);
    }
}


pub proof fn lemma_index_of_ws_prefix(a: Seq<char>, b: Seq<char>)
    requires
        index_of_ws(a) < a.len(),
    ensures
        index_of_ws(a + b) == index_of_ws(a),
    decreases a.len(),
{
    if !is_ws(a[0]) {
        assert((a + b).drop_first() =~= a.drop_first() + b);
        lemma_index_of_ws_prefix(a.drop_first(), b);
    }
    assert((a + b)[0] == a[0]);
}

/// Splitting text at whitespace splits its words: the words of `a + b` are
/// those of `a` followed by those of `b` when `a` ends or `b` begins with
/// whitespace.
pub proof fn lemma_words_concat(a: Seq<char>, b: Seq<char>)
    requires
        a.len() == 0 || b.len() == 0 || is_ws(a.last()) || is_ws(b[0]),
    ensures
        words(a + b) == words(a) + words(b),
    decreases a.len(),
{
    if a.len() == 0 {
        assert(a + b =~= b);
        assert(words(a) + words(b) =~= words(b));
    } else if b.len() == 0 {
        assert(a + b =~= a);
        assert(words(a) + words(b) =~= words(a));
    } else {
        let s = a + b;
        assert(s[0] == a[0]);
        if is_ws(a[0]) {
            assert(s.drop_first() =~= a.drop_first() + b);
            if a.len() > 1 {
                assert(a.drop_first().last() == a.last());
            }
            lemma_words_concat(a.drop_first(), b);
        } else {
            lemma_index_of_ws_bound(a);
            let i = index_of_ws(a);
            if i < a.len() {
                lemma_index_of_ws_prefix(a, b);
                lemma_index_of_ws_bound(s);
                assert(i < s.len());
                assert(s.take(i as int) =~= a.take(i as int));
                assert(s.skip(i as int) =~= a.skip(i as int) + b);
                assert(a.skip(i as int).last() == a.last());
                lemma_words_concat(a.skip(i as int), b);
                assert(seq![a.take(i as int)] + (words(a.skip(i as int)) + words(b)) =~= (seq![
                    a.take(i as int),
                ] + words(a.skip(i as int))) + words(b));
            } else {
                assert forall|j: int| 0 <= j < a.len() implies !is_ws(a[j]) by {
                    lemma_index_of_ws_first(a, j);
                }
                lemma_words_no_ws(a);
                lemma_words_step(a, b);
            }
        }
    }
}

pub proof fn lemma_index_of_ws_first(s: Seq<char>, j: int)
    requires
        0 <= j < index_of_ws(s),
    ensures
        !is_ws(s[j]),
    decreases s.len(),
{
    lemma_index_of_ws_bound(s);
    if j > 0 {
        lemma_index_of_ws_first(s.drop_first(), j - 1);
        assert(s.drop_first()[j - 1] == s[j]);
    }
}

/// Words that are non-empty and hold no whitespace, joined by single
/// spaces, split back into the same words.
pub proof fn lemma_words_join(parts: Seq<Seq<char>>)
    requires
        forall|k: int| 0 <= k < parts.len() ==> (#[trigger] parts[k]).len() > 0,
        forall|k: int, j: int| 0 <= k < parts.len() && 0 <= j < parts[k].len() ==> !is_ws(#[trigger] parts[k][j]),
    ensures
        words(join(parts, " "@)) == parts,
    decreases parts.len(),
{
    reveal_strlit(" ");
    if parts.len() == 0 {
        assert(words(Seq::<char>::empty()) =~= parts);
    } else if parts.len() == 1 {
        let p = parts[0];
        assert forall|j: int| 0 <= j < p.len() implies !is_ws(p[j]) by {}
        lemma_words_no_ws(p);
        assert(seq![p] =~= parts);
    } else {
        let init = parts.drop_last();
        let last = parts.last();
        assert forall|k: int| 0 <= k < init.len() implies (#[trigger] init[k]).len() > 0 by {
            assert(init[k] == parts[k]);
        }
        assert forall|k: int, j: int| 0 <= k < init.len() && 0 <= j < init[k].len() implies !is_ws(#[trigger] init[k][j]) by {
            assert(init[k] == parts[k]);
        }
        lemma_words_join(init);
        let a = join(init, " "@);
        assert(last == parts[parts.len() - 1]);
        assert forall|j: int| 0 <= j < last.len() implies !is_ws(last[j]) by {}
        lemma_words_no_ws(last);
        lemma_words_concat(a, " "@);
        assert(words(" "@) =~= Seq::<Seq<char>>::empty()) by {
            assert(" "@[0] == ' ');
            assert(is_ws(" "@[0]));
            assert(" "@.drop_first() =~= Seq::<char>::empty());
            assert(words(Seq::<char>::empty()) =~= Seq::<Seq<char>>::empty());
        }
        assert((a + " "@).last() == ' ');
        lemma_words_concat(a + " "@, last);
        assert(join(parts, " "@) == a + " "@ + last);
        assert(init + seq![last] =~= parts);
        assert(words(a) + Seq::<Seq<char>>::empty() =~= words(a));
    }
}

/// Leading and trailing whitespace carry no words.
pub proof fn lemma_words_trim(s: Seq<char>)
    ensures
        words(trim_start(s)) == words(s),
        words(trim_end(s)) == words(s),
        words(trim(s)) == words(s),
    decreases s.len(),
{
    lemma_words_trim_end(s);
    if s.len() > 0 && is_ws(s[0]) {
        lemma_words_trim(s.drop_first());
    }
    lemma_words_trim_end(trim_start(s));
}

pub proof fn lemma_words_trim_end(s: Seq<char>)
    ensures
        words(trim_end(s)) == words(s),
    decreases s.len(),
{
    if s.len() > 0 && is_ws(s.last()) {
        lemma_words_trim_end(s.drop_last());
        let c = seq![s.last()];
        assert(s.drop_last() + c =~= s);
        lemma_words_concat(s.drop_last(), c);
        assert(words(c) =~= Seq::<Seq<char>>::empty()) by {
            assert(c[0] == s.last());
            assert(c.drop_first() =~= Seq::<char>::empty());
            assert(words(Seq::<char>::empty()) =~= Seq::<Seq<char>>::empty());
        }
        assert(words(s.drop_last()) + Seq::<Seq<char>>::empty() =~= words(s.drop_last()));
    }
}


/// Each word is non-empty and holds no whitespace.
pub open spec fn solid_words(ws: Seq<Seq<char>>) -> bool {
    &&& forall|k: int| 0 <= k < ws.len() ==> (#[trigger] ws[k]).len() > 0
    &&& forall|k: int, j: int| 0 <= k < ws.len() && 0 <= j < ws[k].len() ==> !is_ws(#[trigger] ws[k][j])
}

pub proof fn lemma_words_solid(s: Seq<char>)
    ensures
        solid_words(words(s)),
    decreases s.len(),
{
    if s.len() > 0 {
        if is_ws(s[0]) {
            lemma_words_solid(s.drop_first());
        } else {
            lemma_index_of_ws_bound(s);
            let i = index_of_ws(s);
            let w = words(s);
            let head = s.take(i as int);
            assert forall|j: int| 0 <= j < head.len() implies !is_ws(#[trigger] head[j]) by {
                lemma_index_of_ws_first(s, j);
            }
            assert(i > 0);
            if i < s.len() {
                lemma_words_solid(s.skip(i as int));
                let rest = words(s.skip(i as int));
                assert(w == seq![head] + rest);
                assert forall|k: int| 0 <= k < w.len() implies (#[trigger] w[k]).len() > 0 by {
                    if k > 0 {
                        assert(w[k] == rest[k - 1]);
                    }
                }
                assert forall|k: int, j: int| 0 <= k < w.len() && 0 <= j < w[k].len() implies !is_ws(#[trigger] w[k][j]) by {
                    if k > 0 {
                        assert(w[k] == rest[k - 1]);
                    } else {
                        assert(w[k] == head);
                    }
                }
            } else {
                assert(head =~= s);
                assert(w == seq![s]);
                assert forall|k: int, j: int| 0 <= k < w.len() && 0 <= j < w[k].len() implies !is_ws(#[trigger] w[k][j]) by {
                    assert(w[k] == s);
                    assert(head[j] == s[j]);
                }
            }
        }
    }
}

/// Text without capital letters is its own ASCII lower-case form.
pub proof fn lemma_ascii_lower_keeps(s: Seq<char>)
    requires
        no_ascii_upper(s),
    ensures
        ascii_lower(s) == s,
{
    assert forall|i: int| 0 <= i < s.len() implies ascii_lower(s)[i] == s[i] by {
        assert(!is_ascii_upper(s[i]));
    }
    assert(ascii_lower(s) =~= s);
}

/// The whitespace-separated words of `s` (`str::split_whitespace`).
pub fn words_of(s: &[char]) -> (r: Vec<Vec<char>>)
    ensures
        views(r@) == words(s@),
{
    let mut out: Vec<Vec<char>> = Vec::new();
    let mut cur: Vec<char> = Vec::new();
    let mut i: usize = 0;
    proof {
        assert(cur@ + s@.skip(0) =~= s@);
        assert(views(out@) + words(s@) =~= words(s@));
    }
    while i < s.len()
        invariant
            i <= s.len(),
            forall|j: int| 0 <= j < cur@.len() ==> !is_ws(cur@[j]),
            words(s@) == views(out@) + words(cur@ + s@.skip(i as int)),
        decreases s.len() - i,
    {
        let c = s[i];
        if is_whitespace(c) {
            proof {
                lemma_words_step(cur@, s@.skip(i as int));
                assert(s@.skip(i as int).drop_first() =~= s@.skip(i + 1));
                assert(Seq::<char>::empty() + s@.skip(i + 1) =~= s@.skip(i + 1));
            }
            if cur.len() > 0 {
                let ghost old_out = views(out@);
                let ghost old_cur = cur@;
                proof { lemma_views_push(out@, cur); }
                out.push(cur);
                proof {
                    assert(views(out@) =~= old_out.push(old_cur));
                    lemma_words_step(Seq::<char>::empty(), s@.skip(i as int));
                    assert(Seq::<char>::empty() + s@.skip(i as int) =~= s@.skip(i as int));
                    assert(old_out + (seq![old_cur] + words(s@.skip(i as int))) =~= old_out.push(
                        old_cur,
                    ) + words(s@.skip(i + 1)));
                }
                cur = Vec::new();
            }
        } else {
            let ghost old_cur = cur@;
            cur.push(c);
            proof {
                assert(old_cur + s@.skip(i as int) =~= cur@ + s@.skip(i + 1));
            }
        }
        i += 1;
    }
    proof {
        assert(cur@ + s@.skip(i as int) =~= cur@);
        lemma_words_no_ws(cur@);
    }
    if cur.len() > 0 {
        let ghost old_out = views(out@);
        proof { lemma_views_push(out@, cur); }
        out.push(cur);
        proof {
            assert(views(out@) =~= old_out + seq![cur@]);
        }
    } else {
        proof {
            assert(views(out@) + Seq::<Seq<char>>::empty() =~= views(out@));
        }
    }
    out
}

// ---------------------------------------------------------------------
// Unicode lower-casing (`str::to_lowercase`)
// ---------------------------------------------------------------------

/// The Unicode lower-case mapping of a string, as `str::to_lowercase`
/// computes it.
pub uninterp spec fn lowercase(s: Seq<char>) -> Seq<char>;

/// No character of `s` is an ASCII capital letter.
pub open spec fn no_ascii_upper(s: Seq<char>) -> bool {
    forall|i: int| 0 <= i < s.len() ==> !is_ascii_upper(#[trigger] s[i])
}

/// `str::to_lowercase`. Claimed: the result is the function `lowercase`
/// of the input's characters; on ASCII text that function lowers the
/// letters `A`-`Z` and keeps every other character (the ASCII rows of the
/// Unicode lower-case mapping); and the result, being the lower-case
/// equivalent, holds no ASCII capital letter (each maps to its small
/// letter, and no character maps to one). Nothing else is said of
/// non-ASCII text.
#[verifier::external_body]
pub(crate) fn to_lowercase(s: &str) -> (r: String)
    ensures
        r@ == lowercase(s@),
        all_ascii(s@) ==> r@ == ascii_lower(s@),
        no_ascii_upper(r@),
{
    s.to_lowercase()
}

// ---------------------------------------------------------------------
// Percent-encoding
// ---------------------------------------------------------------------

/// The bytes percent-encoding keeps as they are: ASCII letters and digits,
/// `-`, `.`, `_` and `~`.
pub open spec fn url_unreserved(b: u8) -> bool {
    ||| 0x30 <= b <= 0x39
    ||| 0x41 <= b <= 0x5A
    ||| 0x61 <= b <= 0x7A
    ||| b == 0x2D
    ||| b == 0x2E
    ||| b == 0x5F
    ||| b == 0x7E
}

/// The upper-case hex digit of a value below sixteen.
pub open spec fn hex_upper(d: u8) -> char {
    if d < 10 {
        (0x30 + d) as char
    } else {
        (0x41 - 10 + d) as char
    }
}

/// One byte percent-encoded: itself when unreserved, else `%` and its two
/// upper-case hex digits.
pub open spec fn percent_byte(b: u8) -> Seq<char> {
    if url_unreserved(b) {
        seq![b as char]
    } else {
        seq!['%', hex_upper(b / 16), hex_upper(b % 16)]
    }
}

/// Bytes percent-encoded one after another.
pub open spec fn percent_encoded(bs: Seq<u8>) -> Seq<char>
    decreases bs.len(),
{
    if bs.len() == 0 {
        Seq::empty()
    } else {
        percent_encoded(bs.drop_last()) + percent_byte(bs.last())
    }
}

/// `urlencoding::encode`: the UTF-8 bytes of `s`, each kept when it is an
/// ASCII letter, digit, `-`, `.`, `_` or `~` and otherwise written as `%`
/// and two upper-case hex digits.
#[verifier::external_body]
pub(crate) fn url_encode(s: &str) -> (r: String)
    ensures
        r@ == percent_encoded(s.spec_bytes()),
{
    urlencoding::encode(s).into_owned()
}

// ---------------------------------------------------------------------
// Joining and character predicates over sequences
// ---------------------------------------------------------------------

/// `parts` joined with `sep` between consecutive parts (`[..].join(sep)`).
pub open spec fn join(parts: Seq<Seq<char>>, sep: Seq<char>) -> Seq<char>
    decreases parts.len(),
{
    if parts.len() == 0 {
        seq![]
    } else if parts.len() == 1 {
        parts[0]
    } else {
        join(parts.drop_last(), sep) + sep + parts.last()
    }
}

/// An ASCII capital letter.
pub open spec fn is_ascii_upper(c: char) -> bool {
    ('A' as u32) <= (c as u32) <= ('Z' as u32)
}

/// A small ASCII letter, an ASCII digit or a plain space.
pub open spec fn plain_char(c: char) -> bool {
    (is_ascii_alnum(c) && !is_ascii_upper(c)) || c == ' '
}

/// Text made of small ASCII letters, digits and plain spaces only.
pub open spec fn plain_text(s: Seq<char>) -> bool {
    forall|i: int| 0 <= i < s.len() ==> plain_char(#[trigger] s[i])
}

pub proof fn lemma_plain_text_ascii(s: Seq<char>)
    requires
        plain_text(s),
    ensures
        all_ascii(s),
{
    assert forall|i: int| 0 <= i < s.len() implies is_ascii_char(#[trigger] s[i]) by {
        assert(plain_char(s[i]));
    }
}

pub proof fn lemma_words_of_plain_text(s: Seq<char>)
    requires
        plain_text(s),
    ensures
        forall|k: int| 0 <= k < words(s).len() ==> plain_text(#[trigger] words(s)[k]),
    decreases s.len(),
{
    if s.len() > 0 {
        if is_ws(s[0]) {
            assert(plain_text(s.drop_first())) by {
                assert forall|i: int| 0 <= i < s.drop_first().len() implies plain_char(#[trigger] s.drop_first()[i]) by {
                    assert(s.drop_first()[i] == s[i + 1]);
                }
            }
            lemma_words_of_plain_text(s.drop_first());
            assert(words(s) == words(s.drop_first()));
        } else {
            lemma_index_of_ws_bound(s);
            let i = index_of_ws(s);
            if i < s.len() {
                let rest = s.skip(i as int);
                assert(plain_text(rest)) by {
                    assert forall|j: int| 0 <= j < rest.len() implies plain_char(#[trigger] rest[j]) by {
                        assert(rest[j] == s[j + i]);
                    }
                }
                assert(plain_text(s.take(i as int))) by {
                    assert forall|j: int| 0 <= j < s.take(i as int).len() implies plain_char(#[trigger] s.take(i as int)[j]) by {
                        assert(s.take(i as int)[j] == s[j]);
                    }
                }
                lemma_words_of_plain_text(rest);
                let w = words(s);
                assert(w == seq![s.take(i as int)] + words(rest));
                assert forall|k: int| 0 <= k < w.len() implies plain_text(#[trigger] w[k]) by {
                    if k > 0 {
                        assert(w[k] == words(rest)[k - 1]);
                    }
                }
            } else {
                assert(words(s) == seq![s]);
                assert(words(s)[0] == s);
            }
        }
    }
}

pub proof fn lemma_join_plain_text(parts: Seq<Seq<char>>)
    requires
        forall|k: int| 0 <= k < parts.len() ==> plain_text(#[trigger] parts[k]),
    ensures
        plain_text(join(parts, " "@)),
    decreases parts.len(),
{
    reveal_strlit(" ");
    if parts.len() > 1 {
        let init = parts.drop_last();
        assert forall|k: int| 0 <= k < init.len() implies plain_text(#[trigger] init[k]) by {
            assert(init[k] == parts[k]);
        }
        lemma_join_plain_text(init);
        let a = join(init, " "@);
        let b = parts.last();
        assert(plain_text(b)) by {
            assert(b == parts[parts.len() - 1]);
        }
        let r = a + " "@ + b;
        assert forall|i: int| 0 <= i < r.len() implies plain_char(#[trigger] r[i]) by {
            if i < a.len() {
                assert(r[i] == a[i]);
            } else if i == a.len() {
                assert(r[i] == ' ');
            } else {
                assert(r[i] == b[i - a.len() - 1]);
            }
        }
    } else if parts.len() == 1 {
        assert(plain_text(parts[0]));
    }
}

/// `parts` joined with `sep`.
pub fn join_vecs(parts: &Vec<Vec<char>>, sep: &[char]) -> (r: Vec<char>)
    ensures
        r@ == join(views(parts@), sep@),
{
    let mut out: Vec<char> = Vec::new();
    let mut i: usize = 0;
    while i < parts.len()
        invariant
            i <= parts.len(),
            out@ == join(views(parts@).take(i as int), sep@),
        decreases parts.len() - i,
    {
        let ghost before = out@;
        if i > 0 {
            let mut k: usize = 0;
            while k < sep.len()
                invariant
                    k <= sep.len(),
                    out@ == before + sep@.take(k as int),
                decreases sep.len() - k,
            {
                out.push(sep[k]);
                k += 1;
                assert(out@ =~= before + sep@.take(k as int));
            }
        }
        let ghost mid = out@;
        let part = &parts[i];
        let mut k: usize = 0;
        while k < part.len()
            invariant
                k <= part.len(),
                out@ == mid + part@.take(k as int),
            decreases part.len() - k,
        {
            out.push(part[k]);
            k += 1;
            assert(out@ =~= mid + part@.take(k as int));
        }
        proof {
            let t = views(parts@).take(i + 1);
            assert(t.drop_last() =~= views(parts@).take(i as int));
            assert(t.last() == part@);
            assert(sep@.take(sep.len() as int) =~= sep@);
            assert(part@.take(part.len() as int) =~= part@);
            if i == 0 {
                assert(out@ =~= t[0]);
            } else {
                assert(out@ =~= join(t.drop_last(), sep@) + sep@ + t.last());
            }
        }
        i += 1;
    }
    assert(views(parts@).take(parts.len() as int) =~= views(parts@));
    out
}

/// Appends the characters of `s` to `out`.
pub fn push_all(out: &mut Vec<char>, s: &[char])
    ensures
        final(out)@ == old(out)@ + s@,
{
    let ghost start = out@;
    let mut i: usize = 0;
    while i < s.len()
        invariant
            i <= s.len(),
            out@ == start + s@.take(i as int),
        decreases s.len() - i,
    {
        out.push(s[i]);
        i += 1;
        assert(out@ =~= start + s@.take(i as int));
    }
    assert(s@.take(s.len() as int) =~= s@);
}

/// Appends the characters of `s` to `out`.
pub fn push_str(out: &mut Vec<char>, s: &str)
    ensures
        final(out)@ == old(out)@ + s@,
{
    let cs = chars_of(s);
    push_all(out, &cs);
}

/// The pieces of `s` between occurrences of `c` (`str::split`), empty
/// pieces included.
pub open spec fn split_on(s: Seq<char>, c: char) -> Seq<Seq<char>>
    decreases s.len(),
{
    let i = index_of(s, c);
    if i >= s.len() {
        seq![s]
    } else {
        proof {
            lemma_index_of_bound(s, c);
        }
        seq![s.take(i as int)] + split_on(s.skip(i + 1int), c)
    }
}

/// The pieces of `s` between occurrences of `c` (`str::split`).
pub fn split_chars(s: &[char], c: char) -> (r: Vec<Vec<char>>)
    ensures
        views(r@) == split_on(s@, c),
{
    let mut out: Vec<Vec<char>> = Vec::new();
    let mut cur: Vec<char> = Vec::new();
    let mut i: usize = 0;
    assert(cur@ + s@.skip(0) =~= s@);
    assert(views(out@) + split_on(s@, c) =~= split_on(s@, c));
    while i < s.len()
        invariant
            i <= s.len(),
            forall|j: int| 0 <= j < cur@.len() ==> cur@[j] != c,
            views(out@) + split_on(cur@ + s@.skip(i as int), c) == split_on(s@, c),
        decreases s.len() - i,
    {
        let ch = s[i];
        if ch == c {
            proof {
                let rest = s@.skip(i as int);
                assert(rest[0] == c);
                lemma_index_of_concat(cur@, rest, c);
                let whole = cur@ + rest;
                assert(whole.take(cur@.len() as int) =~= cur@);
                assert(whole.skip(cur@.len() + 1int) =~= s@.skip(i + 1));
                assert(Seq::<char>::empty() + s@.skip(i + 1) =~= s@.skip(i + 1));
                lemma_views_push(out@, cur);
            }
            out.push(cur);
            cur = Vec::new();
            proof {
                assert(views(out@) + split_on(cur@ + s@.skip(i + 1), c) =~= split_on(s@, c));
            }
        } else {
            let ghost old_cur = cur@;
            cur.push(ch);
            proof {
                assert(cur@ + s@.skip(i + 1) =~= old_cur + s@.skip(i as int));
            }
        }
        i += 1;
    }
    proof {
        assert(cur@ + s@.skip(i as int) =~= cur@);
        lemma_index_of_concat(cur@, Seq::<char>::empty(), c);
        assert(cur@ + Seq::<char>::empty() =~= cur@);
        lemma_views_push(out@, cur);
    }
    out.push(cur);
    assert(views(out@) =~= split_on(s@, c));
    out
}


/// Lexicographic order on character sequences by code point, which is the
/// order `str`'s `Ord` gives (UTF-8 preserves code-point order).
pub open spec fn lex_lt(a: Seq<char>, b: Seq<char>) -> bool
    decreases a.len(),
{
    if b.len() == 0 {
        false
    } else if a.len() == 0 {
        true
    } else if a[0] != b[0] {
        (a[0] as u32) < (b[0] as u32)
    } else {
        lex_lt(a.drop_first(), b.drop_first())
    }
}

pub proof fn lemma_lex_lt_irreflexive(a: Seq<char>)
    ensures
        !lex_lt(a, a),
    decreases a.len(),
{
    if a.len() > 0 {
        lemma_lex_lt_irreflexive(a.drop_first());
    }
}

pub proof fn lemma_lex_lt_total(a: Seq<char>, b: Seq<char>)
    requires
        a != b,
    ensures
        lex_lt(a, b) || lex_lt(b, a),
    decreases a.len(),
{
    if a.len() > 0 && b.len() > 0 && a[0] == b[0] {
        if a.drop_first() == b.drop_first() {
            assert(a =~= seq![a[0]] + a.drop_first());
            assert(b =~= seq![b[0]] + b.drop_first());
        }
        lemma_lex_lt_total(a.drop_first(), b.drop_first());
    } else if a.len() == 0 && b.len() == 0 {
        assert(a =~= b);
    } else if a.len() > 0 && b.len() > 0 {
        vstd::utf8::char_u32_cast(a[0], a[0] as u32);
        vstd::utf8::char_u32_cast(b[0], b[0] as u32);
        assert((a[0] as u32) != (b[0] as u32));
    }
}

pub proof fn lemma_lex_lt_transitive(a: Seq<char>, b: Seq<char>, c: Seq<char>)
    requires
        lex_lt(a, b),
        lex_lt(b, c),
    ensures
        lex_lt(a, c),
    decreases a.len(),
{
    if a.len() > 0 && b.len() > 0 && c.len() > 0 && a[0] == b[0] && b[0] == c[0] {
        lemma_lex_lt_transitive(a.drop_first(), b.drop_first(), c.drop_first());
    }
}

/// Whether `a` comes strictly before `b` in code-point order.
pub fn lex_less(a: &[char], b: &[char]) -> (r: bool)
    ensures
        r == lex_lt(a@, b@),
{
    let mut i: usize = 0;
    assert(a@.skip(0) =~= a@);
    assert(b@.skip(0) =~= b@);
    while i < a.len() && i < b.len() && a[i] == b[i]
        invariant
            i <= a.len(),
            i <= b.len(),
            lex_lt(a@, b@) == lex_lt(a@.skip(i as int), b@.skip(i as int)),
        decreases a.len() - i,
    {
        assert(a@.skip(i as int).drop_first() =~= a@.skip(i + 1));
        assert(b@.skip(i as int).drop_first() =~= b@.skip(i + 1));
        i += 1;
    }
    if i >= b.len() {
        false
    } else if i >= a.len() {
        true
    } else {
        assert(a@.skip(i as int)[0] == a@[i as int]);
        assert(b@.skip(i as int)[0] == b@[i as int]);
        (a[i] as u32) < (b[i] as u32)
    }
}

} // verus!
