//! Title normalization for libretro-thumbnails matching. ROM file names
//! and upstream entries use different conventions; normalization strips
//! the extension, bracketed tags, punctuation, case, region and version
//! words and leading articles so that the two can be compared.
use vstd::prelude::*;
use crate::text::{
    occurs_at, ascii_lower, lemma_ascii_lower_keeps, lemma_words_concat, lemma_words_join,
    lemma_words_solid, lemma_words_trim, solid_words,
    all_ascii, chars_of, contains, contains_seq, lemma_join_plain_text, lemma_plain_text_ascii,
    lemma_words_of_plain_text, no_ascii_upper, is_ascii_upper, plain_char, plain_text, trim_end, trim_start, has_prefix, is_alnum, is_ascii_alnum, is_whitespace, is_ws, join, join_vecs,
    lemma_views_push, lowercase, slice_to_vec, starts_with, str_eq, string_of, to_lowercase, trim,
    trim_vec, views, words, words_of,
};
use crate::title_clean::{last_index_of, lemma_last_index_of_bound, rfind_char};

verus! {

// ---------------------------------------------------------------------
// Extension
// ---------------------------------------------------------------------

/// Bytes a character takes in UTF-8.
pub open spec fn utf8_width(c: char) -> nat {
    if (c as u32) < 0x80 {
        1
    } else if (c as u32) < 0x800 {
        2
    } else if (c as u32) < 0x10000 {
        3
    } else {
        4
    }
}

/// Bytes `s` takes in UTF-8.
pub open spec fn utf8_len(s: Seq<char>) -> nat
    decreases s.len(),
{
    if s.len() == 0 {
        0
    } else {
        utf8_len(s.drop_last()) + utf8_width(s.last())
    }
}

/// `s` without a final `.ext` whose extension is at most five bytes.
pub open spec fn without_short_extension(s: Seq<char>) -> Seq<char> {
    let i = last_index_of(s, '.');
    if i >= 0 && utf8_len(s.skip(i + 1)) <= 5 {
        s.take(i)
    } else {
        s
    }
}

fn char_width(c: char) -> (r: usize)
    ensures
        r == utf8_width(c),
{
    let u = c as u32;
    if u < 0x80 {
        1
    } else if u < 0x800 {
        2
    } else if u < 0x10000 {
        3
    } else {
        4
    }
}

/// Whether `s[from..]` takes at most `limit` bytes in UTF-8.
pub(crate) fn utf8_len_at_most(s: &[char], from: usize, limit: usize) -> (r: bool)
    requires
        from <= s.len(),
        limit <= 5,
    ensures
        r == (utf8_len(s@.skip(from as int)) <= limit),
{
    let mut total: usize = 0;
    let mut k: usize = from;
    while k < s.len()
        invariant
            from <= k <= s.len(),
            total == utf8_len(s@.subrange(from as int, k as int)),
            total <= limit,
            limit <= 5,
        decreases s.len() - k,
    {
        proof {
            let t = s@.subrange(from as int, k + 1);
            assert(t.drop_last() =~= s@.subrange(from as int, k as int));
        }
        total += char_width(s[k]);
        k += 1;
        if total > limit {
            proof {
                lemma_utf8_len_prefix_le(s@.skip(from as int), (k - from) as int);
                assert(s@.skip(from as int).take((k - from) as int) =~= s@.subrange(
                    from as int,
                    k as int,
                ));
            }
            return false;
        }
    }
    assert(s@.subrange(from as int, s.len() as int) =~= s@.skip(from as int));
    true
}

pub proof fn lemma_utf8_len_prefix_le(s: Seq<char>, n: int)
    requires
        0 <= n <= s.len(),
    ensures
        utf8_len(s.take(n)) <= utf8_len(s),
    decreases s.len() - n,
{
    if n < s.len() {
        assert(s.drop_last().take(n) =~= s.take(n));
        lemma_utf8_len_prefix_le(s.drop_last(), n);
    } else {
        assert(s.take(n) =~= s);
    }
}

// ---------------------------------------------------------------------
// Brackets
// ---------------------------------------------------------------------

pub open spec fn is_open_bracket(c: char) -> bool {
    c == '(' || c == '[' || c == '{'
}

pub open spec fn is_close_bracket(c: char) -> bool {
    c == ')' || c == ']' || c == '}'
}

/// Scanning `s` left to right: the characters kept so far and the
/// bracket nesting depth.
pub open spec fn bracket_scan(s: Seq<char>) -> (Seq<char>, nat)
    decreases s.len(),
{
    if s.len() == 0 {
        (seq![], 0)
    } else {
        let (out, depth) = bracket_scan(s.drop_last());
        let c = s.last();
        if is_open_bracket(c) {
            (out, depth + 1)
        } else if is_close_bracket(c) {
            if depth > 0 {
                (out, (depth - 1) as nat)
            } else {
                (out.push(c), depth)
            }
        } else if depth == 0 {
            (out.push(c), depth)
        } else {
            (out, depth)
        }
    }
}

/// `s` with everything inside `()`, `[]`, `{}` removed (a closing bracket
/// with nothing open is kept).
pub open spec fn unbracketed(s: Seq<char>) -> Seq<char> {
    bracket_scan(s).0
}

pub proof fn lemma_bracket_depth_bound(s: Seq<char>)
    ensures
        bracket_scan(s).1 <= s.len(),
    decreases s.len(),
{
    if s.len() > 0 {
        lemma_bracket_depth_bound(s.drop_last());
    }
}

fn strip_brackets_chars(s: &[char]) -> (r: Vec<char>)
    ensures
        r@ == unbracketed(s@),
{
    let mut out: Vec<char> = Vec::new();
    let mut depth: usize = 0;
    let mut i: usize = 0;
    while i < s.len()
        invariant
            i <= s.len(),
            (out@, depth as nat) == bracket_scan(s@.take(i as int)),
        decreases s.len() - i,
    {
        proof {
            let t = s@.take(i + 1);
            assert(t.drop_last() =~= s@.take(i as int));
            lemma_bracket_depth_bound(s@.take(i as int));
        }
        let c = s[i];
        if c == '(' || c == '[' || c == '{' {
            depth += 1;
        } else if c == ')' || c == ']' || c == '}' {
            if depth > 0 {
                depth -= 1;
            } else {
                out.push(c);
            }
        } else if depth == 0 {
            out.push(c);
        }
        i += 1;
    }
    assert(s@.take(s.len() as int) =~= s@);
    out
}

/// Drop everything inside parens / brackets / braces.
pub fn strip_brackets(s: &str) -> (r: String)
    ensures
        r@ == unbracketed(s@),
{
    string_of(&strip_brackets_chars(&chars_of(s)))
}

// ---------------------------------------------------------------------
// Punctuation and whitespace
// ---------------------------------------------------------------------

pub open spec fn is_separator(c: char) -> bool {
    c == '_' || c == '-' || c == '.' || c == ':' || c == ',' || c == '+' || c == '/' || c == '\\'
}

/// Separators turned into spaces, then everything but ASCII letters,
/// digits and whitespace dropped.
pub open spec fn kept_chars(s: Seq<char>) -> Seq<char>
    decreases s.len(),
{
    if s.len() == 0 {
        seq![]
    } else {
        let prev = kept_chars(s.drop_last());
        let c = if is_separator(s.last()) {
            ' '
        } else {
            s.last()
        };
        if is_ascii_alnum(c) || is_ws(c) {
            prev.push(c)
        } else {
            prev
        }
    }
}

fn keep_chars(s: &[char]) -> (r: Vec<char>)
    ensures
        r@ == kept_chars(s@),
{
    let mut out: Vec<char> = Vec::new();
    let mut i: usize = 0;
    while i < s.len()
        invariant
            i <= s.len(),
            out@ == kept_chars(s@.take(i as int)),
        decreases s.len() - i,
    {
        proof {
            let t = s@.take(i + 1);
            assert(t.drop_last() =~= s@.take(i as int));
        }
        let x = s[i];
        let c = if x == '_' || x == '-' || x == '.' || x == ':' || x == ',' || x == '+' || x == '/'
            || x == '\\' {
            ' '
        } else {
            x
        };
        if is_alnum(c) || is_whitespace(c) {
            out.push(c);
        }
        i += 1;
    }
    assert(s@.take(s.len() as int) =~= s@);
    out
}

/// Whitespace runs turned into single spaces, none at the start.
pub open spec fn spaced(s: Seq<char>) -> Seq<char>
    decreases s.len(),
{
    if s.len() == 0 {
        seq![]
    } else {
        let prev = spaced(s.drop_last());
        let c = s.last();
        if is_ws(c) {
            if !(s.len() >= 2 && is_ws(s[s.len() - 2])) && prev.len() > 0 {
                prev.push(' ')
            } else {
                prev
            }
        } else {
            prev.push(c)
        }
    }
}

/// Whitespace runs collapsed to single spaces, trimmed.
pub open spec fn collapsed(s: Seq<char>) -> Seq<char> {
    trim(spaced(s))
}

fn collapse_chars(s: &[char]) -> (r: Vec<char>)
    ensures
        r@ == collapsed(s@),
{
    let mut out: Vec<char> = Vec::new();
    let mut prev_space = false;
    let mut i: usize = 0;
    while i < s.len()
        invariant
            i <= s.len(),
            out@ == spaced(s@.take(i as int)),
            prev_space == (i >= 1 && is_ws(s@[i - 1])),
        decreases s.len() - i,
    {
        proof {
            let t = s@.take(i + 1);
            assert(t.drop_last() =~= s@.take(i as int));
            if i >= 1 {
                assert(t[t.len() - 2] == s@[i - 1]);
            }
        }
        let c = s[i];
        if is_whitespace(c) {
            if !prev_space && out.len() > 0 {
                out.push(' ');
            }
            prev_space = true;
        } else {
            out.push(c);
            prev_space = false;
        }
        i += 1;
    }
    assert(s@.take(s.len() as int) =~= s@);
    trim_vec(&out)
}

/// Collapse whitespace runs to single spaces and trim.
pub fn collapse_whitespace(s: &str) -> (r: String)
    ensures
        r@ == collapsed(s@),
{
    string_of(&collapse_chars(&chars_of(s)))
}

// ---------------------------------------------------------------------
// Tag words and articles
// ---------------------------------------------------------------------

/// Region and version words that may leak out of brackets.
pub open spec fn is_tag_word(w: Seq<char>) -> bool {
    ||| w == "usa"@
    ||| w == "japan"@
    ||| w == "europe"@
    ||| w == "world"@
    ||| w == "asia"@
    ||| w == "korea"@
    ||| w == "australia"@
    ||| w == "jp"@
    ||| w == "us"@
    ||| w == "eu"@
    ||| w == "uk"@
    ||| w == "kor"@
    ||| w == "en"@
    ||| w == "ja"@
    ||| w == "fr"@
    ||| w == "de"@
    ||| w == "es"@
    ||| w == "it"@
    ||| w == "rev"@
    ||| w == "proto"@
    ||| w == "beta"@
    ||| w == "alpha"@
    ||| w == "demo"@
    ||| w == "sample"@
    ||| w == "unl"@
    ||| w == "v1"@
    ||| w == "v2"@
    ||| w == "v3"@
    ||| w == "v4"@
}

fn tag_word(w: &str) -> (r: bool)
    ensures
        r == is_tag_word(w@),
{
    str_eq(w, "usa") || str_eq(w, "japan") || str_eq(w, "europe") || str_eq(w, "world") || str_eq(
        w,
        "asia",
    ) || str_eq(w, "korea") || str_eq(w, "australia") || str_eq(w, "jp") || str_eq(w, "us")
        || str_eq(w, "eu") || str_eq(w, "uk") || str_eq(w, "kor") || str_eq(w, "en") || str_eq(
        w,
        "ja",
    ) || str_eq(w, "fr") || str_eq(w, "de") || str_eq(w, "es") || str_eq(w, "it") || str_eq(
        w,
        "rev",
    ) || str_eq(w, "proto") || str_eq(w, "beta") || str_eq(w, "alpha") || str_eq(w, "demo")
        || str_eq(w, "sample") || str_eq(w, "unl") || str_eq(w, "v1") || str_eq(w, "v2") || str_eq(
        w,
        "v3",
    ) || str_eq(w, "v4")
}

/// The words whose lower-cased form is not a tag word, in order.
pub open spec fn untagged(ws: Seq<Seq<char>>) -> Seq<Seq<char>>
    decreases ws.len(),
{
    if ws.len() == 0 {
        seq![]
    } else {
        let prev = untagged(ws.drop_last());
        if is_tag_word(lowercase(ws.last())) {
            prev
        } else {
            prev.push(ws.last())
        }
    }
}

/// `s` without tag words, the remaining words joined by single spaces.
pub open spec fn without_tag_words(s: Seq<char>) -> Seq<char> {
    join(untagged(words(s)), " "@)
}

/// Drop region / version tag words.
pub fn strip_tag_words(s: &str) -> (r: String)
    ensures
        r@ == without_tag_words(s@),
        forall|k: int|
            0 <= k < untagged(words(s@)).len() && all_ascii(#[trigger] untagged(words(s@))[k])
                ==> !is_tag_word(ascii_lower(untagged(words(s@))[k])),
{
    let cs = chars_of(s);
    let ws = words_of(&cs);
    let mut kept: Vec<Vec<char>> = Vec::new();
    let mut i: usize = 0;
    while i < ws.len()
        invariant
            i <= ws.len(),
            views(kept@) == untagged(views(ws@).take(i as int)),
            forall|k: int|
                0 <= k < views(kept@).len() && all_ascii(#[trigger] views(kept@)[k])
                    ==> !is_tag_word(ascii_lower(views(kept@)[k])),
        decreases ws.len() - i,
    {
        proof {
            let t = views(ws@).take(i + 1);
            assert(t.drop_last() =~= views(ws@).take(i as int));
            assert(t.last() == ws@[i as int]@);
        }
        let w = string_of(&ws[i]);
        let lw = to_lowercase(w.as_str());
        if !tag_word(lw.as_str()) {
            let copy = ws[i].clone();
            assert(copy@ == ws@[i as int]@);
            let ghost before = views(kept@);
            proof {
                lemma_views_push(kept@, copy);
            }
            kept.push(copy);
            assert(views(kept@) == before.push(w@));
        }
        i += 1;
    }
    assert(views(ws@).take(ws.len() as int) =~= views(ws@));
    let sep: Vec<char> = vec![' '];
    proof {
        reveal_strlit(" ");
        assert(sep@ =~= " "@);
    }
    string_of(&join_vecs(&kept, &sep))
}

/// `s` without a leading "the ", "a " or "an " (matched case-insensitively).
pub open spec fn without_article(s: Seq<char>) -> Seq<char> {
    article_cut(s, lowercase(s))
}

/// `s` without the first characters that spell "the ", "a " or "an " in
/// `lower`, its lower-cased form.
pub open spec fn article_cut(s: Seq<char>, lower: Seq<char>) -> Seq<char> {
    if starts_with(lower, "the "@) && s.len() >= 4 {
        s.skip(4)
    } else if starts_with(lower, "a "@) && s.len() >= 2 {
        s.skip(2)
    } else if starts_with(lower, "an "@) && s.len() >= 3 {
        s.skip(3)
    } else {
        s
    }
}

/// Drop a leading article. Only ASCII letters lower-case to the letters of
/// an article, so the characters cut are the article's own.
pub fn strip_leading_articles(s: &str) -> (r: String)
    ensures
        r@ == without_article(s@),
        all_ascii(s@) ==> r@ == article_cut(s@, ascii_lower(s@)),
        r@.len() <= s@.len(),
        r@ == s@.skip(s@.len() - r@.len()),
{
    let lower = to_lowercase(s);
    let lc = chars_of(lower.as_str());
    let cs = chars_of(s);
    proof {
        reveal_strlit("the ");
        reveal_strlit("a ");
        reveal_strlit("an ");
    }
    assert(seq!['t', 'h', 'e', ' '] =~= "the "@);
    assert(seq!['a', ' '] =~= "a "@);
    assert(seq!['a', 'n', ' '] =~= "an "@);
    if has_prefix(&lc, &['t', 'h', 'e', ' ']) && cs.len() >= 4 {
        let rest = slice_to_vec(&cs, 4, cs.len());
        assert(rest@ =~= s@.skip(4));
        return string_of(&rest);
    }
    if has_prefix(&lc, &['a', ' ']) && cs.len() >= 2 {
        let rest = slice_to_vec(&cs, 2, cs.len());
        assert(rest@ =~= s@.skip(2));
        return string_of(&rest);
    }
    if has_prefix(&lc, &['a', 'n', ' ']) && cs.len() >= 3 {
        let rest = slice_to_vec(&cs, 3, cs.len());
        assert(rest@ =~= s@.skip(3));
        return string_of(&rest);
    }
    assert(cs@.skip(0) =~= cs@);
    string_of(&cs)
}

/// The region and version words that tag stripping drops: usa, japan,
/// europe, world, asia, korea, australia, jp, us, eu, uk, kor, en, ja, fr,
/// de, es, it, rev, proto, beta, alpha, demo, sample, unl, v1, v2, v3, v4.
pub open spec fn tag_word_list() -> Set<Seq<char>> {
    set![
        "usa"@, "japan"@, "europe"@, "world"@, "asia"@, "korea"@, "australia"@,
        "jp"@, "us"@, "eu"@, "uk"@, "kor"@,
        "en"@, "ja"@, "fr"@, "de"@, "es"@, "it"@,
        "rev"@, "proto"@, "beta"@, "alpha"@, "demo"@, "sample"@, "unl"@,
        "v1"@, "v2"@, "v3"@, "v4"@,
    ]
}

proof fn lemma_not_listed(w: Seq<char>)
    requires
        !is_tag_word(w),
    ensures
        !tag_word_list().contains(w),
{
}

proof fn lemma_untagged_kept(ws: Seq<Seq<char>>)
    requires
        solid_words(ws),
    ensures
        solid_words(untagged(ws)),
        forall|k: int|
            0 <= k < untagged(ws).len() ==> !is_tag_word(lowercase(#[trigger] untagged(ws)[k])),
    decreases ws.len(),
{
    if ws.len() > 0 {
        let init = ws.drop_last();
        assert forall|k: int| 0 <= k < init.len() implies (#[trigger] init[k]).len() > 0 by {
            assert(init[k] == ws[k]);
        }
        assert forall|k: int, j: int| 0 <= k < init.len() && 0 <= j < init[k].len() implies !is_ws(
            #[trigger] init[k][j],
        ) by {
            assert(init[k] == ws[k]);
        }
        lemma_untagged_kept(init);
        let u = untagged(ws);
        let p = untagged(init);
        let last = ws.last();
        assert(last == ws[ws.len() - 1]);
        assert forall|k: int| 0 <= k < u.len() implies (#[trigger] u[k]).len() > 0 && !is_tag_word(
            lowercase(u[k]),
        ) by {
            if k < p.len() {
                assert(u[k] == p[k]);
            } else {
                assert(u[k] == last);
            }
        }
        assert forall|k: int, j: int| 0 <= k < u.len() && 0 <= j < u[k].len() implies !is_ws(
            #[trigger] u[k][j],
        ) by {
            if k < p.len() {
                assert(u[k] == p[k]);
            } else {
                assert(u[k] == last);
            }
        }
    }
}

/// Tag stripping keeps a word only when its lower-cased form is none of
/// the region and version words: no word of the stripped text lower-cases
/// to usa, japan, europe, world, ... v4.
pub proof fn law_tag_words_are_dropped(s: Seq<char>)
    ensures
        forall|k: int|
            0 <= k < words(without_tag_words(s)).len() ==> !tag_word_list().contains(
                lowercase(#[trigger] words(without_tag_words(s))[k]),
            ),
{
    let u = untagged(words(s));
    lemma_words_solid(s);
    lemma_untagged_kept(words(s));
    lemma_words_join(u);
    assert forall|k: int| 0 <= k < words(without_tag_words(s)).len() implies !tag_word_list().contains(
        lowercase(#[trigger] words(without_tag_words(s))[k]),
    ) by {
        assert(words(without_tag_words(s))[k] == u[k]);
        lemma_not_listed(lowercase(u[k]));
    }
}

/// Cutting a leading article from lower-case text drops whole words: the
/// words left are a tail of the words before.
proof fn lemma_article_cut_words(t: Seq<char>) -> (d: int)
    ensures
        0 <= d <= words(t).len(),
        words(article_cut(t, t)) == words(t).skip(d),
{
    reveal_strlit("the ");
    reveal_strlit("a ");
    reveal_strlit("an ");
    let k: int = if starts_with(t, "the "@) && t.len() >= 4 {
        4
    } else if starts_with(t, "a "@) && t.len() >= 2 {
        2
    } else if starts_with(t, "an "@) && t.len() >= 3 {
        3
    } else {
        0
    };
    if k == 0 {
        assert(words(t).skip(0) =~= words(t));
        0
    } else {
        assert(t.take(k)[k - 1] == t[k - 1]);
        assert(t[k - 1] == ' ');
        assert(t.take(k) + t.skip(k) =~= t);
        lemma_words_concat(t.take(k), t.skip(k));
        let d = words(t.take(k)).len() as int;
        assert(words(t).skip(d) =~= words(t.skip(k)));
        d
    }
}

// ---------------------------------------------------------------------
// Whole-title normalization
// ---------------------------------------------------------------------

/// The normalized, matching form of a title or file name.
pub open spec fn normalized(s: Seq<char>) -> Seq<char> {
    trim(
        without_article(
            without_tag_words(
                collapsed(kept_chars(lowercase(unbracketed(without_short_extension(s))))),
            ),
        ),
    )
}

/// A small ASCII letter, an ASCII digit or whitespace.
pub open spec fn lower_alnum_or_ws_char(c: char) -> bool {
    (is_ascii_alnum(c) && !is_ascii_upper(c)) || is_ws(c)
}

pub open spec fn alnum_or_ws(s: Seq<char>) -> bool {
    forall|i: int| 0 <= i < s.len() ==> lower_alnum_or_ws_char(#[trigger] s[i])
}

pub proof fn lemma_kept_chars_class(s: Seq<char>)
    requires
        no_ascii_upper(s),
    ensures
        alnum_or_ws(kept_chars(s)),
    decreases s.len(),
{
    if s.len() > 0 {
        assert(no_ascii_upper(s.drop_last())) by {
            assert forall|i: int| 0 <= i < s.drop_last().len() implies !is_ascii_upper(#[trigger] s.drop_last()[i]) by {
                assert(s.drop_last()[i] == s[i]);
            }
        }
        lemma_kept_chars_class(s.drop_last());
        assert(!is_ascii_upper(s[s.len() - 1]));
    }
}

pub proof fn lemma_spaced_plain(s: Seq<char>)
    requires
        alnum_or_ws(s),
    ensures
        plain_text(spaced(s)),
    decreases s.len(),
{
    if s.len() > 0 {
        assert(alnum_or_ws(s.drop_last())) by {
            assert forall|i: int| 0 <= i < s.drop_last().len() implies lower_alnum_or_ws_char(
                #[trigger] s.drop_last()[i],
            ) by {
                assert(s.drop_last()[i] == s[i]);
            }
        }
        lemma_spaced_plain(s.drop_last());
        assert(lower_alnum_or_ws_char(s[s.len() - 1]));
    }
}

pub proof fn lemma_trim_plain(s: Seq<char>)
    requires
        plain_text(s),
    ensures
        plain_text(trim_start(s)),
        plain_text(trim_end(s)),
        plain_text(trim(s)),
    decreases s.len(),
{
    if s.len() > 0 {
        let a = s.drop_first();
        let b = s.drop_last();
        assert(plain_text(a)) by {
            assert forall|i: int| 0 <= i < a.len() implies plain_char(#[trigger] a[i]) by {
                assert(a[i] == s[i + 1]);
            }
        }
        assert(plain_text(b)) by {
            assert forall|i: int| 0 <= i < b.len() implies plain_char(#[trigger] b[i]) by {
                assert(b[i] == s[i]);
            }
        }
        lemma_trim_plain(a);
        lemma_trim_plain(b);
        lemma_trim_plain_end(trim_start(s));
    }
}

pub proof fn lemma_trim_plain_end(s: Seq<char>)
    requires
        plain_text(s),
    ensures
        plain_text(trim_end(s)),
    decreases s.len(),
{
    if s.len() > 0 {
        let b = s.drop_last();
        assert(plain_text(b)) by {
            assert forall|i: int| 0 <= i < b.len() implies plain_char(#[trigger] b[i]) by {
                assert(b[i] == s[i]);
            }
        }
        lemma_trim_plain_end(b);
    }
}

pub proof fn lemma_untagged_plain(ws: Seq<Seq<char>>)
    requires
        forall|k: int| 0 <= k < ws.len() ==> plain_text(#[trigger] ws[k]),
    ensures
        forall|k: int| 0 <= k < untagged(ws).len() ==> plain_text(#[trigger] untagged(ws)[k]),
    decreases ws.len(),
{
    if ws.len() > 0 {
        let init = ws.drop_last();
        assert forall|k: int| 0 <= k < init.len() implies plain_text(#[trigger] init[k]) by {
            assert(init[k] == ws[k]);
        }
        lemma_untagged_plain(init);
        assert(plain_text(ws[ws.len() - 1]));
        let u = untagged(ws);
        let p = untagged(init);
        assert forall|k: int| 0 <= k < u.len() implies plain_text(#[trigger] u[k]) by {
            if k < p.len() {
                assert(u[k] == p[k]);
            } else {
                assert(u[k] == ws.last());
            }
        }
    }
}

/// Normalize a title for matching: strip a short extension and bracketed
/// tags, lower-case, turn separators into spaces, keep only ASCII letters,
/// digits and whitespace, collapse whitespace, drop tag words and a leading
/// article. The result holds small ASCII letters, digits and spaces only.
pub fn normalize_title(s: &str) -> (r: String)
    ensures
        r@ == normalized(s@),
        plain_text(r@),
        forall|k: int| 0 <= k < words(r@).len() ==> !tag_word_list().contains(#[trigger] words(r@)[k]),
{
    let cs = chars_of(s);
    proof {
        lemma_last_index_of_bound(cs@, '.');
    }
    let stem_end = match rfind_char(&cs, '.') {
        Some(i) => {
            if utf8_len_at_most(&cs, i + 1, 5) {
                i
            } else {
                cs.len()
            }
        },
        None => cs.len(),
    };
    let stem = slice_to_vec(&cs, 0, stem_end);
    assert(stem@ =~= without_short_extension(s@));
    let unbr = string_of(&strip_brackets_chars(&stem));
    let lower = to_lowercase(unbr.as_str());
    let kept = keep_chars(&chars_of(lower.as_str()));
    let coll = collapse_chars(&kept);
    proof {
        lemma_kept_chars_class(lowercase(unbr@));
        lemma_spaced_plain(kept@);
        lemma_trim_plain(spaced(kept@));
    }
    let coll_s = string_of(&coll);
    let untagged_s = strip_tag_words(coll_s.as_str());
    proof {
        lemma_words_of_plain_text(coll@);
        lemma_untagged_plain(words(coll@));
        lemma_join_plain_text(untagged(words(coll@)));
        lemma_plain_text_ascii(untagged_s@);
    }
    let no_article = strip_leading_articles(untagged_s.as_str());
    proof {
        let u = untagged_s@;
        let w = without_article(u);
        assert(plain_text(w)) by {
            assert forall|i: int| 0 <= i < w.len() implies plain_char(#[trigger] w[i]) by {
                let k = u.len() - w.len();
                assert(w[i] == u[i + k]);
            }
        }
        lemma_trim_plain(w);
        // The words left are a tail of the untagged words, none a tag word.
        let t = untagged_s@;
        let u = untagged(words(coll@));
        lemma_words_solid(coll@);
        lemma_untagged_kept(words(coll@));
        lemma_words_join(u);
        assert(no_ascii_upper(t)) by {
            assert forall|i: int| 0 <= i < t.len() implies !is_ascii_upper(#[trigger] t[i]) by {
                assert(plain_char(t[i]));
            }
        }
        lemma_ascii_lower_keeps(t);
        let d = lemma_article_cut_words(t);
        lemma_words_trim(w);
        assert forall|k: int| 0 <= k < words(trim(w)).len() implies !tag_word_list().contains(
            #[trigger] words(trim(w))[k],
        ) by {
            let x = u[k + d];
            assert(words(trim(w))[k] == x);
            assert(plain_text(x)) by {
                assert(plain_text(u[k + d]));
            }
            lemma_plain_text_ascii(x);
            assert(no_ascii_upper(x)) by {
                assert forall|i: int| 0 <= i < x.len() implies !is_ascii_upper(#[trigger] x[i]) by {
                    assert(plain_char(x[i]));
                }
            }
            lemma_ascii_lower_keeps(x);
            assert(!is_tag_word(ascii_lower(u[k + d])));
            lemma_not_listed(x);
        }
    }
    string_of(&trim_vec(&chars_of(no_article.as_str())))
}

// ---------------------------------------------------------------------
// Region tags
// ---------------------------------------------------------------------

/// The canonical region named by the first well-known tag found in the
/// lower-cased file name.
pub open spec fn region_in(lower: Seq<char>) -> Option<Seq<char>> {
    if contains(lower, "(usa)"@) {
        Some("USA"@)
    } else if contains(lower, "(u)"@) {
        Some("USA"@)
    } else if contains(lower, "(japan)"@) {
        Some("Japan"@)
    } else if contains(lower, "(j)"@) {
        Some("Japan"@)
    } else if contains(lower, "(europe)"@) {
        Some("Europe"@)
    } else if contains(lower, "(e)"@) {
        Some("Europe"@)
    } else if contains(lower, "(world)"@) {
        Some("World"@)
    } else if contains(lower, "(w)"@) {
        Some("World"@)
    } else if contains(lower, "[u]"@) {
        Some("USA"@)
    } else if contains(lower, "[j]"@) {
        Some("Japan"@)
    } else if contains(lower, "[e]"@) {
        Some("Europe"@)
    } else {
        None
    }
}

/// `Option<&str>` by its characters.
pub open spec fn opt_chars(o: Option<&'static str>) -> Option<Seq<char>> {
    match o {
        Some(s) => Some(s@),
        None => None,
    }
}

fn has(hay: &[char], needle: &str) -> (r: bool)
    ensures
        r == contains(hay@, needle@),
{
    contains_seq(hay, &chars_of(needle))
}

/// `s` without a final `.ext` of at most five bytes.
pub fn short_ext_stem(cs: &[char]) -> (r: Vec<char>)
    ensures
        r@ == without_short_extension(cs@),
{
    proof {
        lemma_last_index_of_bound(cs@, '.');
    }
    let stem_end = match rfind_char(cs, '.') {
        Some(i) => {
            assert(i < cs.len());
            if utf8_len_at_most(cs, i + 1, 5) {
                i
            } else {
                cs.len()
            }
        },
        None => cs.len(),
    };
    let stem = slice_to_vec(cs, 0, stem_end);
    assert(stem@ =~= without_short_extension(cs@));
    stem
}

/// Pull a canonical region name from the original (non-normalized) file
/// name, from parenthesized or bracketed region tags only.
pub fn extract_region(s: &str) -> (r: Option<&'static str>)
    ensures
        opt_chars(r) == region_in(lowercase(s@)),
{
    let lower = to_lowercase(s);
    let l = chars_of(lower.as_str());
    if has(&l, "(usa)") {
        Some("USA")
    } else if has(&l, "(u)") {
        Some("USA")
    } else if has(&l, "(japan)") {
        Some("Japan")
    } else if has(&l, "(j)") {
        Some("Japan")
    } else if has(&l, "(europe)") {
        Some("Europe")
    } else if has(&l, "(e)") {
        Some("Europe")
    } else if has(&l, "(world)") {
        Some("World")
    } else if has(&l, "(w)") {
        Some("World")
    } else if has(&l, "[u]") {
        Some("USA")
    } else if has(&l, "[j]") {
        Some("Japan")
    } else if has(&l, "[e]") {
        Some("Europe")
    } else {
        None
    }
}

/// Parsed upstream entry: file name, its normalized form and its region.
#[derive(Debug, Clone)]
pub struct ParsedUpstream {
    pub filename: String,
    pub normalized: String,
    pub region: Option<&'static str>,
}

pub fn parse_upstream(filename: String) -> (r: ParsedUpstream)
    ensures
        r.filename@ == filename@,
        r.normalized@ == normalized(filename@),
        opt_chars(r.region) == region_in(lowercase(filename@)),
{
    let normalized = normalize_title(filename.as_str());
    let region = extract_region(filename.as_str());
    ParsedUpstream { filename, normalized, region }
}


// ---------------------------------------------------------------------
// Match strength
// ---------------------------------------------------------------------

/// How a normalized ROM title relates to a normalized upstream title, from
/// nothing to compare to an exact match; a fuzzy pair is scored by string
/// similarity.
#[derive(Clone, Copy, Debug, PartialEq, Eq, Structural)]
pub enum MatchTier {
    /// One of the titles is empty: score 0.
    Empty,
    /// The titles are equal: score 1.
    Exact,
    /// One title starts with the other: score 0.95.
    Prefix,
    /// One title, at least six bytes long, occurs inside the other: 0.88.
    Substring,
    /// None of these: scored by Jaro-Winkler similarity.
    Fuzzy,
}

/// The tier of a pair of normalized titles, the strongest that applies.
pub open spec fn match_tier_of(rom: Seq<char>, up: Seq<char>) -> MatchTier {
    if rom.len() == 0 || up.len() == 0 {
        MatchTier::Empty
    } else if rom == up {
        MatchTier::Exact
    } else if starts_with(up, rom) || starts_with(rom, up) {
        MatchTier::Prefix
    } else if (vstd::utf8::encode_utf8(rom).len() >= 6 && contains(up, rom)) || (
    vstd::utf8::encode_utf8(up).len() >= 6 && contains(rom, up)) {
        MatchTier::Substring
    } else {
        MatchTier::Fuzzy
    }
}

/// Which rule scores a normalized ROM title against a normalized upstream
/// title.
pub fn match_tier(rom: &str, upstream: &str) -> (r: MatchTier)
    ensures
        r == match_tier_of(rom@, upstream@),
{
    if rom.is_empty() || upstream.is_empty() {
        return MatchTier::Empty;
    }
    if str_eq(rom, upstream) {
        return MatchTier::Exact;
    }
    let rc = chars_of(rom);
    let uc = chars_of(upstream);
    if has_prefix(&uc, &rc) || has_prefix(&rc, &uc) {
        return MatchTier::Prefix;
    }
    if (rom.as_bytes().len() >= 6 && contains_seq(&uc, &rc)) || (upstream.as_bytes().len() >= 6 && contains_seq(&rc, &uc)) {
        return MatchTier::Substring;
    }
    MatchTier::Fuzzy
}

/// The tier does not depend on which title is the ROM's and which the
/// catalog's: a prefix or a long enough substring on either side counts.
pub proof fn law_match_tier_symmetric(a: Seq<char>, b: Seq<char>)
    ensures
        match_tier_of(a, b) == match_tier_of(b, a),
{
}

/// A title of at least six bytes that occurs inside the other is never
/// left to the fuzzy score, whichever of the two it is.
pub proof fn law_long_containment_is_not_fuzzy(a: Seq<char>, b: Seq<char>)
    requires
        vstd::utf8::encode_utf8(b).len() >= 6,
        contains(a, b),
    ensures
        match_tier_of(a, b) != MatchTier::Fuzzy && match_tier_of(a, b) != MatchTier::Empty,
        match_tier_of(b, a) != MatchTier::Fuzzy && match_tier_of(b, a) != MatchTier::Empty,
{
    if b.len() == 0 {
        assert(vstd::utf8::encode_utf8(b) =~= Seq::<u8>::empty());
    }
    let i = choose|i: int| occurs_at(a, b, i);
    assert(a.len() >= b.len());
}

} // verus!
