use oa_shell::normalize::{match_tier, MatchTier};
use oa_shell::normalize::{collapse_whitespace, extract_region, normalize_title, parse_upstream, strip_brackets, strip_leading_articles, strip_tag_words};
#[test]
fn normalize_strips_extension() {
    assert_eq!(normalize_title("Bonk.pce"), "bonk");
    assert_eq!(normalize_title("Bonk.png"), "bonk");
}

#[test]
fn normalize_strips_parens() {
    assert_eq!(normalize_title("Bonk's Adventure (USA).pce"), "bonks adventure");
    assert_eq!(
        normalize_title("Bonk 3 - Bonk's Big Adventure (USA).png"),
        "bonk 3 bonks big adventure",
    );
}

#[test]
fn normalize_handles_underscores_and_tags() {
    assert_eq!(normalize_title("Bonk_3_USA.pce"), "bonk 3");
    assert_eq!(normalize_title("R-Type_USA.pce"), "r type");
}

#[test]
fn normalize_strips_leading_article() {
    assert_eq!(normalize_title("The_Legend_of_Hero_Tonma.pce"), "legend of hero tonma");
}

#[test]
fn normalize_collapses_whitespace() {
    assert_eq!(normalize_title("Foo    Bar"), "foo bar");
}

#[test]
fn extract_region_recognizes_known_tags() {
    assert_eq!(extract_region("Bonk 3 (USA).png"), Some("USA"));
    assert_eq!(extract_region("Akumajou Dracula X (Japan).png"), Some("Japan"));
    assert_eq!(extract_region("R-Type (Europe).png"), Some("Europe"));
    assert_eq!(extract_region("Bonk's Adventure (W).png"), Some("World"));
    assert_eq!(extract_region("Boring Title.png"), None);
}

#[test]
fn parse_upstream_full_path() {
    let p = parse_upstream("Bonk's Adventure (USA).png".to_string());
    assert_eq!(p.normalized, "bonks adventure");
    assert_eq!(p.region, Some("USA"));
}

#[test]
fn strip_brackets_keeps_unmatched_closers() {
    assert_eq!(strip_brackets("Game (USA) [!] {x} end"), "Game    end");
    assert_eq!(strip_brackets("a) b"), "a) b");
    assert_eq!(strip_brackets("((nested) still) out"), " out");
}

#[test]
fn collapse_whitespace_trims_and_squeezes() {
    assert_eq!(collapse_whitespace("  a \t\n b  "), "a b");
    assert_eq!(collapse_whitespace(""), "");
}

#[test]
fn strip_tag_words_is_case_insensitive() {
    assert_eq!(strip_tag_words("Bonk USA rev 3"), "Bonk 3");
    assert_eq!(strip_tag_words("  japan  "), "");
}

#[test]
fn strip_leading_articles_only_at_start() {
    assert_eq!(strip_leading_articles("The Game"), "Game");
    assert_eq!(strip_leading_articles("an apple"), "apple");
    assert_eq!(strip_leading_articles("a b"), "b");
    assert_eq!(strip_leading_articles("theme park"), "theme park");
}

#[test]
fn normalize_keeps_long_extensions_and_drops_symbols() {
    assert_eq!(normalize_title("Title.longext"), "title longext");
    assert_eq!(normalize_title("Mega Man & Bass!"), "mega man bass");
    assert_eq!(normalize_title("(Proto)"), "");
}

#[test]
fn extract_region_bracket_forms() {
    assert_eq!(extract_region("Game [E].png"), Some("Europe"));
    assert_eq!(extract_region("GAME (J)"), Some("Japan"));
    assert_eq!(extract_region("Usage Guide"), None);
}

/// The score the shell gives a pair: the library's tier, Jaro-Winkler for
/// fuzzy pairs.
fn match_score(rom: &str, upstream: &str) -> f64 {
    match match_tier(rom, upstream) {
        MatchTier::Empty => 0.0,
        MatchTier::Exact => 1.0,
        MatchTier::Prefix => 0.95,
        MatchTier::Substring => 0.88,
        MatchTier::Fuzzy => strsim::jaro_winkler(rom, upstream),
    }
}

#[test]
fn match_score_exact() {
    assert_eq!(match_score("bonks adventure", "bonks adventure"), 1.0);
}

#[test]
fn match_score_prefix_relationship() {
    assert!(match_score("bonk 3", "bonk 3 bonks big adventure") >= 0.95);
}

#[test]
fn match_score_substring() {
    let s = match_score("bonks big adventure", "bonk 3 bonks big adventure");
    assert!(s >= 0.88, "expected substring score, got {}", s);
}

#[test]
fn match_score_fuzzy() {
    let s = match_score("rtype", "r type");
    assert!(s > 0.8, "expected jaro_winkler ~0.9, got {}", s);
}

#[test]
fn match_tiers_in_order_of_strength() {
    assert_eq!(match_tier("", "x"), MatchTier::Empty);
    assert_eq!(match_tier("x", ""), MatchTier::Empty);
    assert_eq!(match_tier("bonk", "bonk"), MatchTier::Exact);
    assert_eq!(match_tier("bonk 3 bonks big adventure", "bonk 3"), MatchTier::Prefix);
    assert_eq!(match_tier("bonks big adventure", "bonk 3 bonks big adventure"), MatchTier::Substring);
    // Five bytes are too short to count as a substring match.
    assert_eq!(match_tier("bonks", "super bonks"), MatchTier::Fuzzy);
    assert_eq!(match_tier("rtype", "r type"), MatchTier::Fuzzy);
}

#[test]
fn normalize_lower_cases_titles_with_non_ascii_letters() {
    assert_eq!(normalize_title("\u{c5}ngstr\u{f6}m SUPER Mario (USA).sfc"), "ngstrm super mario");
}
