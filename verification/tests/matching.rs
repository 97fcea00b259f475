use elisym_core::discovery::{
    matches_capability, matches_capability_in_text, matches_card, matches_query, to_d_tag,
    tokens_match,
};
use elisym_core::identity::CapabilityCard;
use elisym_core::text::{split_words, Breaks};

fn list(values: &[&str]) -> Vec<String> {
    values.iter().map(|value| value.to_string()).collect()
}

#[test]
fn test_d_tag_basic() {
    assert_eq!(to_d_tag("My Agent"), "my-agent");
}

#[test]
fn test_d_tag_multiple_spaces() {
    assert_eq!(to_d_tag("Stock  Price   Analyzer"), "stock-price-analyzer");
}

#[test]
fn test_d_tag_already_lowercase() {
    assert_eq!(to_d_tag("summarizer"), "summarizer");
}

#[test]
fn test_d_tag_leading_trailing_spaces() {
    assert_eq!(to_d_tag("  hello world  "), "hello-world");
}

#[test]
fn test_d_tag_empty() {
    assert_eq!(to_d_tag(""), "");
}

#[test]
fn d_tag_beyond_ascii() {
    assert_eq!(to_d_tag("\u{c9}COLE Stra\u{df}e"), "\u{e9}cole-stra\u{df}e");
    assert_eq!(to_d_tag("\u{130}x"), "i\u{307}x");
    assert_eq!(to_d_tag("a\tb\nc\u{3000}d"), "a-b-c-d");
}

#[test]
fn white_space_is_unicode_white_space() {
    let spaces = [
        '\u{9}', '\u{a}', '\u{b}', '\u{c}', '\u{d}', '\u{20}', '\u{85}', '\u{a0}', '\u{1680}',
        '\u{2000}', '\u{2001}', '\u{2002}', '\u{2003}', '\u{2004}', '\u{2005}', '\u{2006}',
        '\u{2007}', '\u{2008}', '\u{2009}', '\u{200a}', '\u{2028}', '\u{2029}', '\u{202f}',
        '\u{205f}', '\u{3000}',
    ];
    for code in 0..0x11_0000u32 {
        if let Some(c) = char::from_u32(code) {
            let words = split_words(&format!("x{}y", c), Breaks::Whitespace);
            assert_eq!(words.len() == 2, spaces.contains(&c), "{:x}", code);
        }
    }
}

#[test]
fn words_are_longest_runs() {
    assert_eq!(split_words("--a_b c-", Breaks::Separators), list(&["a", "b", "c"]));
    assert_eq!(split_words("", Breaks::Separators), list(&[]));
    assert_eq!(split_words("- -", Breaks::Separators), list(&[]));
    assert_eq!(
        split_words("caf\u{e9}, no.7!", Breaks::Separators),
        list(&["caf\u{e9},", "no.7!"])
    );
}

#[test]
fn tokens_count_characters_and_match_both_ways() {
    assert!(tokens_match("stock", "stocks"));
    assert!(tokens_match("stocks", "stock"));
    assert!(!tokens_match("sto", "stock"));
    assert!(tokens_match("sto", "sto"));
    // Three characters, six bytes: too short for a prefix.
    assert!(!tokens_match("\u{e9}\u{e9}\u{e9}", "\u{e9}\u{e9}\u{e9}\u{e9}"));
    assert!(tokens_match("\u{e9}\u{e9}\u{e9}\u{e9}", "\u{e9}\u{e9}\u{e9}\u{e9}x"));
}

#[test]
fn test_exact_match() {
    let tags = list(&["translation", "elisym"]);
    assert!(matches_capability("translation", &tags));
}

#[test]
fn test_no_match() {
    let tags = list(&["summarization"]);
    assert!(!matches_capability("translation", &tags));
}

#[test]
fn test_fuzzy_prefix_query_shorter() {
    // "stock" is a prefix of "stocks" (len >= 3)
    let tags = list(&["stocks"]);
    assert!(matches_capability("stock", &tags));
}

#[test]
fn test_fuzzy_prefix_tag_shorter() {
    // "summarization" starts with "summar" (tag token len >= 3)
    let tags = list(&["summar"]);
    assert!(matches_capability("summarization", &tags));
}

#[test]
fn test_compound_tag_token_split() {
    // "text-summarization" splits into ["text", "summarization"]
    // Both must match some tag token
    let tags = list(&["text", "summarization"]);
    assert!(matches_capability("text-summarization", &tags));
}

#[test]
fn test_case_insensitive() {
    let tags = list(&["translation"]);
    assert!(matches_capability("Translation", &tags));
}

#[test]
fn test_short_token_no_direct_prefix() {
    // "ai" (2 chars < 4) won't fuzzy-prefix-match "aim"
    let tags = list(&["aim"]);
    assert!(!matches_capability("ai", &tags));
}

#[test]
fn test_short_token_no_reverse_prefix() {
    // "cat" (3 chars < 4) in tags won't reverse-prefix-match "category" query
    let tags = list(&["cat"]);
    assert!(!matches_capability("category", &tags));
}

#[test]
fn test_direct_prefix_at_threshold() {
    // "summ" (4 chars >= 4) direct-prefix-matches "summarization"
    let tags = list(&["summarization"]);
    assert!(matches_capability("summ", &tags));
}

#[test]
fn test_reverse_prefix_at_threshold() {
    // "stock" (5 chars >= 4) in tags reverse-prefix-matches "stocks"
    let tags = list(&["stock"]);
    assert!(matches_capability("stocks", &tags));
}

#[test]
fn test_compound_all_tokens_must_match() {
    // "stock-analysis" requires both "stock" and "analysis"
    let tags = list(&["stocks"]);
    assert!(!matches_capability("stock-analysis", &tags));
}

#[test]
fn test_empty_tags_no_match() {
    let tags = list(&[]);
    assert!(!matches_capability("translation", &tags));
}

#[test]
fn query_without_tokens_matches_only_the_same_tag() {
    assert!(!matches_capability("", &list(&[])));
    assert!(!matches_capability("--", &list(&["x"])));
    assert!(matches_capability("--", &list(&["x", "--"])));
    assert!(!matches_capability_in_text("--", "x"));
    assert!(!matches_capability_in_text("--", "--"));
}

#[test]
fn text_is_split_like_a_tag() {
    assert!(matches_capability_in_text("c++", "c++ expert"));
    for (query, text) in [
        ("c++", "c++ expert"),
        ("stock-analysis", "Performs stock_market analysis"),
        ("stock", "(stock) prices"),
        ("a-b", "a-b"),
        ("translation", ""),
    ] {
        assert_eq!(
            matches_capability_in_text(query, text),
            matches_capability(query, &list(&[text])),
            "{} in {}",
            query,
            text
        );
    }
    assert!(!matches_capability_in_text("stock", "(stock) prices"));
}

#[test]
fn d_tag_of_a_d_tag_is_the_same() {
    for name in ["My  Agent", " A\tb-C ", "", "---", "x\u{85}Y"] {
        let tag = to_d_tag(name);
        assert!(!tag.chars().any(char::is_whitespace));
        assert_eq!(to_d_tag(&tag), tag);
    }
}

#[test]
fn test_capability_in_text_name_match() {
    assert!(matches_capability_in_text("stock", "Stock Price Analyzer"));
}

#[test]
fn test_capability_in_text_compound_match() {
    assert!(matches_capability_in_text("stock-analysis", "Performs stock market analysis"));
}

#[test]
fn test_capability_in_text_no_match() {
    assert!(!matches_capability_in_text("translation", "Stock Price Analyzer"));
}

#[test]
fn test_capability_in_text_prefix_match() {
    assert!(matches_capability_in_text("summar", "Text Summarization Service"));
}

#[test]
fn test_capability_in_text_short_token_no_direct_prefix() {
    // "ai" (2 chars < 4) won't fuzzy-prefix-match "aim"
    assert!(!matches_capability_in_text("ai", "aim helper"));
}

#[test]
fn test_capability_in_text_no_reverse_prefix_short() {
    // "cat" (3 chars < 4) in text won't reverse-prefix-match "category" query
    assert!(!matches_capability_in_text("category", "cat image generator"));
}

#[test]
fn test_capability_in_text_direct_prefix_at_threshold() {
    // "summ" (4 chars >= 4) direct-prefix-matches "summarization"
    assert!(matches_capability_in_text("summ", "summarization service"));
}

#[test]
fn test_capability_in_text_reverse_prefix_at_threshold() {
    // "stock" (5 chars >= 4) in text reverse-prefix-matches "stocks" query
    assert!(matches_capability_in_text("stocks", "stock price analyzer"));
}

#[test]
fn test_capability_in_text_empty_query() {
    assert!(!matches_capability_in_text("", "Some text"));
}

#[test]
fn test_query_matches_name() {
    let card = CapabilityCard::new("Stock Analyzer", "Analyzes things", vec![]);
    assert!(matches_query("stock", &card));
}

#[test]
fn test_query_matches_description() {
    let card = CapabilityCard::new("Agent", "Translates text between languages", vec![]);
    assert!(matches_query("translates", &card));
}

#[test]
fn test_query_matches_capability() {
    let card = CapabilityCard::new("Agent", "Does stuff", vec!["summarization".into()]);
    assert!(matches_query("summar", &card));
}

#[test]
fn test_query_no_match() {
    let card = CapabilityCard::new("Agent", "Does stuff", vec!["coding".into()]);
    assert!(!matches_query("translation", &card));
}

#[test]
fn query_ignores_case_and_may_be_empty() {
    let card = CapabilityCard::new("Agent", "Does stuff", vec![]);
    assert!(matches_query("ES STU", &card));
    assert!(matches_query("", &card));
}

#[test]
fn test_search_filter_text_fallback_name() {
    // Tags don't contain "stock", but card name does.
    let tags = list(&["elisym", "finance"]);
    let card = CapabilityCard::new(
        "Stock Price Analyzer",
        "Provides market data",
        vec!["finance".into()],
    );
    assert!(matches_card("stock", &tags, &card));
}

#[test]
fn test_search_filter_text_fallback_description() {
    // Tags don't match, but description does.
    let tags = list(&["elisym"]);
    let card =
        CapabilityCard::new("Market Agent", "Performs deep analysis of market trends", vec![]);
    assert!(matches_card("analysis", &tags, &card));
}

#[test]
fn test_search_filter_no_match_anywhere() {
    let tags = list(&["elisym", "finance"]);
    let card = CapabilityCard::new(
        "Stock Market Agent",
        "Performs deep analysis of market trends",
        vec!["finance".into()],
    );
    assert!(!matches_card("translation", &tags, &card));
}

#[test]
fn test_search_filter_tag_match_sufficient() {
    // Tag match alone is enough: text content is irrelevant.
    let tags = list(&["elisym", "stocks"]);
    let card = CapabilityCard::new("Unrelated Agent", "Does other things", vec![]);
    assert!(matches_card("stock", &tags, &card));
}
