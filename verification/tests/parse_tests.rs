use formsyn::{parse, ParseError};

fn cs(s: &str) -> Vec<char> {
    s.chars().collect()
}

fn parse_ok(s: &str) -> formsyn::FormMap {
    parse(&cs(s)).expect("input should parse")
}

fn lookup(m: &formsyn::FormMap, k: &str) -> Option<String> {
    m.get(&cs(k)).map(|v| v.iter().collect())
}

#[test]
fn empty_input_is_invalid_value_format() {
    assert_eq!(parse(&cs("")).unwrap_err(), ParseError::InvalidValueFormat);
}

#[test]
fn colon_without_key_is_no_key() {
    assert_eq!(parse(&cs(":value")).unwrap_err(), ParseError::NoKey);
}

#[test]
fn single_pair() {
    let m = parse_ok("key:val");
    assert_eq!(m.len(), 1);
    assert_eq!(lookup(&m, "key").as_deref(), Some("val"));
}

#[test]
fn multiple_unique_pairs_exact_contents() {
    let m = parse_ok("a:1 b:2 c:3");
    assert_eq!(m.len(), 3);
    assert_eq!(lookup(&m, "a").as_deref(), Some("1"));
    assert_eq!(lookup(&m, "b").as_deref(), Some("2"));
    assert_eq!(lookup(&m, "c").as_deref(), Some("3"));
    assert_eq!(lookup(&m, "d"), None);
}

#[test]
fn duplicate_key_last_value_wins() {
    let m = parse_ok("k:v1 k:v2");
    assert_eq!(m.len(), 1);
    assert_eq!(lookup(&m, "k").as_deref(), Some("v2"));
}

#[test]
fn duplicate_key_three_times() {
    let m = parse_ok("k:1 k:2 k:3");
    assert_eq!(m.len(), 1);
    assert_eq!(lookup(&m, "k").as_deref(), Some("3"));
}

#[test]
fn escaped_quotes_inside_quoted_tokens_kept_literally() {
    // "a\"b":"c\"d" : the escape suppresses the quote's special meaning, so
    // the inner quotes land in the buffers; the outer quotes are kept too.
    let m = parse_ok("\"a\\\"b\":\"c\\\"d\"");
    assert_eq!(m.len(), 1);
    assert_eq!(lookup(&m, "\"a\"b\"").as_deref(), Some("\"c\"d\""));
}

#[test]
fn mixed_unquoted_quoted_and_escaped_pairs() {
    // key1:pbdr "key2":"LDVR 2.0" \:NEWKEY3:"Test\\\"Aphost"
    let m = parse_ok("key1:pbdr \"key2\":\"LDVR 2.0\" \\:NEWKEY3:\"Test\\\\\\\"Aphost\"");
    assert_eq!(m.len(), 3);
    assert_eq!(lookup(&m, "key1").as_deref(), Some("pbdr"));
    assert_eq!(lookup(&m, "\"key2\"").as_deref(), Some("\"LDVR 2.0\""));
    assert_eq!(lookup(&m, ":NEWKEY3").as_deref(), Some("\"Test\\\"Aphost\""));
}

#[test]
fn escaped_backslash_lets_quote_close_the_value() {
    // As above but with only two backslashes: they collapse to one literal
    // backslash, so the quote after them closes the quoted value, and the
    // final stray quote after Aphost is an illegal key character.
    let r = parse(&cs("key1:pbdr \"key2\":\"LDVR 2.0\" \\:NEWKEY3:\"Test\\\\\"Aphost\""));
    assert_eq!(r.unwrap_err(), ParseError::InvalidKeyFormat);
}

#[test]
fn dangling_key_is_invalid_value_format() {
    assert_eq!(parse(&cs("\"onlykey\"")).unwrap_err(), ParseError::InvalidValueFormat);
}

#[test]
fn quote_in_unquoted_key_is_invalid() {
    assert_eq!(parse(&cs("key1\":val\"")).unwrap_err(), ParseError::InvalidKeyFormat);
}

#[test]
fn trailing_empty_value_is_rejected() {
    // A final unquoted key with an explicitly empty value fails at
    // end-of-input.
    assert_eq!(parse(&cs("key1:")).unwrap_err(), ParseError::InvalidValueFormat);
}

#[test]
fn escaped_space_joins_unquoted_key() {
    let m = parse_ok("a\\ b:c");
    assert_eq!(m.len(), 1);
    assert_eq!(lookup(&m, "a b").as_deref(), Some("c"));
}

#[test]
fn spaces_around_colon_after_key() {
    let m = parse_ok("key : val");
    assert_eq!(m.len(), 1);
    assert_eq!(lookup(&m, "key").as_deref(), Some("val"));
}

#[test]
fn stray_character_after_completed_key() {
    assert_eq!(parse(&cs("key x:v")).unwrap_err(), ParseError::InvalidKeyFormat);
}

#[test]
fn quoted_key_keeps_embedded_space() {
    let m = parse_ok("\"k 1\":v");
    assert_eq!(m.len(), 1);
    assert_eq!(lookup(&m, "\"k 1\"").as_deref(), Some("v"));
}

#[test]
fn closing_quote_of_value_completes_the_pair() {
    let m = parse_ok("a:\"b c\" d:e");
    assert_eq!(m.len(), 2);
    assert_eq!(lookup(&m, "a").as_deref(), Some("\"b c\""));
    assert_eq!(lookup(&m, "d").as_deref(), Some("e"));
}

#[test]
fn colon_in_unquoted_value_is_invalid() {
    assert_eq!(parse(&cs("a:b:c")).unwrap_err(), ParseError::InvalidValueFormat);
}

#[test]
fn quote_in_unquoted_value_is_invalid() {
    assert_eq!(parse(&cs("a:b\"c")).unwrap_err(), ParseError::InvalidValueFormat);
}

#[test]
fn colon_right_after_colon_is_invalid() {
    assert_eq!(parse(&cs("a::")).unwrap_err(), ParseError::InvalidValueFormat);
}

#[test]
fn runs_of_spaces_between_pairs_are_skipped() {
    let m = parse_ok("a:b   c:d");
    assert_eq!(m.len(), 2);
    assert_eq!(lookup(&m, "a").as_deref(), Some("b"));
    assert_eq!(lookup(&m, "c").as_deref(), Some("d"));
}

#[test]
fn leading_spaces_are_skipped() {
    let m = parse_ok("   a:b");
    assert_eq!(m.len(), 1);
    assert_eq!(lookup(&m, "a").as_deref(), Some("b"));
}

#[test]
fn unterminated_quoted_value_is_flushed_at_end_of_input() {
    // The end-of-input rule only asks that both buffers be non-empty, so an
    // unterminated quoted value is accepted with its opening quote.
    let m = parse_ok("a:\"bc");
    assert_eq!(m.len(), 1);
    assert_eq!(lookup(&m, "a").as_deref(), Some("\"bc"));
}

#[test]
fn unicode_characters_are_ordinary() {
    let m = parse_ok("cl\u{e9}:v\u{e4}lue\u{1f600}");
    assert_eq!(m.len(), 1);
    assert_eq!(lookup(&m, "cl\u{e9}").as_deref(), Some("v\u{e4}lue\u{1f600}"));
}

#[test]
fn one_trailing_space_after_unquoted_value_is_accepted() {
    // The space only moves the machine back to the key-preparation state;
    // the pair is still in the buffers at end of input.
    let m = parse_ok("a:b ");
    assert_eq!(m.len(), 1);
    assert_eq!(lookup(&m, "a").as_deref(), Some("b"));
}

#[test]
fn two_trailing_spaces_are_rejected() {
    // The second space flushes the pair mid-stream, so end of input finds
    // empty buffers and rejects.
    assert_eq!(parse(&cs("a:b  ")).unwrap_err(), ParseError::InvalidValueFormat);
}

#[test]
fn trailing_space_after_quoted_value_is_rejected() {
    // Closing the quoted value already returned to the key-preparation
    // state, so the space flushes the pair and empties the buffers.
    assert_eq!(parse(&cs("a:\"b\" ")).unwrap_err(), ParseError::InvalidValueFormat);
}

#[test]
fn contains_key_reports_presence() {
    let m = parse_ok("a:1 b:2");
    assert!(m.contains_key(&cs("a")));
    assert!(m.contains_key(&cs("b")));
    assert!(!m.contains_key(&cs("c")));
}
