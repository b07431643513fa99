use formsyn::{parse, serialize, FormMap};

fn chars(s: &str) -> Vec<char> {
    s.chars().collect()
}

fn text(v: &[char]) -> String {
    v.iter().collect()
}

#[test]
fn serialize_plain_pairs() {
    let mut m = FormMap::new();
    m.insert(chars("a"), chars("1"));
    m.insert(chars("b"), chars("2"));
    assert_eq!(text(&serialize(&m)), "a:1 b:2");
}

#[test]
fn serialize_escapes_special_characters() {
    let mut m = FormMap::new();
    m.insert(chars("a b"), chars("c:d"));
    m.insert(chars("q\"e"), chars("x\\y"));
    assert_eq!(text(&serialize(&m)), "a\\ b:c\\:d q\\\"e:x\\\\y");
}

#[test]
fn serialize_overwritten_key_appears_once() {
    let mut m = FormMap::new();
    m.insert(chars("k"), chars("v1"));
    m.insert(chars("k"), chars("v2"));
    assert_eq!(text(&serialize(&m)), "k:v2");
}

#[test]
fn round_trip_plain_mapping() {
    let m = parse(&chars("a:1 b:2 c:3")).unwrap();
    let s = serialize(&m);
    let m2 = parse(&s).unwrap();
    assert_eq!(m2.entries, m.entries);
}

#[test]
fn round_trip_quoted_and_escaped_mapping() {
    let m = parse(&chars("\"k 1\":\"v:1\" x:y \\ lead:tail\\\\")).unwrap();
    let s = serialize(&m);
    let m2 = parse(&s).unwrap();
    assert_eq!(m2.entries, m.entries);
}

#[test]
fn round_trip_mapping_with_quotes_in_tokens() {
    let m = parse(&chars("\"a\\\"b\":\"c\\\"d\"")).unwrap();
    let s = serialize(&m);
    let m2 = parse(&s).unwrap();
    assert_eq!(m2.entries, m.entries);
}
