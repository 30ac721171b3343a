use ic_snippets::key::{chars_of, chars_precede, SnippetKey};

fn precedes(a: &str, b: &str) -> bool {
    chars_precede(&chars_of(a), &chars_of(b))
}

#[test]
fn new_joins_with_separator() {
    let key = SnippetKey::new("a".to_string(), "initial".to_string());
    assert_eq!(key.value, "a_initial");
}

#[test]
fn new_keeps_empty_segments() {
    assert_eq!(SnippetKey::new(String::new(), String::new()).value, "_");
    assert_eq!(SnippetKey::new("x".to_string(), String::new()).value, "x_");
    assert_eq!(SnippetKey::new(String::new(), "p".to_string()).value, "_p");
}

#[test]
fn from_string_accepts_two_segments() {
    let key = SnippetKey::from_string("a_initial".to_string()).unwrap();
    assert_eq!(key.value, "a_initial");
    assert_eq!(key.snippet_id(), "a");
    assert_eq!(key.page_id(), "initial");
}

#[test]
fn from_string_accepts_empty_segments() {
    let key = SnippetKey::from_string("_".to_string()).unwrap();
    assert_eq!(key.snippet_id(), "");
    assert_eq!(key.page_id(), "");
}

#[test]
fn from_string_rejects_one_segment() {
    assert!(SnippetKey::from_string("initial".to_string()).is_err());
    assert!(SnippetKey::from_string(String::new()).is_err());
}

#[test]
fn from_string_rejects_three_segments() {
    assert!(SnippetKey::from_string("a_b_c".to_string()).is_err());
    assert!(SnippetKey::from_string("__".to_string()).is_err());
}

#[test]
fn decode_inverts_encode() {
    for (a, b) in [("a", "initial"), ("", "p"), ("snippet-1", ""), ("ü", "päge")] {
        let made = SnippetKey::new(a.to_string(), b.to_string());
        let read = SnippetKey::from_string(made.value.clone()).unwrap();
        assert_eq!(read.value, made.value);
        assert_eq!(read.snippet_id(), a);
        assert_eq!(read.page_id(), b);
    }
}

#[test]
fn separator_in_an_id_breaks_decoding() {
    let made = SnippetKey::new("a_b".to_string(), "p".to_string());
    assert!(SnippetKey::from_string(made.value).is_err());
}

#[test]
fn page_id_is_the_trailing_segment() {
    assert_eq!(SnippetKey { value: "a_b_c".to_string() }.page_id(), "c");
    assert_eq!(SnippetKey { value: "abc".to_string() }.page_id(), "abc");
    assert_eq!(SnippetKey { value: "abc_".to_string() }.page_id(), "");
    assert_eq!(SnippetKey { value: "é_ü".to_string() }.page_id(), "ü");
}

#[test]
fn snippet_id_is_what_stands_before_the_last_separator() {
    assert_eq!(SnippetKey { value: "a_b_c".to_string() }.snippet_id(), "a_b");
    assert_eq!(SnippetKey { value: "abc".to_string() }.snippet_id(), "");
    assert_eq!(SnippetKey { value: "_abc".to_string() }.snippet_id(), "");
}

#[test]
fn chars_of_lists_code_points() {
    assert_eq!(chars_of("aé_"), vec!['a', 'é', '_']);
    assert_eq!(chars_of(""), Vec::<char>::new());
}

#[test]
fn order_is_lexicographic() {
    assert!(precedes("a", "b"));
    assert!(!precedes("b", "a"));
    assert!(precedes("a", "ab"));
    assert!(!precedes("ab", "a"));
    assert!(precedes("", "a"));
    assert!(!precedes("", ""));
    assert!(!precedes("same", "same"));
    assert!(precedes("Z", "a"));
    assert!(precedes("a_p", "b_p"));
}

#[test]
fn order_is_the_order_of_the_bytes() {
    let words = ["", "a", "ab", "b", "_", "z", "é", "e", "\u{7ff}", "\u{800}", "\u{ffff}", "\u{10000}", "日本", "a_b"];
    for x in words {
        for y in words {
            assert_eq!(precedes(x, y), x.as_bytes() < y.as_bytes());
            assert_eq!(precedes(x, y), x < y);
        }
    }
}
