//! Loading the data file: valid arrays, the empty array, malformed input,
//! and agreement with serde_json on what parses.

use noaas::{LoadError, load_store};

fn load(text: &str) -> Result<noaas::ReasonStore, LoadError> {
    load_store(&text.as_bytes().to_vec())
}

#[test]
fn loads_three_reasons_in_order() {
    let store = load(r#"["A", "B", "C"]"#).unwrap();
    assert_eq!(store.len(), 3);
    assert_eq!(store.get(0), b"A");
    assert_eq!(store.get(1), b"B");
    assert_eq!(store.get(2), b"C");
}

#[test]
fn loads_single_reason() {
    let store = load(r#"["Only reason"]"#).unwrap();
    assert_eq!(store.len(), 1);
    assert_eq!(store.get(0), b"Only reason");
}

#[test]
fn tolerates_surrounding_whitespace() {
    let store = load("  \t\r\n [ \"a\" , \"b\" ] \n ").unwrap();
    assert_eq!(store.len(), 2);
    assert_eq!(store.get(0), b"a");
    assert_eq!(store.get(1), b"b");
}

#[test]
fn empty_array_is_a_fatal_configuration_error() {
    assert!(matches!(load("[]"), Err(LoadError::Empty)));
    assert!(matches!(load("  [ ]  "), Err(LoadError::Empty)));
}

#[test]
fn empty_string_reasons_are_rejected() {
    assert!(matches!(load(r#"[""]"#), Err(LoadError::EmptyReason)));
    assert!(matches!(load(r#"["a", ""]"#), Err(LoadError::EmptyReason)));
    assert!(matches!(load(r#"["", "a"]"#), Err(LoadError::EmptyReason)));
    assert!(matches!(load(r#"["A", "𝄞"]"#), Ok(_)));
}

#[test]
fn malformed_files_are_rejected() {
    let bad = [
        "",
        "{}",
        "\"just a string\"",
        "null",
        "42",
        "[1]",
        "[\"a\", 2]",
        "[\"a\", null]",
        "[[\"a\"]]",
        "[\"a\"",
        "\"a\"]",
        "[\"a\",]",
        "[,\"a\"]",
        "[\"a\" \"b\"]",
        "[\"a\"] trailing",
        "[\"unterminated]",
    ];
    for text in bad {
        assert!(matches!(load(text), Err(LoadError::Malformed)), "accepted: {text}");
    }
}

#[test]
fn escapes_are_decoded() {
    let store = load(r#"["a\nb\t\"\\\/ A"]"#).unwrap();
    assert_eq!(store.len(), 1);
    assert_eq!(store.get(0), "a\nb\t\"\\/ A".as_bytes());
}

#[test]
fn surrogate_pairs_become_one_code_point() {
    let store = load(r#"["𝄞"]"#).unwrap();
    assert_eq!(store.get(0), "\u{1D11E}".as_bytes());
    assert_eq!(store.get(0), &[0xf0, 0x9d, 0x84, 0x9e]);
}

#[test]
fn lone_surrogates_are_rejected() {
    assert!(matches!(load(r#"["\ud834"]"#), Err(LoadError::Malformed)));
    assert!(matches!(load(r#"["\udd1e"]"#), Err(LoadError::Malformed)));
    assert!(matches!(load(r#"["\ud834A"]"#), Err(LoadError::Malformed)));
    assert!(matches!(load(r#"["\ud834x"]"#), Err(LoadError::Malformed)));
}

#[test]
fn control_bytes_and_bad_escapes_are_rejected() {
    assert!(matches!(load("[\"a\u{1}b\"]"), Err(LoadError::Malformed)));
    assert!(matches!(load("[\"a\nb\"]"), Err(LoadError::Malformed)));
    assert!(matches!(load(r#"["\x"]"#), Err(LoadError::Malformed)));
    assert!(matches!(load(r#"["\u12"]"#), Err(LoadError::Malformed)));
    assert!(matches!(load(r#"["\u12zz"]"#), Err(LoadError::Malformed)));
}

#[test]
fn multibyte_text_passes_through() {
    let store = load("[\"h\u{e9}llo \u{2603}\"]").unwrap();
    assert_eq!(store.get(0), "h\u{e9}llo \u{2603}".as_bytes());
}

#[test]
fn agrees_with_serde_json_on_the_format() {
    let inputs = [
        r#"["A", "B", "C"]"#,
        r#"[]"#,
        r#"[""]"#,
        r#"["a\nb", "Aé", "𝄞"]"#,
        "  [ \"x\" ,\t\"y\" ]  ",
        r#"["nested ] bracket", "comma, inside"]"#,
        r#"{"not": "an array"}"#,
        r#"["a", 1]"#,
        r#"["a""#,
        r#"["\ud800"]"#,
        r#"["a"]]"#,
        "[\"raw\ttab\"]",
    ];
    for text in inputs {
        let oracle: Result<Vec<String>, _> = serde_json::from_str(text);
        match load(text) {
            Ok(store) => {
                let parsed = oracle.expect("oracle rejected what the loader took");
                assert_eq!(store.len(), parsed.len());
                for (i, reason) in parsed.iter().enumerate() {
                    assert_eq!(store.get(i), reason.as_bytes(), "input: {text}");
                }
            }
            Err(LoadError::Empty) => {
                let parsed = oracle.expect("oracle rejected what the loader took");
                assert_eq!(parsed.len(), 0, "input: {text}");
            }
            Err(LoadError::EmptyReason) => {
                let parsed = oracle.expect("oracle rejected what the loader took");
                assert!(
                    !parsed.is_empty() && parsed.iter().any(|r| r.is_empty()),
                    "input: {text}"
                );
            }
            Err(LoadError::Malformed) => {
                assert!(oracle.is_err(), "oracle accepted what the loader rejected: {text}");
            }
        }
    }
}
