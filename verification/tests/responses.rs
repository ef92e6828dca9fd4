//! The handler's output: the envelope shape, its escaping held against
//! serde_json's serializer, membership in the loaded set, and the sanity
//! of the random draw.

use noaas::{ReasonStore, load_store, random_reason, response_for};

fn store_from(text: &str) -> ReasonStore {
    load_store(&text.as_bytes().to_vec()).unwrap()
}

#[test]
fn envelope_wraps_the_reason() {
    let store = store_from(r#"["Only reason"]"#);
    let body = response_for(&store, 0);
    assert_eq!(body, b"{\"reason\":\"Only reason\"}");
}

#[test]
fn envelope_escapes_as_serde_json_does() {
    let texts = [
        "plain",
        "with \"quotes\" and \\backslash\\",
        "line\nbreak\ttab\rreturn",
        "control \u{1} \u{1f} backspace \u{8} formfeed \u{c}",
        "h\u{e9}llo \u{2603} \u{1D11E}",
        "/slashes/ stay",
    ];
    for text in texts {
        let mut reasons: Vec<Vec<u8>> = Vec::new();
        reasons.push(text.as_bytes().to_vec());
        let store = ReasonStore::new(reasons).unwrap();
        let body = response_for(&store, 0);
        let expected = format!("{{\"reason\":{}}}", serde_json::to_string(text).unwrap());
        assert_eq!(
            String::from_utf8(body).unwrap(),
            expected,
            "reason: {text:?}"
        );
    }
}

#[test]
fn response_is_one_of_the_loaded_reasons() {
    let store = store_from(r#"["A", "B", "C"]"#);
    let allowed: [&[u8]; 3] = [
        b"{\"reason\":\"A\"}",
        b"{\"reason\":\"B\"}",
        b"{\"reason\":\"C\"}",
    ];
    for _ in 0..10_000 {
        let body = random_reason(&store);
        assert!(allowed.contains(&body.as_slice()));
    }
}

#[test]
fn repeated_draws_vary_over_a_store_of_two_or_more() {
    let store = store_from(r#"["A", "B", "C"]"#);
    let mut seen: Vec<Vec<u8>> = Vec::new();
    for _ in 0..10_000 {
        let body = random_reason(&store);
        if !seen.contains(&body) {
            seen.push(body);
        }
    }
    assert!(seen.len() >= 2, "10,000 draws over 3 reasons gave {} distinct bodies", seen.len());
}

#[test]
fn single_reason_store_always_answers_the_same() {
    let store = store_from(r#"["Only reason"]"#);
    for _ in 0..100 {
        assert_eq!(random_reason(&store), b"{\"reason\":\"Only reason\"}");
    }
}
