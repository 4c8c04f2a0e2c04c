use agent_salon::jsonl::event_text;
use agent_salon::text::{
    i64_text, join_strings, same, space, split_on, split_once_str, str_or, trim_str, u64_text,
};
use agent_salon::time::Timestamp;

#[test]
fn white_space_is_that_of_unicode() {
    for code in 0..=0x10ffffu32 {
        if let Some(c) = char::from_u32(code) {
            assert_eq!(space(c), c.is_whitespace(), "{code:x}");
        }
    }
}

#[test]
fn trims_both_ends() {
    for s in ["", " ", "a", " a ", "\t\u{3000}a b\u{2003}\n", "\u{feff}a"] {
        assert_eq!(trim_str(s), s.trim());
    }
}

#[test]
fn splits_at_each_separator() {
    for s in ["", ",", "a", "a,b", ",a,,b,", "\u{3042},\u{3044}"] {
        let parts: Vec<&str> = s.split(',').collect();
        assert_eq!(split_on(s, ','), parts);
        let once = split_once_str(s, ',');
        assert_eq!(
            once.as_ref().map(|p| (p.0.as_str(), p.1.as_str())),
            s.split_once(',')
        );
    }
}

#[test]
fn joins_with_separators() {
    let parts = |v: &[&str]| v.iter().map(|s| s.to_string()).collect::<Vec<String>>();
    assert_eq!(join_strings(&parts(&[]), ", "), "");
    assert_eq!(join_strings(&parts(&["a"]), ", "), "a");
    assert_eq!(join_strings(&parts(&["a", "", "b"]), ", "), "a, , b");
}

#[test]
fn writes_numbers() {
    for n in [0, 1, 9, 10, 99, 100, u64::MAX] {
        assert_eq!(u64_text(n), n.to_string());
    }
    for n in [0, -1, -10, i64::MIN, i64::MAX] {
        assert_eq!(i64_text(n), n.to_string());
    }
}

#[test]
fn tells_texts_apart() {
    assert!(same("a", "a"));
    assert!(!same("a", "b"));
    assert_eq!(str_or(&None, "x"), "x");
    assert_eq!(str_or(&Some("y".to_string()), "x"), "y");
}

#[test]
fn quotes_every_character_as_json() {
    let all: String = (0..=0x10ffffu32).filter_map(char::from_u32).take(2000).collect();
    let line = event_text(
        Timestamp { secs: 0, nanos: 0 },
        &all,
        &serde_json::Map::new(),
    );
    let value: serde_json::Value = serde_json::from_str(&line).unwrap();
    assert_eq!(value["event"], all.as_str());
    assert!(line.contains("\\u0000\\u0001"));
    assert!(line.contains("\\b\\t\\n\\u000b\\f\\r\\u000e"));
    assert!(line.contains("\\u001f !\\\"#"));
    assert!(line.contains("[\\\\]"));
    assert!(line.contains("~\u{7f}\u{80}"));
}
