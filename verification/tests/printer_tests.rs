use mal::natives::val_equal_x;
use mal::printer::pr_str;
use mal::reader::read_str;
use mal::types::{MalHashable, MalType};

#[test]
fn prints_literals() {
    assert_eq!(pr_str(MalType::Nil, true), "nil");
    assert_eq!(pr_str(MalType::Bool(true), true), "true");
    assert_eq!(pr_str(MalType::Bool(false), true), "false");
    assert_eq!(pr_str(MalType::Int(42), true), "42");
    assert_eq!(pr_str(MalType::Int(-7), true), "-7");
    assert_eq!(pr_str(MalType::Int(0), true), "0");
    assert_eq!(pr_str(MalType::Int(i64::MIN), true), "-9223372036854775808");
}

#[test]
fn readable_mode_quotes_and_escapes_strings() {
    assert_eq!(pr_str(MalType::String("hi".to_string()), true), "\"hi\"");
    assert_eq!(pr_str(MalType::String("a\"b".to_string()), true), "\"a\\\"b\"");
    assert_eq!(pr_str(MalType::String("a\nb".to_string()), true), "\"a\\nb\"");
    assert_eq!(pr_str(MalType::String("a\\b".to_string()), true), "\"a\\\\b\"");
}

#[test]
fn display_mode_renders_strings_raw() {
    assert_eq!(pr_str(MalType::String("a\"b".to_string()), false), "a\"b");
    assert_eq!(pr_str(MalType::String("hi".to_string()), false), "hi");
}

#[test]
fn display_mode_unescapes_stored_escape_sequences() {
    assert_eq!(pr_str(MalType::String("a\\nb".to_string()), false), "a\nb");
    assert_eq!(pr_str(MalType::String("a\\\"b".to_string()), false), "a\"b");
    assert_eq!(pr_str(MalType::String("a\\\\n".to_string()), false), "a\\\n");
}

#[test]
fn prints_collections() {
    let v = read_str("(1 [2 3] {:a 4})").unwrap();
    assert_eq!(pr_str(v, true), "(1 [2 3] {:a 4})");
    let e = read_str("()").unwrap();
    assert_eq!(pr_str(e, true), "()");
}

#[test]
fn prints_symbols_and_keywords_bare() {
    assert_eq!(pr_str(MalType::Symbol("abc".to_string()), true), "abc");
    assert_eq!(pr_str(MalType::KeyWord(":kw".to_string()), true), ":kw");
    assert_eq!(pr_str(MalType::Error("boom".to_string()), true), "boom");
}

#[test]
fn function_values_print_as_a_placeholder() {
    let f = read_str("(fn* (a) a)").unwrap();
    assert_eq!(pr_str(f, true), "#<function>");
}

#[test]
fn map_keys_print_like_their_values() {
    let d = MalType::Dict(vec![
        (MalHashable::String("k".to_string()), MalType::Int(1)),
        (MalHashable::Nil, MalType::Int(2)),
    ]);
    assert_eq!(pr_str(d, true), "{\"k\" 1 nil 2}");
}

#[test]
fn round_trip_of_simple_literals() {
    let cases = ["nil", "true", "false", "0", "42", "-7", "9223372036854775807", "\"hello\"",
        "\"a b\"", "\"\"", "()", "[]"];
    for src in cases.iter() {
        let v = read_str(src).unwrap();
        let text = pr_str(v.clone(), true);
        let back = read_str(text.as_str()).unwrap();
        assert!(val_equal_x(&v, &back), "round trip failed for {:?}", src);
    }
}

#[test]
fn round_trip_text_is_stable() {
    let cases = ["nil", "true", "false", "42", "-7", "\"hello\"", "()", "[]"];
    for src in cases.iter() {
        let v = read_str(src).unwrap();
        let text = pr_str(v, true);
        assert_eq!(&text, src, "printing changed the literal text");
    }
}
