use mal::reader::{read_str, ReaderError};
use mal::types::{MalFn, MalHashable, MalType};

fn read_ok(src: &str) -> MalType {
    match read_str(src) {
        Ok(v) => v,
        Err(e) => panic!("expected a value for {:?}, got error {:?}", src, e),
    }
}

fn read_err(src: &str) -> ReaderError {
    match read_str(src) {
        Ok(v) => panic!("expected an error for {:?}, got {:?}", src, v),
        Err(e) => e,
    }
}

#[test]
fn reads_nil_and_booleans() {
    assert!(matches!(read_ok("nil"), MalType::Nil));
    assert!(matches!(read_ok("true"), MalType::Bool(true)));
    assert!(matches!(read_ok("false"), MalType::Bool(false)));
}

#[test]
fn reads_integers() {
    assert!(matches!(read_ok("42"), MalType::Int(42)));
    assert!(matches!(read_ok("-7"), MalType::Int(-7)));
    assert!(matches!(read_ok("+7"), MalType::Int(7)));
    assert!(matches!(read_ok("0"), MalType::Int(0)));
    assert!(matches!(read_ok("9223372036854775807"), MalType::Int(9223372036854775807)));
    assert!(matches!(read_ok("-9223372036854775808"), MalType::Int(-9223372036854775808)));
}

#[test]
fn out_of_range_integer_is_a_symbol() {
    match read_ok("9223372036854775808") {
        MalType::Symbol(s) => assert_eq!(s, "9223372036854775808"),
        other => panic!("expected a symbol, got {:?}", other),
    }
}

#[test]
fn reads_strings_keywords_symbols() {
    match read_ok("\"hello\"") {
        MalType::String(s) => assert_eq!(s, "hello"),
        other => panic!("expected a string, got {:?}", other),
    }
    match read_ok(":kw") {
        MalType::KeyWord(s) => assert_eq!(s, ":kw"),
        other => panic!("expected a keyword, got {:?}", other),
    }
    match read_ok("abc") {
        MalType::Symbol(s) => assert_eq!(s, "abc"),
        other => panic!("expected a symbol, got {:?}", other),
    }
}

#[test]
fn string_contents_keep_escapes_raw() {
    match read_ok("\"a\\nb\"") {
        MalType::String(s) => assert_eq!(s, "a\\nb"),
        other => panic!("expected a string, got {:?}", other),
    }
}

#[test]
fn reads_lists_and_vectors() {
    match read_ok("(1 2 3)") {
        MalType::List(xs) => {
            assert_eq!(xs.len(), 3);
            assert!(matches!(xs[0], MalType::Int(1)));
            assert!(matches!(xs[2], MalType::Int(3)));
        },
        other => panic!("expected a list, got {:?}", other),
    }
    match read_ok("[1 [2] 3]") {
        MalType::Vector(xs) => {
            assert_eq!(xs.len(), 3);
            assert!(matches!(&xs[1], MalType::Vector(inner) if inner.len() == 1));
        },
        other => panic!("expected a vector, got {:?}", other),
    }
    match read_ok("()") {
        MalType::List(xs) => assert_eq!(xs.len(), 0),
        other => panic!("expected an empty list, got {:?}", other),
    }
}

#[test]
fn reads_maps_with_hashable_keys() {
    match read_ok("{:a 1 \"b\" 2}") {
        MalType::Dict(ps) => {
            assert_eq!(ps.len(), 2);
            assert!(matches!(&ps[0].0, MalHashable::KeyWord(k) if k == ":a"));
            assert!(matches!(ps[0].1, MalType::Int(1)));
            assert!(matches!(&ps[1].0, MalHashable::String(k) if k == "b"));
        },
        other => panic!("expected a map, got {:?}", other),
    }
}

#[test]
fn duplicate_map_keys_keep_the_last_value() {
    match read_ok("{:a 1 :a 2}") {
        MalType::Dict(ps) => {
            assert_eq!(ps.len(), 1);
            assert!(matches!(ps[0].1, MalType::Int(2)));
        },
        other => panic!("expected a map, got {:?}", other),
    }
}

#[test]
fn comments_and_commas_are_separators() {
    match read_ok("(1, ;ignored\n 2)") {
        MalType::List(xs) => assert_eq!(xs.len(), 2),
        other => panic!("expected a list, got {:?}", other),
    }
}

#[test]
fn empty_input_reads_as_nil() {
    assert!(matches!(read_ok(""), MalType::Nil));
    assert!(matches!(read_ok("   ;only a comment"), MalType::Nil));
}

#[test]
fn reads_function_literals() {
    match read_ok("(fn* (a b) a)") {
        MalType::Fn(MalFn { args, is_variadic, env, .. }) => {
            assert_eq!(args, vec!["a".to_string(), "b".to_string()]);
            assert!(!is_variadic);
            assert!(env.is_none());
        },
        other => panic!("expected a function literal, got {:?}", other),
    }
}

#[test]
fn reads_variadic_function_literals() {
    match read_ok("(fn* (a & rest) a)") {
        MalType::Fn(MalFn { args, is_variadic, .. }) => {
            assert_eq!(args, vec!["a".to_string(), "rest".to_string()]);
            assert!(is_variadic);
        },
        other => panic!("expected a function literal, got {:?}", other),
    }
}

#[test]
fn variadic_marker_must_sit_before_the_last_parameter() {
    assert!(matches!(read_err("(fn* (& a b) a)"), ReaderError::VariadicPosition));
    assert!(matches!(read_err("(fn* (a &) a)"), ReaderError::VariadicPosition));
}

#[test]
fn function_parameters_must_be_symbols() {
    assert!(matches!(read_err("(fn* (1) 1)"), ReaderError::ParamNotSymbol));
    assert!(matches!(read_err("(fn* 1 1)"), ReaderError::ParamsNotList));
}

#[test]
fn unmatched_delimiter_errors() {
    assert!(matches!(read_err("(1 2"), ReaderError::UnmatchedDelimiter(')')));
    assert!(matches!(read_err("[1 2"), ReaderError::UnmatchedDelimiter(']')));
    assert!(matches!(read_err("{:a 1"), ReaderError::UnmatchedDelimiter('}')));
    assert!(matches!(read_err("("), ReaderError::UnmatchedDelimiter(')')));
}

#[test]
fn odd_map_arity_error() {
    assert!(matches!(read_err("{1}"), ReaderError::OddMapArity));
    assert!(matches!(read_err("{:a 1 :b}"), ReaderError::OddMapArity));
}

#[test]
fn unhashable_map_key_error() {
    assert!(matches!(read_err("{[1] 2}"), ReaderError::NotHashable));
    assert!(matches!(read_err("{(1 2) 3}"), ReaderError::NotHashable));
}

#[test]
fn unterminated_string_errors() {
    assert!(matches!(read_err("\"abc"), ReaderError::UnterminatedString));
    assert!(matches!(read_err("\"ab\\\""), ReaderError::UnterminatedString));
}

#[test]
fn error_messages_match_their_kind() {
    assert_eq!(read_err("(1 2").message(), "EOF unmatched ')'");
    assert_eq!(read_err("\"abc").message(), "EOF unclosed string.");
    assert_eq!(read_err("{1}").message(), "Hash map needs an even number of elements");
    assert_eq!(read_err("{[1] 2}").message(), "Value is not hashable.");
}

#[test]
fn reader_cursor_walks_tokens() {
    let src: Vec<char> = "(+ 1)".chars().collect();
    let tokens = mal::reader::tokenize(&src);
    let mut reader = mal::reader::Reader { tokens, pos: 0 };
    assert_eq!(reader.peek().map(|t| t.iter().collect::<String>()), Some("(".to_string()));
    assert_eq!(reader.next().map(|t| t.iter().collect::<String>()), Some("(".to_string()));
    assert_eq!(reader.next().map(|t| t.iter().collect::<String>()), Some("+".to_string()));
    assert_eq!(reader.next().map(|t| t.iter().collect::<String>()), Some("1".to_string()));
    assert_eq!(reader.next().map(|t| t.iter().collect::<String>()), Some(")".to_string()));
    assert!(reader.peek().is_none());
    assert!(reader.next().is_none());
}
