use mal::env::Env;
use mal::interp::{eval, re, rep};
use mal::natives::{get_env, val_equal_x};
use mal::printer::pr_str;
use mal::reader::read_str;
use mal::types::MalType;

fn run(src: &str) -> MalType {
    let mut env = get_env();
    run_in(src, &mut env)
}

fn run_in(src: &str, env: &mut Env) -> MalType {
    let form = read_str(src).unwrap();
    eval(&form, env, 0, false)
}

fn expect_int(src: &str, want: i64) {
    match run(src) {
        MalType::Int(i) => assert_eq!(i, want, "for {:?}", src),
        other => panic!("expected {} for {:?}, got {:?}", want, src, other),
    }
}

fn expect_bool(src: &str, want: bool) {
    match run(src) {
        MalType::Bool(b) => assert_eq!(b, want, "for {:?}", src),
        other => panic!("expected {} for {:?}, got {:?}", want, src, other),
    }
}

fn expect_error(src: &str) -> String {
    match run(src) {
        MalType::Error(m) => m,
        other => panic!("expected an error for {:?}, got {:?}", src, other),
    }
}

#[test]
fn arithmetic_sums() {
    expect_int("(+ 1 2 3)", 6);
    expect_int("(+ 5)", 5);
    expect_int("(- 10 1 2)", 7);
    expect_int("(- 10)", 10);
    expect_int("(* 2 3 4)", 24);
    expect_int("(/ 10 2)", 5);
    expect_int("(/ 7 2)", 3);
    expect_int("(/ 100 2 5)", 10);
}

#[test]
fn division_by_zero_is_an_error() {
    assert_eq!(expect_error("(/ 10 0)"), "Division by zero");
}

#[test]
fn arithmetic_type_errors() {
    assert!(expect_error("(+ 1 \"a\")").starts_with("Invalid argument: "));
    assert_eq!(expect_error("(- \"a\")"), "Unsupported type for '-'");
    assert!(expect_error("(* nil)").starts_with("Unsupported type for '*': "));
    assert_eq!(expect_error("(/ nil 1)"), "Unsupported type for '/'");
    assert_eq!(expect_error("(+)"), "Sum on empty list");
    assert_eq!(expect_error("(-)"), "Subtraction on empty list");
}

#[test]
fn string_and_sequence_sums() {
    match run("(+ \"a\" \"b\" \"c\")") {
        MalType::String(s) => assert_eq!(s, "abc"),
        other => panic!("expected a string, got {:?}", other),
    }
    let v = run("(+ (list 1) (list 2 3))");
    let want = read_str("(1 2 3)").unwrap();
    assert!(val_equal_x(&v, &want));
}

#[test]
fn sequential_scoping() {
    expect_int("(let* (x 1 y (+ x 1)) (+ x y))", 3);
}

#[test]
fn let_shadowing_and_errors() {
    expect_int("(let* (x 1 x 2) x)", 2);
    assert!(expect_error("(let* 1 2)").starts_with("Invalid argument: "));
    assert_eq!(expect_error("(let* (1 2) 3)"), "Only symbols can be assigned values.");
    assert_eq!(expect_error("(let* (x) x)"), "Invalid parameter length: got 1, expected 2.");
    assert_eq!(expect_error("(let* ((+ 1 1) 2) 3)"), "Only symbols can be assigned values.");
}

#[test]
fn mutual_capture_between_siblings() {
    expect_int(
        "(let* (f (fn* (n) (if (= n 0) 0 (g (- n 1)))) g (fn* (n) (if (= n 0) 1 (f (- n 1))))) (f 5))",
        1,
    );
    expect_int(
        "(let* (f (fn* (n) (if (= n 0) 0 (g (- n 1)))) g (fn* (n) (if (= n 0) 1 (f (- n 1))))) (f 4))",
        0,
    );
}

#[test]
fn tail_recursion_counts_down_from_a_large_bound() {
    expect_int(
        "(let* (f (fn* (n) (if (= n 0) 0 (f (- n 1))))) (f 100000))",
        0,
    );
}

#[test]
fn tail_recursion_works_without_a_captured_frame() {
    let mut env = get_env();
    let defined = run_in("(def! f (fn* (n) (if (= n 0) 0 (f (- n 1)))))", &mut env);
    assert!(matches!(defined, MalType::Fn(_)));
    match run_in("(f 1000)", &mut env) {
        MalType::Int(i) => assert_eq!(i, 0),
        other => panic!("deep tail recursion failed: {:?}", other),
    }
}

#[test]
fn list_and_vector_are_mutually_equal() {
    expect_bool("(= (list 1 2) [1 2])", true);
    expect_bool("(= [1 2] (list 1 2))", true);
    expect_bool("(= (list 1 2) [1 3])", false);
    expect_bool("(= (list 1 2) [1 2 3])", false);
    expect_bool("(= nil nil)", true);
    expect_bool("(= 1 1 1)", true);
    expect_bool("(= 1 2)", false);
    expect_bool("(= \"a\" \"a\")", true);
}

#[test]
fn fixed_arity_mismatch_is_an_error() {
    assert_eq!(
        expect_error("((fn* (a b) a) 1)"),
        "Invalid parameter length: got 1, expected 2."
    );
    assert_eq!(
        expect_error("((fn* (a) a) 1 2)"),
        "Invalid parameter length: got 2, expected 1."
    );
}

#[test]
fn variadic_closure_accepts_any_count_from_one_up() {
    expect_int("((fn* (a & rest) (count rest)) 1)", 0);
    expect_int("((fn* (a & rest) (count rest)) 1 2)", 1);
    expect_int("((fn* (a & rest) (count rest)) 1 2 3 4)", 3);
    let v = run("((fn* (a & rest) rest) 1 2 3)");
    let want = read_str("(2 3)").unwrap();
    assert!(val_equal_x(&v, &want));
    assert_eq!(
        expect_error("((fn* (a & rest) rest))"),
        "Invalid parameter length: got 0, expected at least 1."
    );
}

#[test]
fn closures_capture_their_defining_frame() {
    let mut env = get_env();
    run_in("(def! mk (fn* (n) (fn* () n)))", &mut env);
    run_in("(def! f5 (mk 5))", &mut env);
    match run_in("(f5)", &mut env) {
        MalType::Int(i) => assert_eq!(i, 5),
        other => panic!("captured frame lost: {:?}", other),
    }
}

#[test]
fn define_binds_and_returns() {
    let mut env = get_env();
    match run_in("(def! x 3)", &mut env) {
        MalType::Int(i) => assert_eq!(i, 3),
        other => panic!("unexpected {:?}", other),
    }
    match run_in("x", &mut env) {
        MalType::Int(i) => assert_eq!(i, 3),
        other => panic!("unexpected {:?}", other),
    }
}

#[test]
fn define_of_an_error_does_not_bind() {
    let mut env = get_env();
    run_in("(def! x 3)", &mut env);
    assert!(matches!(run_in("(def! x (/ 1 0))", &mut env), MalType::Error(_)));
    match run_in("x", &mut env) {
        MalType::Int(i) => assert_eq!(i, 3),
        other => panic!("binding was overwritten: {:?}", other),
    }
}

#[test]
fn unbound_symbol_is_an_error() {
    assert_eq!(expect_error("y"), "y not found");
}

#[test]
fn sequencing_and_conditionals() {
    expect_int("(do 1 2 3)", 3);
    assert_eq!(expect_error("(do)"), "Invalid parameter length: got 1, expected 2.");
    expect_int("(if true 1 2)", 1);
    expect_int("(if false 1 2)", 2);
    expect_int("(if 0 1 2)", 1);
    assert!(matches!(run("(if false 1)"), MalType::Nil));
    assert!(matches!(run("(if nil 1)"), MalType::Nil));
    assert_eq!(expect_error("(if 1)"), "Invalid parameter length: got 2, expected 3.");
}

#[test]
fn meta_evaluation_runs_data_as_code() {
    expect_int("(eval (list + 1 2))", 3);
    assert_eq!(expect_error("(eval 1 2)"), "Invalid parameter length: got 2, expected 1.");
}

#[test]
fn vectors_and_maps_evaluate_their_elements() {
    let v = run("[1 (+ 1 1) 3]");
    let want = read_str("[1 2 3]").unwrap();
    assert!(val_equal_x(&v, &want));
    let d = run("{:a (+ 1 2)}");
    assert_eq!(pr_str(d, true), "{:a 3}");
}

#[test]
fn element_evaluation_does_not_short_circuit_errors() {
    match run("[(/ 1 0) 2]") {
        MalType::Vector(xs) => {
            assert_eq!(xs.len(), 2);
            assert!(matches!(&xs[0], MalType::Error(_)));
            assert!(matches!(&xs[1], MalType::Int(2)));
        },
        other => panic!("expected a vector, got {:?}", other),
    }
}

#[test]
fn comparisons() {
    expect_bool("(< 1 2)", true);
    expect_bool("(< 2 1)", false);
    expect_bool("(< 1 2 3)", true);
    expect_bool("(<= 1 1)", true);
    expect_bool("(> 2 1)", true);
    expect_bool("(>= 1 2)", false);
    expect_bool("(!= 1 2)", true);
    expect_bool("(!= 1 1)", false);
    expect_bool("(< \"a\" \"b\")", true);
    expect_bool("(> \"b\" \"a\")", true);
    assert_eq!(expect_error("(< 1)"), "Comparision needs at least two parameters.");
    assert!(expect_error("(< :a :b)").starts_with("Unsupported type for comparision: "));
}

#[test]
fn predicates_and_count() {
    expect_bool("(list? (list 1 2))", true);
    expect_bool("(list? [1 2])", false);
    expect_bool("(empty? (list))", true);
    expect_bool("(empty? [1])", false);
    expect_int("(count [1 2 3])", 3);
    expect_int("(count nil)", 0);
    expect_int("(count {:a 1})", 1);
    assert_eq!(expect_error("(count 5)"), "Type is not an enumerable");
}

#[test]
fn text_producing_natives() {
    match run("(str \"a\" 1 [2])") {
        MalType::String(s) => assert_eq!(s, "a1[2]"),
        other => panic!("unexpected {:?}", other),
    }
    match run("(pr-str \"a\" 1)") {
        MalType::String(s) => assert_eq!(s, "\"a\" 1"),
        other => panic!("unexpected {:?}", other),
    }
}

#[test]
fn printing_natives_emit_lines() {
    let mut env = get_env();
    assert!(matches!(run_in("(prn 1 \"x\")", &mut env), MalType::Nil));
    assert_eq!(env.out, vec!["1 \"x\"".to_string()]);
    assert!(matches!(run_in("(println \"a\\nb\")", &mut env), MalType::Nil));
    assert_eq!(env.out.len(), 2);
    assert_eq!(env.out[1], "a\nb");
}

#[test]
fn deeply_nested_non_tail_recursion_evaluates() {
    let mut src = String::new();
    for _ in 0..500 {
        src.push_str("(+ 1 ");
    }
    src.push('0');
    for _ in 0..500 {
        src.push(')');
    }
    match run(&src) {
        MalType::Int(i) => assert_eq!(i, 500),
        other => panic!("expected 500, got {:?}", other),
    }
}

#[test]
fn a_program_that_never_finishes_reports_budget_exhaustion() {
    match run("(let* (f (fn* () (f))) (f))") {
        MalType::Error(m) => assert_eq!(m, "Evaluation budget exceeded"),
        other => panic!("expected the budget error, got {:?}", other),
    }
}

#[test]
fn equality_compares_keywords_and_errors_by_payload() {
    expect_bool("(= :a :a)", true);
    expect_bool("(= :a :b)", false);
    expect_bool("(= (/ 1 0) (/ 1 0))", true);
    expect_bool("(= (/ 1 0) (+ 1 nil))", false);
    assert!(mal::natives::val_equal_x(
        &MalType::Symbol("x".to_string()),
        &MalType::Symbol("x".to_string()),
    ));
    assert!(!mal::natives::val_equal_x(
        &MalType::Symbol("x".to_string()),
        &MalType::Symbol("y".to_string()),
    ));
    assert!(!mal::natives::val_equal_x(
        &MalType::Symbol("x".to_string()),
        &MalType::KeyWord("x".to_string()),
    ));
}

#[test]
fn str_family_unescapes_in_display_mode() {
    match run("(str \"a\\nb\")") {
        MalType::String(s) => assert_eq!(s, "a\nb"),
        other => panic!("unexpected {:?}", other),
    }
    match run("(str \"say \\\"hi\\\"\")") {
        MalType::String(s) => assert_eq!(s, "say \"hi\""),
        other => panic!("unexpected {:?}", other),
    }
}

#[test]
fn rep_reflects_results_and_parse_errors() {
    let mut env = get_env();
    assert_eq!(rep("(+ 1 2)", &mut env), "3");
    assert_eq!(rep("\"hi\"", &mut env), "\"hi\"");
    assert_eq!(rep("(1", &mut env), "Parse error: EOF unmatched ')'");
}

#[test]
fn re_reads_then_evaluates() {
    let mut env = get_env();
    match re("(+ 2 2)", &mut env) {
        Ok(MalType::Int(i)) => assert_eq!(i, 4),
        other => panic!("unexpected {:?}", other),
    }
    assert!(re("(", &mut env).is_err());
}

#[test]
fn keywords_and_strings_self_evaluate() {
    assert!(matches!(run(":kw"), MalType::KeyWord(_)));
    match run("\"s\"") {
        MalType::String(s) => assert_eq!(s, "s"),
        other => panic!("unexpected {:?}", other),
    }
    assert!(matches!(run("nil"), MalType::Nil));
    assert!(matches!(run("()"), MalType::List(xs) if xs.is_empty()));
}

#[test]
fn list_with_data_head_evaluates_to_data() {
    let v = run("(1 2 (+ 1 2))");
    let want = read_str("(1 2 3)").unwrap();
    assert!(val_equal_x(&v, &want));
}

#[test]
fn env_lookup_walks_outward() {
    let mut env = get_env();
    run_in("(def! x 10)", &mut env);
    expect_int_in("(let* (y 1) (+ x y))", &mut env, 11);
    expect_int_in("(let* (x 2) x)", &mut env, 2);
    expect_int_in("x", &mut env, 10);
}

fn expect_int_in(src: &str, env: &mut Env, want: i64) {
    match run_in(src, env) {
        MalType::Int(i) => assert_eq!(i, want, "for {:?}", src),
        other => panic!("expected {} for {:?}, got {:?}", want, src, other),
    }
}
