use mal::builtins::values_equal;
use mal::env::{get, new, EnvData};
use mal::eval::eval;
use mal::reader::read_str;
use mal::repl::{create_env, rep, MAX_DEPTH};
use mal::types::{
    new_false, new_function, new_integer, new_list, new_nil, new_str, new_symbol, new_true,
    new_vector, Builtin, Env, MalError, MalType, MalValue,
};

fn setup() -> (EnvData, Env) {
    let mut envs = EnvData::new();
    let env = create_env(&mut envs).expect("root environment");
    (envs, env)
}

fn run(envs: &mut EnvData, env: Env, input: &str) -> Result<String, MalError> {
    rep(input, env, envs)
}

fn hash(entries: Vec<(&str, MalValue)>) -> MalValue {
    mal::types::new_hash(entries.into_iter().map(|(k, v)| (k.to_string(), v)).collect())
}

fn round_trip(v: MalValue) {
    let text = v.pr_str(true);
    let back = read_str(&text).expect("readable form reads back");
    assert!(values_equal(&back, &v), "{} read back as {}", text, back.pr_str(true));
    assert_eq!(back.pr_str(true), text);
}

#[test]
fn round_trip_scalars() {
    round_trip(new_nil());
    round_trip(new_true());
    round_trip(new_false());
    round_trip(new_integer(0));
    round_trip(new_integer(-17));
    round_trip(new_integer(i32::MAX));
    round_trip(new_integer(i32::MIN));
    round_trip(new_str("".to_string()));
    round_trip(new_str("a \"quoted\" back\\slash\nnewline, tab\t;".to_string()));
    round_trip(new_symbol("abc-def?".to_string()));
    round_trip(new_symbol("+".to_string()));
}

#[test]
fn round_trip_nested() {
    let inner = new_vector(vec![new_integer(1), new_str("x y".to_string()), new_list(vec![])]);
    let h = hash(vec![("a", new_integer(1)), ("b c", inner.clone())]);
    let v = new_list(vec![new_symbol("f".to_string()), inner, h, new_nil()]);
    round_trip(v);
}

#[test]
fn readable_string_escapes() {
    let v = new_str("a\"b\\c\nd".to_string());
    assert_eq!(v.pr_str(true), "\"a\\\"b\\\\c\\nd\"");
    assert_eq!(v.pr_str(false), "a\"b\\c\nd");
}

#[test]
fn self_evaluation() {
    let (mut envs, env) = setup();
    let values = vec![
        new_nil(),
        new_true(),
        new_false(),
        new_integer(42),
        new_str("s".to_string()),
        new_vector(vec![new_integer(1), new_vector(vec![new_str("t".to_string())])]),
    ];
    for v in values {
        let r = eval(&v, env, &mut envs, MAX_DEPTH).expect("self-evaluating");
        assert!(values_equal(&r, &v));
    }
}

#[test]
fn lookup_shadowing() {
    let mut envs = EnvData::new();
    let root = new(&mut envs, None);
    let a = new(&mut envs, Some(root));
    let b = new(&mut envs, Some(a));
    let x = new_symbol("x".to_string());
    let y = new_symbol("y".to_string());
    let z = new_symbol("z".to_string());
    mal::env::set(&mut envs, root, x.clone(), new_integer(1));
    mal::env::set(&mut envs, a, x.clone(), new_integer(2));
    mal::env::set(&mut envs, b, x.clone(), new_integer(3));
    mal::env::set(&mut envs, root, y.clone(), new_integer(10));
    mal::env::set(&mut envs, a, y.clone(), new_integer(20));
    mal::env::set(&mut envs, root, z.clone(), new_integer(100));
    assert_eq!(get(&envs, b, &x).unwrap().pr_str(true), "3");
    assert_eq!(get(&envs, b, &y).unwrap().pr_str(true), "20");
    assert_eq!(get(&envs, b, &z).unwrap().pr_str(true), "100");
    assert_eq!(get(&envs, a, &x).unwrap().pr_str(true), "2");
    assert!(matches!(get(&envs, root, &new_symbol("w".to_string())), Err(MalError::SymbolNotFound(_))));
    assert_eq!(mal::env::root(&envs, b), root);
    assert_eq!(mal::env::find(&envs, b, &y), Some(a));
}

#[test]
fn set_overwrites_in_place() {
    let mut envs = EnvData::new();
    let root = new(&mut envs, None);
    let x = new_symbol("x".to_string());
    mal::env::set(&mut envs, root, x.clone(), new_integer(1));
    mal::env::set(&mut envs, root, x.clone(), new_integer(2));
    assert_eq!(get(&envs, root, &x).unwrap().pr_str(true), "2");
    mal::env::set(&mut envs, root, new_integer(5), new_integer(3));
    assert!(matches!(get(&envs, root, &new_integer(5)), Err(MalError::NonSymbolBinding)));
}

#[test]
fn let_scoping() {
    let (mut envs, env) = setup();
    assert_eq!(run(&mut envs, env, "(let* (q 9 r (+ q 1)) r)").unwrap(), "10");
    assert!(matches!(run(&mut envs, env, "q"), Err(MalError::SymbolNotFound(_))));
    assert!(matches!(run(&mut envs, env, "r"), Err(MalError::SymbolNotFound(_))));
    assert_eq!(run(&mut envs, env, "(def! q 1)").unwrap(), "1");
    assert_eq!(run(&mut envs, env, "(let* (q 2) q)").unwrap(), "2");
    assert_eq!(run(&mut envs, env, "q").unwrap(), "1");
}

#[test]
fn closure_capture() {
    let (mut envs, env) = setup();
    run(&mut envs, env, "(def! f (let* (x 7) (fn* () x)))").unwrap();
    assert_eq!(run(&mut envs, env, "(f)").unwrap(), "7");
    assert!(matches!(run(&mut envs, env, "x"), Err(MalError::SymbolNotFound(_))));
    run(&mut envs, env, "(def! counter (let* (n 1) (fn* (m) (+ n m))))").unwrap();
    assert_eq!(run(&mut envs, env, "(counter 41)").unwrap(), "42");
}

#[test]
fn closure_sees_later_definitions() {
    let (mut envs, env) = setup();
    run(&mut envs, env, "(def! g (fn* () later))").unwrap();
    assert!(matches!(run(&mut envs, env, "(g)"), Err(MalError::SymbolNotFound(_))));
    run(&mut envs, env, "(def! later 5)").unwrap();
    assert_eq!(run(&mut envs, env, "(g)").unwrap(), "5");
}

#[test]
fn variadic_bind() {
    let (mut envs, env) = setup();
    assert_eq!(run(&mut envs, env, "((fn* (a & rest) rest) 1 2 3)").unwrap(), "(2 3)");
    assert_eq!(run(&mut envs, env, "((fn* (a & rest) rest) 1)").unwrap(), "()");
    assert_eq!(run(&mut envs, env, "((fn* (a & more) more) 1 2 3)").unwrap(), "(2 3)");
    assert_eq!(run(&mut envs, env, "((fn* [a & xs] xs) 1 [2] \"3\")").unwrap(), "([2] \"3\")");
}

#[test]
fn arity_enforcement() {
    let (mut envs, env) = setup();
    match run(&mut envs, env, "(+ 1)") {
        Err(MalError::WrongArity(name, expected, got)) => {
            assert_eq!((name.as_str(), expected, got), ("+", 2, 1));
        }
        other => panic!("{:?}", other),
    }
    match run(&mut envs, env, "(< 1 2 3)") {
        Err(MalError::WrongArity(name, expected, got)) => {
            assert_eq!((name.as_str(), expected, got), ("<", 2, 3));
        }
        other => panic!("{:?}", other),
    }
    let f = new_function(Builtin::Sub, Some(2), "minus".to_string());
    match f.apply(vec![new_integer(1)], &mut envs, MAX_DEPTH) {
        Err(MalError::WrongArity(name, 2, 1)) => assert_eq!(name, "minus"),
        other => panic!("{:?}", other),
    }
    let r = f.apply(vec![new_integer(1), new_integer(3)], &mut envs, MAX_DEPTH).unwrap();
    assert_eq!(r.pr_str(true), "-2");
}

#[test]
fn scenario_add() {
    let (mut envs, env) = setup();
    assert_eq!(run(&mut envs, env, "(+ 1 2)").unwrap(), "3");
}

#[test]
fn scenario_def_then_use() {
    let (mut envs, env) = setup();
    assert_eq!(run(&mut envs, env, "(def! x 10)").unwrap(), "10");
    assert_eq!(run(&mut envs, env, "(+ x 5)").unwrap(), "15");
}

#[test]
fn scenario_let_sequential() {
    let (mut envs, env) = setup();
    assert_eq!(run(&mut envs, env, "(let* (a 1 b (+ a 1)) (* a b))").unwrap(), "2");
}

#[test]
fn scenario_if() {
    let (mut envs, env) = setup();
    assert_eq!(run(&mut envs, env, "(if (< 2 3) \"yes\" \"no\")").unwrap(), "\"yes\"");
}

#[test]
fn scenario_variadic_count() {
    let (mut envs, env) = setup();
    assert_eq!(run(&mut envs, env, "((fn* (a & rest) (count rest)) 1 2 3 4)").unwrap(), "3");
}

#[test]
fn scenario_fib() {
    let (mut envs, env) = setup();
    let input = "(do (def! f (fn* (n) (if (< n 2) n (+ (f (- n 1)) (f (- n 2)))))) (f 6))";
    assert_eq!(run(&mut envs, env, input).unwrap(), "8");
}

#[test]
fn prn_writes_readable_output() {
    let (mut envs, env) = setup();
    assert_eq!(run(&mut envs, env, "(prn \"a\\nb\")").unwrap(), "nil");
    assert_eq!(run(&mut envs, env, "(prn (list 1 \"x\"))").unwrap(), "nil");
    let out = envs.take_output();
    assert_eq!(out, vec!["\"a\\nb\"".to_string(), "(1 \"x\")".to_string()]);
    assert!(envs.take_output().is_empty());
}

#[test]
fn equality_rules() {
    let (mut envs, env) = setup();
    assert_eq!(run(&mut envs, env, "(= {\"a\" 1 \"b\" 2} {\"b\" 2 \"a\" 1})").unwrap(), "true");
    assert_eq!(run(&mut envs, env, "(= {\"a\" 1} {\"a\" 2})").unwrap(), "false");
    assert_eq!(run(&mut envs, env, "(= {\"a\" 1} {\"a\" 1 \"b\" 1})").unwrap(), "false");
    assert_eq!(run(&mut envs, env, "(= (list 1 2) [1 2])").unwrap(), "false");
    assert_eq!(run(&mut envs, env, "(= + +)").unwrap(), "false");
    assert_eq!(run(&mut envs, env, "(= not not)").unwrap(), "false");
    assert_eq!(run(&mut envs, env, "(= (quote) (quote))").is_err(), true);
}

#[test]
fn division_truncates() {
    let (mut envs, env) = setup();
    assert_eq!(run(&mut envs, env, "(/ 7 2)").unwrap(), "3");
    assert_eq!(run(&mut envs, env, "(/ -7 2)").unwrap(), "-3");
    assert_eq!(run(&mut envs, env, "(/ 7 -2)").unwrap(), "-3");
    assert_eq!(run(&mut envs, env, "(/ -7 -2)").unwrap(), "3");
}

#[test]
fn hash_duplicate_keys_keep_last() {
    let (mut envs, env) = setup();
    assert_eq!(run(&mut envs, env, "{\"a\" 1 \"b\" 2 \"a\" 3}").unwrap(), "{\"a\" 3 \"b\" 2}");
}

#[test]
fn empty_list_and_do() {
    let (mut envs, env) = setup();
    assert_eq!(run(&mut envs, env, "()").unwrap(), "()");
    assert_eq!(run(&mut envs, env, "(do)").unwrap(), "nil");
    assert_eq!(run(&mut envs, env, "(do 1 2 3)").unwrap(), "3");
}

#[test]
fn callables_print() {
    let (mut envs, env) = setup();
    assert_eq!(run(&mut envs, env, "+").unwrap(), "#<fn:+/2>");
    assert_eq!(run(&mut envs, env, "list").unwrap(), "#<fn:list/*>");
    assert_eq!(run(&mut envs, env, "(fn* (a) (+ a 1))").unwrap(), "#<closure (a) (+ a 1)>");
}

#[test]
fn ns_lists_core_functions() {
    let names: Vec<String> = mal::builtins::ns().into_iter().map(|(n, _)| n).collect();
    assert_eq!(
        names,
        vec!["=", "list", "list?", "empty?", "count", "+", "-", "*", "/", "<", "<=", ">", ">=", "prn"]
    );
}

#[test]
fn bind_errors_and_success() {
    let mut envs = EnvData::new();
    let root = new(&mut envs, None);
    let params = new_list(vec![new_symbol("a".to_string()), new_symbol("b".to_string())]);
    let args = new_list(vec![new_integer(1), new_integer(2), new_integer(3)]);
    let inner = mal::env::bind(&mut envs, root, &params, &args).unwrap();
    assert_eq!(get(&envs, inner, &new_symbol("b".to_string())).unwrap().pr_str(true), "2");
    let short = new_list(vec![new_integer(1)]);
    assert!(matches!(mal::env::bind(&mut envs, root, &params, &short), Err(MalError::NotEnoughArgs)));
    let bad = new_list(vec![new_integer(1)]);
    assert!(matches!(mal::env::bind(&mut envs, root, &bad, &args), Err(MalError::NonSymbolBinding)));
    let dangling = new_list(vec![new_symbol("&".to_string())]);
    assert!(matches!(mal::env::bind(&mut envs, root, &dangling, &args), Err(MalError::MissingVariadic)));
}

#[test]
fn tokens_of_text() {
    let toks = mal::reader::tokenize("  (a ~@b 'c, \"s\\\"t\" ; note\n [1])").unwrap();
    assert_eq!(toks, vec!["(", "a", "~@", "b", "'", "c", "\"s\\\"t\"", "[", "1", "]", ")"]);
    assert!(matches!(mal::reader::tokenize("(\"abc"), Err(MalError::UnterminatedString)));
    assert!(mal::reader::tokenize(" ; only a comment").unwrap().is_empty());
}

#[test]
fn value_is_not_callable() {
    let mut envs = EnvData::new();
    let v: MalType = MalType::Integer(3);
    assert!(matches!(v.apply(vec![], &mut envs, MAX_DEPTH), Err(MalError::NotCallable)));
}

#[test]
fn reader_next_always_advances() {
    let mut r = mal::reader::MalReader::new(vec!["a".to_string()]);
    assert_eq!(r.peek().map(|t| t.as_str()), Some("a"));
    assert_eq!(r.next(), Some("a".to_string()));
    assert_eq!(r.next(), None);
    assert_eq!(r.peek(), None);
    assert_eq!(r.next(), None);
}

#[test]
fn closure_of_missing_environment_is_not_callable() {
    let mut envs = EnvData::new();
    let f = mal::types::new_mal_function(7, new_list(vec![]), new_integer(1));
    assert!(matches!(f.apply(vec![], &mut envs, MAX_DEPTH), Err(MalError::NotCallable)));
}

#[test]
fn root_of_chain_has_no_outer() {
    let mut envs = EnvData::new();
    let a = new(&mut envs, None);
    let b = new(&mut envs, Some(a));
    let c = new(&mut envs, Some(b));
    assert_eq!(mal::env::root(&envs, c), a);
    assert_eq!(mal::env::root(&envs, a), a);
    let x = new_symbol("x".to_string());
    mal::env::set(&mut envs, a, x.clone(), new_integer(1));
    assert_eq!(mal::env::find(&envs, c, &x), Some(a));
    let d = new(&mut envs, None);
    assert!(matches!(get(&envs, d, &x), Err(MalError::SymbolNotFound(_))));
}
