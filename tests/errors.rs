use mal::env::EnvData;
use mal::reader::read_str;
use mal::repl::{create_env, rep};
use mal::types::{Builtin, Env, MalError, SpecialForm};

fn setup() -> (EnvData, Env) {
    let mut envs = EnvData::new();
    let env = create_env(&mut envs).expect("root environment");
    (envs, env)
}

fn err(input: &str) -> MalError {
    let (mut envs, env) = setup();
    match rep(input, env, &mut envs) {
        Ok(s) => panic!("{:?} gave {:?}", input, s),
        Err(e) => e,
    }
}

#[test]
fn error_empty_line() {
    assert!(matches!(read_str(""), Err(MalError::ErrEmptyLine)));
    assert!(matches!(read_str("  ,, ; comment"), Err(MalError::ErrEmptyLine)));
    assert_eq!(MalError::ErrEmptyLine.message(), "empty line");
}

#[test]
fn error_unexpected_delimiter() {
    assert!(matches!(err(")"), MalError::UnexpectedDelimiter(')')));
    assert!(matches!(err("(1 ]"), MalError::UnexpectedDelimiter(']')));
    assert_eq!(err("}").message(), "unexpected '}'");
}

#[test]
fn error_unbalanced_delimiter() {
    assert!(matches!(err("(1 2"), MalError::UnbalancedDelimiter(')')));
    assert!(matches!(err("[1 (2)"), MalError::UnbalancedDelimiter(']')));
    assert_eq!(err("{\"a\" 1").message(), "expected '}', got EOF");
}

#[test]
fn error_unterminated_string() {
    assert!(matches!(err("\"abc"), MalError::UnterminatedString));
    assert!(matches!(err("(1 \"abc\\\""), MalError::UnterminatedString));
}

#[test]
fn error_bad_integer() {
    match err("2147483648") {
        MalError::BadInteger(t) => assert_eq!(t, "2147483648"),
        other => panic!("{:?}", other),
    }
    assert!(matches!(err("-2147483649"), MalError::BadInteger(_)));
    let (mut envs, env) = setup();
    assert_eq!(rep("-2147483648", env, &mut envs).unwrap(), "-2147483648");
    assert_eq!(rep("+12", env, &mut envs).unwrap(), "12");
    assert_eq!(rep("(list 007 -0)", env, &mut envs).unwrap(), "(7 0)");
}

#[test]
fn error_bad_hash() {
    assert!(matches!(err("{\"a\"}"), MalError::BadHash));
    assert!(matches!(err("{1 2}"), MalError::BadHash));
    assert!(matches!(err("{\"a\" 1 b 2}"), MalError::BadHash));
}

#[test]
fn error_symbol_not_found() {
    match err("(+ 1 nope)") {
        MalError::SymbolNotFound(s) => assert_eq!(s, "nope"),
        other => panic!("{:?}", other),
    }
    assert_eq!(err("nope").message(), "'nope' not found");
}

#[test]
fn error_bad_special_form() {
    assert!(matches!(err("(def! x)"), MalError::BadSpecialForm(SpecialForm::Def)));
    assert!(matches!(err("(def! 1 2)"), MalError::BadSpecialForm(SpecialForm::Def)));
    assert!(matches!(err("(let* (a) a)"), MalError::BadSpecialForm(SpecialForm::Let)));
    assert!(matches!(err("(let* a 1)"), MalError::BadSpecialForm(SpecialForm::Let)));
    assert!(matches!(err("(let* (1 2) 3)"), MalError::BadSpecialForm(SpecialForm::Let)));
    assert!(matches!(err("(if)"), MalError::BadSpecialForm(SpecialForm::If)));
    assert!(matches!(err("(if 1 2 3 4)"), MalError::BadSpecialForm(SpecialForm::If)));
    assert!(matches!(err("(fn* 1 2)"), MalError::BadSpecialForm(SpecialForm::Fn)));
    assert!(matches!(err("(fn* (a))"), MalError::BadSpecialForm(SpecialForm::Fn)));
    assert!(matches!(err("(fn* (1) 2)"), MalError::BadSpecialForm(SpecialForm::Fn)));
    assert!(matches!(err("((fn* (a & 1) a) 1)"), MalError::BadSpecialForm(SpecialForm::Fn)));
    assert_eq!(err("(let* (a) a)").message(), "bad form: let*");
}

#[test]
fn error_bind_failures() {
    assert!(matches!(err("((fn* (a &) a) 1)"), MalError::MissingVariadic));
    assert!(matches!(err("((fn* (a b) a) 1)"), MalError::NotEnoughArgs));
    assert_eq!(err("((fn* (a b) a) 1)").message(), "not enough arguments");
}

#[test]
fn error_wrong_arity() {
    assert!(matches!(err("(count)"), MalError::WrongArity(_, 1, 0)));
    assert_eq!(err("(= 1)").message(), "wrong arity for =: expected 2, got 1");
}

#[test]
fn error_type_error() {
    assert!(matches!(err("(+ 1 \"a\")"), MalError::TypeError(Builtin::Add)));
    assert!(matches!(err("(< nil 1)"), MalError::TypeError(Builtin::Lt)));
    assert!(matches!(err("(count 1)"), MalError::TypeError(Builtin::Count)));
    assert!(matches!(err("(empty? nil)"), MalError::TypeError(Builtin::EmptyQ)));
    assert_eq!(err("(* 2 [])").message(), "wrong argument type for *");
}

#[test]
fn error_div_by_zero() {
    assert!(matches!(err("(/ 1 0)"), MalError::DivByZero));
    assert_eq!(err("(/ 0 0)").message(), "division by zero");
}

#[test]
fn error_overflow() {
    assert!(matches!(err("(+ 2147483647 1)"), MalError::Overflow));
    assert!(matches!(err("(- -2147483648 1)"), MalError::Overflow));
    assert!(matches!(err("(* 65536 65536)"), MalError::Overflow));
    assert!(matches!(err("(/ -2147483648 -1)"), MalError::Overflow));
}

#[test]
fn error_not_callable() {
    assert!(matches!(err("(1 2)"), MalError::NotCallable));
    assert!(matches!(err("(\"f\")"), MalError::NotCallable));
    assert_eq!(err("(nil)").message(), "cannot call a non-function");
}

#[test]
fn error_depth_exceeded() {
    let (mut envs, env) = setup();
    rep("(def! spin (fn* () (spin)))", env, &mut envs).unwrap();
    assert!(matches!(rep("(spin)", env, &mut envs), Err(MalError::DepthExceeded)));
    assert_eq!(MalError::DepthExceeded.message(), "evaluation nested too deep");
    assert_eq!(rep("(+ 1 1)", env, &mut envs).unwrap(), "2");
}

#[test]
fn error_strings() {
    let e = mal::types::err_str("boom");
    match e {
        Err(MalError::ErrString(s)) => assert_eq!(s, "boom"),
        other => panic!("{:?}", other),
    }
    match mal::types::err_string("bang".to_string()) {
        Err(e) => assert_eq!(e.message(), "bang"),
        Ok(v) => panic!("{:?}", v),
    }
}
