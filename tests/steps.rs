use mal::env::EnvData;
use mal::repl::{create_env, rep, rep_echo, rep_read_print};
use mal::types::{Env, MalError};

/// Expected outcome of one input line: its printed output, an error, or
/// nothing (an empty line).
enum Expect {
    Out(&'static str),
    Error,
    Empty,
}

fn check(results: Vec<(String, Result<String, MalError>)>, expected: &[Expect]) {
    assert_eq!(results.len(), expected.len());
    for ((input, got), want) in results.into_iter().zip(expected.iter()) {
        match (got, want) {
            (Ok(s), Expect::Out(w)) => assert_eq!(s, *w, "input {:?}", input),
            (Err(MalError::ErrEmptyLine), Expect::Empty) => {}
            (Err(MalError::ErrEmptyLine), _) => panic!("unexpected empty line for {:?}", input),
            (Err(_), Expect::Error) => {}
            (Ok(s), _) => panic!("input {:?} gave {:?}", input, s),
            (Err(e), _) => panic!("input {:?} failed: {}", input, e.message()),
        }
    }
}

fn run_env(lines: &[&str], expected: &[Expect]) {
    let mut envs = EnvData::new();
    let env: Env = match create_env(&mut envs) {
        Ok(e) => e,
        Err(e) => panic!("create_env: {}", e.message()),
    };
    let results = lines
        .iter()
        .map(|l| (l.to_string(), rep(l, env, &mut envs)))
        .collect();
    check(results, expected);
}

#[test]
fn test_step0_spec() {
    let lines = [
        "abcABC123",
        "hello mal world",
        "[]{}\"'* ;:()",
        "hello world abcdefghijklmnopqrstuvwxyz ABCDEFGHIJKLMNOPQRSTUVWXYZ 0123456789 (;:() []{}\"'* ;:() []{}\"'* ;:() []{}\"'*)",
        "!",
        "&",
        "+",
        ",",
        "-",
        "-",
        "",
    ];
    let results = lines
        .iter()
        .map(|l| (l.to_string(), rep_echo(l)))
        .collect();
    check(
        results,
        &[
            Expect::Out("abcABC123"),
            Expect::Out("hello mal world"),
            Expect::Out("[]{}\"'* ;:()"),
            Expect::Out("hello world abcdefghijklmnopqrstuvwxyz ABCDEFGHIJKLMNOPQRSTUVWXYZ 0123456789 (;:() []{}\"'* ;:() []{}\"'* ;:() []{}\"'*)"),
            Expect::Out("!"),
            Expect::Out("&"),
            Expect::Out("+"),
            Expect::Out(","),
            Expect::Out("-"),
            Expect::Out("-"),
            Expect::Empty,
        ],
    );
}

#[test]
fn test_step1_spec() {
    let cases: Vec<(&str, Expect)> = vec![
        ("1", Expect::Out("1")),
        ("7", Expect::Out("7")),
        ("  7   ", Expect::Out("7")),
        ("-123", Expect::Out("-123")),
        ("+", Expect::Out("+")),
        ("abc", Expect::Out("abc")),
        ("   abc   ", Expect::Out("abc")),
        ("abc5", Expect::Out("abc5")),
        ("abc-def", Expect::Out("abc-def")),
        ("-", Expect::Out("-")),
        ("-abc", Expect::Out("-abc")),
        ("->>", Expect::Out("->>")),
        ("(+ 1 2)", Expect::Out("(+ 1 2)")),
        ("()", Expect::Out("()")),
        ("( )", Expect::Out("()")),
        ("(nil)", Expect::Out("(nil)")),
        ("((3 4))", Expect::Out("((3 4))")),
        ("(+ 1 (+ 2 3))", Expect::Out("(+ 1 (+ 2 3))")),
        ("  ( +   1   (+   2 3   )   )  ", Expect::Out("(+ 1 (+ 2 3))")),
        ("(* 1 2)", Expect::Out("(* 1 2)")),
        ("(** 1 2)", Expect::Out("(** 1 2)")),
        ("(* -3 6)", Expect::Out("(* -3 6)")),
        ("(()())", Expect::Out("(() ())")),
        ("(1 2, 3,,,,),,", Expect::Out("(1 2 3)")),
        ("nil", Expect::Out("nil")),
        ("true", Expect::Out("true")),
        ("false", Expect::Out("false")),
        ("\"abc\"", Expect::Out("\"abc\"")),
        ("   \"abc\"   ", Expect::Out("\"abc\"")),
        ("\"abc (with parens)\"", Expect::Out("\"abc (with parens)\"")),
        ("\"abc\\\"def\"", Expect::Out("\"abc\\\"def\"")),
        ("\"\"", Expect::Out("\"\"")),
        ("\"\\\\\"", Expect::Out("\"\\\\\"")),
        ("\"&\"", Expect::Out("\"&\"")),
        ("\"abc\\ndef\"", Expect::Out("\"abc\\ndef\"")),
        ("(1 2", Expect::Error),
        ("[1 2", Expect::Error),
        ("\"abc", Expect::Error),
        ("(1 \"abc", Expect::Error),
        ("(1 \"abc\"", Expect::Error),
        ("[+ 1 2]", Expect::Out("[+ 1 2]")),
        ("[]", Expect::Out("[]")),
        ("[ ]", Expect::Out("[]")),
        ("[[3 4]]", Expect::Out("[[3 4]]")),
        ("[+ 1 [+ 2 3]]", Expect::Out("[+ 1 [+ 2 3]]")),
        ("  [ +   1   [+   2 3   ]   ]  ", Expect::Out("[+ 1 [+ 2 3]]")),
        ("([])", Expect::Out("([])")),
        ("{}", Expect::Out("{}")),
        ("{ }", Expect::Out("{}")),
        ("{\"abc\" 1}", Expect::Out("{\"abc\" 1}")),
        ("{\"a\" {\"b\" 2}}", Expect::Out("{\"a\" {\"b\" 2}}")),
        ("{\"a\" {\"b\" {\"c\" 3}}}", Expect::Out("{\"a\" {\"b\" {\"c\" 3}}}")),
        ("{  \"a\"  {\"b\"   {  \"cde\"     3   }  }}", Expect::Out("{\"a\" {\"b\" {\"cde\" 3}}}")),
        ("{\"a1\" 1 \"a2\" 2}", Expect::Out("{\"a1\" 1 \"a2\" 2}")),
        ("({})", Expect::Out("({})")),
        (" ;; whole line comment (not an exception)", Expect::Empty),
        ("1 ; comment after expression", Expect::Out("1")),
        ("1; comment after expression", Expect::Out("1")),
    ];
    let results = cases
        .iter()
        .map(|(l, _)| (l.to_string(), rep_read_print(l)))
        .collect();
    let expected: Vec<Expect> = cases.into_iter().map(|(_, e)| e).collect();
    check(results, &expected);
}

#[test]
fn test_step2_spec() {
    run_env(
        &[
            "(+ 1 2)",
            "(+ 5 (* 2 3))",
            "(- (+ 5 (* 2 3)) 3)",
            "(/ (- (+ 5 (* 2 3)) 3) 4)",
            "(/ (- (+ 515 (* 87 311)) 302) 27)",
            "(* -3 6)",
            "(/ (- (+ 515 (* -87 311)) 296) 27)",
            "(abc 1 2 3)",
            "()",
            "[1 2 (+ 1 2)]",
            "{\"a\" (+ 7 8)}",
            "{}",
            "[]",
        ],
        &[
            Expect::Out("3"),
            Expect::Out("11"),
            Expect::Out("8"),
            Expect::Out("2"),
            Expect::Out("1010"),
            Expect::Out("-18"),
            Expect::Out("-994"),
            Expect::Error,
            Expect::Out("()"),
            Expect::Out("[1 2 3]"),
            Expect::Out("{\"a\" 15}"),
            Expect::Out("{}"),
            Expect::Out("[]"),
        ],
    );
}

#[test]
fn test_step3_spec() {
    run_env(
        &[
            "(+ 1 2)",
            "(/ (- (+ 5 (* 2 3)) 3) 4)",
            "(def! x 3)",
            "x",
            "(def! x 4)",
            "x",
            "(def! y (+ 1 7))",
            "y",
            "(def! mynum 111)",
            "(def! MYNUM 222)",
            "mynum",
            "MYNUM",
            "(abc 1 2 3)",
            "(def! w 123)",
            "(def! w (abc))",
            "w",
            "(let* (z 9) z)",
            "(let* (x 9) x)",
            "x",
            "(let* (z (+ 2 3)) (+ 1 z))",
            "(let* (p (+ 2 3) q (+ 2 p)) (+ p q))",
            "(def! y (let* (z 7) z))",
            "y",
            "(def! a 4)",
            "(let* (q 9) q)",
            "(let* (q 9) a)",
            "(let* (z 2) (let* (q 9) a))",
            "(let* [z 9] z)",
            "(let* [p (+ 2 3) q (+ 2 p)] (+ p q))",
            "(let* (a 5 b 6) [3 4 a [b 7] 8])",
        ],
        &[
            Expect::Out("3"),
            Expect::Out("2"),
            Expect::Out("3"),
            Expect::Out("3"),
            Expect::Out("4"),
            Expect::Out("4"),
            Expect::Out("8"),
            Expect::Out("8"),
            Expect::Out("111"),
            Expect::Out("222"),
            Expect::Out("111"),
            Expect::Out("222"),
            Expect::Error,
            Expect::Out("123"),
            Expect::Error,
            Expect::Out("123"),
            Expect::Out("9"),
            Expect::Out("9"),
            Expect::Out("4"),
            Expect::Out("6"),
            Expect::Out("12"),
            Expect::Out("7"),
            Expect::Out("7"),
            Expect::Out("4"),
            Expect::Out("9"),
            Expect::Out("4"),
            Expect::Out("4"),
            Expect::Out("9"),
            Expect::Out("12"),
            Expect::Out("[3 4 5 [6 7] 8]"),
        ],
    );
}

#[test]
fn test_step4_spec() {
    let cases: Vec<(&str, Expect)> = vec![
        ("(list)", Expect::Out("()")),
        ("(list? (list))", Expect::Out("true")),
        ("(empty? (list))", Expect::Out("true")),
        ("(empty? (list 1))", Expect::Out("false")),
        ("(list 1 2 3)", Expect::Out("(1 2 3)")),
        ("(count (list 1 2 3))", Expect::Out("3")),
        ("(count (list))", Expect::Out("0")),
        ("(count nil)", Expect::Out("0")),
        ("(if (> (count (list 1 2 3)) 3) 89 78)", Expect::Out("78")),
        ("(if (>= (count (list 1 2 3)) 3) 89 78)", Expect::Out("89")),
        ("(if true 7 8)", Expect::Out("7")),
        ("(if false 7 8)", Expect::Out("8")),
        ("(if false 7 false)", Expect::Out("false")),
        ("(if true (+ 1 7) (+ 1 8))", Expect::Out("8")),
        ("(if false (+ 1 7) (+ 1 8))", Expect::Out("9")),
        ("(if nil 7 8)", Expect::Out("8")),
        ("(if 0 7 8)", Expect::Out("7")),
        ("(if (list) 7 8)", Expect::Out("7")),
        ("(if (list 1 2 3) 7 8)", Expect::Out("7")),
        ("(= (list) nil)", Expect::Out("false")),
        ("(if false (+ 1 7))", Expect::Out("nil")),
        ("(if nil 8)", Expect::Out("nil")),
        ("(if nil 8 7)", Expect::Out("7")),
        ("(if true (+ 1 7))", Expect::Out("8")),
        ("(= 2 1)", Expect::Out("false")),
        ("(= 1 1)", Expect::Out("true")),
        ("(= 1 2)", Expect::Out("false")),
        ("(= 1 (+ 1 1))", Expect::Out("false")),
        ("(= 2 (+ 1 1))", Expect::Out("true")),
        ("(= nil 1)", Expect::Out("false")),
        ("(= nil nil)", Expect::Out("true")),
        ("(> 2 1)", Expect::Out("true")),
        ("(> 1 1)", Expect::Out("false")),
        ("(> 1 2)", Expect::Out("false")),
        ("(>= 2 1)", Expect::Out("true")),
        ("(>= 1 1)", Expect::Out("true")),
        ("(>= 1 2)", Expect::Out("false")),
        ("(< 2 1)", Expect::Out("false")),
        ("(< 1 1)", Expect::Out("false")),
        ("(< 1 2)", Expect::Out("true")),
        ("(<= 2 1)", Expect::Out("false")),
        ("(<= 1 1)", Expect::Out("true")),
        ("(<= 1 2)", Expect::Out("true")),
        ("(= 1 1)", Expect::Out("true")),
        ("(= 0 0)", Expect::Out("true")),
        ("(= 1 0)", Expect::Out("false")),
        ("(= \"\" \"\")", Expect::Out("true")),
        ("(= \"abc\" \"abc\")", Expect::Out("true")),
        ("(= \"abc\" \"\")", Expect::Out("false")),
        ("(= \"\" \"abc\")", Expect::Out("false")),
        ("(= \"abc\" \"def\")", Expect::Out("false")),
        ("(= \"abc\" \"ABC\")", Expect::Out("false")),
        ("(= (list) \"\")", Expect::Out("false")),
        ("(= \"\" (list))", Expect::Out("false")),
        ("(= (list) (list))", Expect::Out("true")),
        ("(= (list 1 2) (list 1 2))", Expect::Out("true")),
        ("(= (list 1) (list))", Expect::Out("false")),
        ("(= (list) (list 1))", Expect::Out("false")),
        ("(= 0 (list))", Expect::Out("false")),
        ("(= (list) 0)", Expect::Out("false")),
        ("(+ 1 2)", Expect::Out("3")),
        ("( (fn* (a b) (+ b a)) 3 4)", Expect::Out("7")),
        ("( (fn* () 4) )", Expect::Out("4")),
        ("( (fn* (f x) (f x)) (fn* (a) (+ 1 a)) 7)", Expect::Out("8")),
        ("( ( (fn* (a) (fn* (b) (+ a b))) 5) 7)", Expect::Out("12")),
        ("(def! gen-plus5 (fn* () (fn* (b) (+ 5 b))))", Expect::Out("#<closure () (fn* (b) (+ 5 b))>")),
        ("(def! plus5 (gen-plus5))", Expect::Out("#<closure (b) (+ 5 b)>")),
        ("(plus5 7)", Expect::Out("12")),
        ("(def! gen-plusX (fn* (x) (fn* (b) (+ x b))))", Expect::Out("#<closure (x) (fn* (b) (+ x b))>")),
        ("(def! plus7 (gen-plusX 7))", Expect::Out("#<closure (b) (+ x b)>")),
        ("(plus7 8)", Expect::Out("15")),
        ("(do (def! a 6) 7 (+ a 8))", Expect::Out("14")),
        ("a", Expect::Out("6")),
        ("(def! DO (fn* (a) 7))", Expect::Out("#<closure (a) 7>")),
        ("(DO 3)", Expect::Out("7")),
        ("(def! sumdown (fn* (N) (if (> N 0) (+ N (sumdown  (- N 1))) 0)))", Expect::Out("#<closure (N) (if (> N 0) (+ N (sumdown (- N 1))) 0)>")),
        ("(sumdown 1)", Expect::Out("1")),
        ("(sumdown 2)", Expect::Out("3")),
        ("(sumdown 6)", Expect::Out("21")),
        ("(def! fib (fn* (N) (if (= N 0) 1 (if (= N 1) 1 (+ (fib (- N 1)) (fib (- N 2)))))))", Expect::Out("#<closure (N) (if (= N 0) 1 (if (= N 1) 1 (+ (fib (- N 1)) (fib (- N 2)))))>")),
        ("(fib 1)", Expect::Out("1")),
        ("(fib 2)", Expect::Out("2")),
        ("(fib 4)", Expect::Out("5")),
        ("( (fn* (& more) (count more)) 1 2 3)", Expect::Out("3")),
        ("( (fn* (& more) (list? more)) 1 2 3)", Expect::Out("true")),
        ("( (fn* (& more) (count more)) 1)", Expect::Out("1")),
        ("( (fn* (& more) (count more)) )", Expect::Out("0")),
        ("( (fn* (& more) (list? more)) )", Expect::Out("true")),
        ("( (fn* (a & more) (count more)) 1 2 3)", Expect::Out("2")),
        ("( (fn* (a & more) (count more)) 1)", Expect::Out("0")),
        ("( (fn* (a & more) (list? more)) 1)", Expect::Out("true")),
        ("(not false)", Expect::Out("true")),
        ("(not nil)", Expect::Out("true")),
        ("(not true)", Expect::Out("false")),
        ("(not \"a\")", Expect::Out("false")),
        ("(not 0)", Expect::Out("false")),
        ("\"\"", Expect::Out("\"\"")),
        ("\"abc\"", Expect::Out("\"abc\"")),
        ("\"abc  def\"", Expect::Out("\"abc  def\"")),
        ("\"\\\"\"", Expect::Out("\"\\\"\"")),
        ("\"abc\\ndef\\nghi\"", Expect::Out("\"abc\\ndef\\nghi\"")),
        ("(prn)", Expect::Error),
        ("(prn \"\")", Expect::Out("nil")),
        ("(prn \"abc\")", Expect::Out("nil")),
        ("(= [] (list))", Expect::Out("false")),
        ("(= [7 8] [7 8])", Expect::Out("true")),
        ("(= (list 1 2) [1 2])", Expect::Out("false")),
        ("(count [1 2 3])", Expect::Out("3")),
        ("(empty? [1 2 3])", Expect::Out("false")),
        ("(empty? [])", Expect::Out("true")),
        ("(list? [4 5 6])", Expect::Out("false")),
        ("( (fn* [] 4) )", Expect::Out("4")),
        ("( (fn* [f x] (f x)) (fn* [a] (+ 1 a)) 7)", Expect::Out("8")),
        ("(= [(list)] (list []))", Expect::Out("false")),
        ("(= [1 2 (list 3 4 [5 6])] (list 1 2 [3 4 (list 5 6)]))", Expect::Out("false")),
    ];
    let lines: Vec<&str> = cases.iter().map(|(l, _)| *l).collect();
    let expected: Vec<Expect> = cases.into_iter().map(|(_, e)| e).collect();
    run_env(&lines, &expected);
}
