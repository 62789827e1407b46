//! One turn of the read-eval-print protocol, the root environment, and the
//! text of error messages.
use crate::builtins::{builtin_name, builtin_name_string, core_builtins, native_of, ns};
use crate::env::{new, set_symbol, with_binding, with_new_env, EnvData, Store};
use crate::eval::{eval, eval_spec};
use crate::printer::pr_val;
use crate::reader::{read_spec, read_str};
use crate::text::{nat_text, push_nat, push_str, string_from_chars};
use crate::types::{Env, ErrV, MalError, SpecialForm};
use vstd::prelude::*;

verus! {

/// The most nested evaluations one turn may make; deeper recursion fails
/// with `DepthExceeded` instead of exhausting the host stack. A call of a
/// user-defined function takes about four nested evaluations (the call, its
/// body, a condition or argument, the recursive call), so a self-recursive
/// function can go about 100 calls deep.
pub const MAX_DEPTH: u64 = 400;

/// The outcome of one turn on `input` in environment `env`: the printed
/// (readable) result or the error, and the store afterwards.
pub open spec fn rep_spec(input: Seq<char>, st: Store, env: nat) -> (Result<Seq<char>, ErrV>, Store) {
    match read_spec(input) {
        Err(e) => (Err(e), st),
        Ok(ast) => match eval_spec(ast, st, env, MAX_DEPTH as nat) {
            (Ok(v), st1) => (Ok(pr_val(v, true)), st1),
            (Err(e), st1) => (Err(e), st1),
        },
    }
}

/// Model of the result of one turn.
pub open spec fn rep_view(r: Result<String, MalError>) -> Result<Seq<char>, ErrV> {
    match r {
        Ok(s) => Ok(s@),
        Err(e) => Err(e@),
    }
}

/// Read, evaluate in `env`, and print readably.
pub fn rep(input: &str, env: Env, envs: &mut EnvData) -> (r: Result<String, MalError>)
    requires
        env < old(envs)@.outers.len(),
    ensures
        env < final(envs)@.outers.len(),
        (rep_view(r), final(envs)@) == rep_spec(input@, old(envs)@, env as nat),
        old(envs).wf() ==> final(envs).wf(),
{
    let ast = match read_str(input) {
        Ok(a) => a,
        Err(e) => {
            return Err(e);
        },
    };
    proof {
        crate::laws::lemma_eval_keeps((*ast)@, old(envs)@, env as nat, MAX_DEPTH as nat);
    }
    match eval(&ast, env, envs, MAX_DEPTH) {
        Ok(v) => Ok(v.pr_str(true)),
        Err(e) => Err(e),
    }
}

/// Read and print readably, without evaluating.
pub fn rep_read_print(input: &str) -> (r: Result<String, MalError>)
    ensures
        rep_view(r) == match read_spec(input@) {
            Ok(v) => Ok(pr_val(v, true)),
            Err(e) => Err::<Seq<char>, ErrV>(e),
        },
{
    match read_str(input) {
        Ok(v) => Ok(v.pr_str(true)),
        Err(e) => Err(e),
    }
}

/// Echo the input: `ErrEmptyLine` when it is empty.
pub fn rep_echo(input: &str) -> (r: Result<String, MalError>)
    ensures
        input@.len() == 0 ==> r matches Err(MalError::ErrEmptyLine),
        input@.len() > 0 ==> (r matches Ok(s) && s@ == input@),
{
    let cs = crate::text::chars_of(input);
    if cs.len() == 0 {
        Err(MalError::ErrEmptyLine)
    } else {
        Ok(string_from_chars(&cs))
    }
}

/// The store after binding the core namespace in the new environment `e`.
pub open spec fn with_core(st: Store, e: nat, n: nat) -> Store
    decreases n,
{
    if n == 0 {
        st
    } else {
        let b = core_builtins()[n - 1];
        with_binding(with_core(st, e, (n - 1) as nat), e, builtin_name(b), native_of(b))
    }
}

/// The line evaluated in a new root environment so that `not` is defined.
pub open spec fn bootstrap_text() -> Seq<char> {
    "(def! not (fn* (x) (if x false true)))"@
}

/// The outcome of `create_env`: the root environment `e` gets the core
/// namespace, then the bootstrap line is evaluated in it.
pub open spec fn create_env_spec(st: Store) -> (Result<nat, ErrV>, Store) {
    let e = st.outers.len();
    let seeded = with_core(with_new_env(st, None), e, core_builtins().len());
    match rep_spec(bootstrap_text(), seeded, e) {
        (Ok(_), st1) => (Ok(e), st1),
        (Err(err), st1) => (Err(err), st1),
    }
}

/// Create the root environment of a REPL: the core namespace, and `not`.
pub fn create_env(envs: &mut EnvData) -> (r: Result<Env, MalError>)
    ensures
        match create_env_spec(old(envs)@) {
            (Ok(e), st) => r matches Ok(x) && x as nat == e && final(envs)@ == st,
            (Err(err), st) => r matches Err(x) && x@ == err && final(envs)@ == st,
        },
        r matches Ok(x) ==> x < final(envs)@.outers.len(),
        old(envs).wf() ==> final(envs).wf(),
{
    let env = new(envs, None);
    let core = ns();
    let mut i: usize = 0;
    while i < core.len()
        invariant
            i <= core@.len(),
            core@.len() == core_builtins().len(),
            forall|j: int|
                0 <= j < core@.len() ==> #[trigger] core@[j].0@ == builtin_name(core_builtins()[j])
                    && (*core@[j].1)@ == native_of(core_builtins()[j]),
            envs@ == with_core(with_new_env(old(envs)@, None), env as nat, i as nat),
            old(envs).wf() ==> envs.wf(),
            env < envs@.outers.len(),
        decreases core@.len() - i,
    {
        set_symbol(envs, env, core[i].0.clone(), core[i].1.clone());
        i = i + 1;
    }
    match rep("(def! not (fn* (x) (if x false true)))", env, envs) {
        Ok(_) => Ok(env),
        Err(e) => Err(e),
    }
}

/// Text of an error message.
pub open spec fn err_text(e: ErrV) -> Seq<char> {
    match e {
        ErrV::EmptyLine => "empty line"@,
        ErrV::Message(s) => s,
        ErrV::UnexpectedDelimiter(c) => "unexpected '"@ + seq![c] + "'"@,
        ErrV::UnbalancedDelimiter(c) => "expected '"@ + seq![c] + "', got EOF"@,
        ErrV::UnterminatedString => "unbalanced string literal, got EOF"@,
        ErrV::BadInteger(s) => "integer out of range: "@ + s,
        ErrV::BadHash => "hash map literal needs string keys, each with a value"@,
        ErrV::SymbolNotFound(s) => "'"@ + s + "' not found"@,
        ErrV::BadSpecialForm(f) => "bad form: "@ + form_name(f),
        ErrV::NonSymbolBinding => "non-symbol binding"@,
        ErrV::MissingVariadic => "missing a symbol after '&'"@,
        ErrV::NotEnoughArgs => "not enough arguments"@,
        ErrV::WrongArity(n, x, g) => "wrong arity for "@ + n + ": expected "@ + nat_text(x)
            + ", got "@ + nat_text(g),
        ErrV::TypeError(b) => "wrong argument type for "@ + builtin_name(b),
        ErrV::DivByZero => "division by zero"@,
        ErrV::Overflow => "integer overflow"@,
        ErrV::NotCallable => "cannot call a non-function"@,
        ErrV::DepthExceeded => "evaluation nested too deep"@,
    }
}

/// Name of a special form.
pub open spec fn form_name(f: SpecialForm) -> Seq<char> {
    match f {
        SpecialForm::Def => "def!"@,
        SpecialForm::Let => "let*"@,
        SpecialForm::Do => "do"@,
        SpecialForm::If => "if"@,
        SpecialForm::Fn => "fn*"@,
    }
}

impl MalError {
    /// The message shown for this error.
    pub fn message(&self) -> (r: String)
        ensures
            r@ == err_text(self@),
    {
        let mut buf: Vec<char> = Vec::new();
        match self {
            MalError::ErrEmptyLine => push_str(&mut buf, "empty line"),
            MalError::ErrString(s) => push_str(&mut buf, s.as_str()),
            MalError::UnexpectedDelimiter(c) => {
                push_str(&mut buf, "unexpected '");
                buf.push(*c);
                push_str(&mut buf, "'");
            },
            MalError::UnbalancedDelimiter(c) => {
                push_str(&mut buf, "expected '");
                buf.push(*c);
                push_str(&mut buf, "', got EOF");
            },
            MalError::UnterminatedString => push_str(&mut buf, "unbalanced string literal, got EOF"),
            MalError::BadInteger(s) => {
                push_str(&mut buf, "integer out of range: ");
                push_str(&mut buf, s.as_str());
            },
            MalError::BadHash => push_str(&mut buf, "hash map literal needs string keys, each with a value"),
            MalError::SymbolNotFound(s) => {
                push_str(&mut buf, "'");
                push_str(&mut buf, s.as_str());
                push_str(&mut buf, "' not found");
            },
            MalError::BadSpecialForm(f) => {
                push_str(&mut buf, "bad form: ");
                match f {
                    SpecialForm::Def => push_str(&mut buf, "def!"),
                    SpecialForm::Let => push_str(&mut buf, "let*"),
                    SpecialForm::Do => push_str(&mut buf, "do"),
                    SpecialForm::If => push_str(&mut buf, "if"),
                    SpecialForm::Fn => push_str(&mut buf, "fn*"),
                }
            },
            MalError::NonSymbolBinding => push_str(&mut buf, "non-symbol binding"),
            MalError::MissingVariadic => push_str(&mut buf, "missing a symbol after '&'"),
            MalError::NotEnoughArgs => push_str(&mut buf, "not enough arguments"),
            MalError::WrongArity(n, x, g) => {
                push_str(&mut buf, "wrong arity for ");
                push_str(&mut buf, n.as_str());
                push_str(&mut buf, ": expected ");
                push_nat(&mut buf, *x as u64);
                push_str(&mut buf, ", got ");
                push_nat(&mut buf, *g as u64);
            },
            MalError::TypeError(b) => {
                push_str(&mut buf, "wrong argument type for ");
                let name = builtin_name_string(*b);
                push_str(&mut buf, name.as_str());
            },
            MalError::DivByZero => push_str(&mut buf, "division by zero"),
            MalError::Overflow => push_str(&mut buf, "integer overflow"),
            MalError::NotCallable => push_str(&mut buf, "cannot call a non-function"),
            MalError::DepthExceeded => push_str(&mut buf, "evaluation nested too deep"),
        }
        assert(buf@ =~= err_text(self@));
        string_from_chars(&buf)
    }
}

} // verus!
