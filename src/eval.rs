//! The evaluator: special forms, evaluation of sequences, and application.
use crate::builtins::{builtin_call, call_builtin};
use crate::env::{bind, bind_spec, get, get_val, new, param_seq, set_symbol, with_binding, with_new_env, EnvData, Store};
use crate::text::str_eq;
use crate::types::{
    entry_views, lemma_entry_views, lemma_entry_views_push, lemma_views, lemma_views_push,
    new_list, new_mal_function, new_nil, new_vector, res_view, tail_from, views, Env,
    ErrV, MalError, MalResult, MalType, MalValue, SpecialForm, Val,
};
use std::rc::Rc;
use vstd::prelude::*;

verus! {

/// The special form that a list head names, if any.
pub open spec fn special_form(head: Val) -> Option<SpecialForm> {
    match head {
        Val::Symbol(s) => if s == seq!['d', 'e', 'f', '!'] {
            Some(SpecialForm::Def)
        } else if s == seq!['l', 'e', 't', '*'] {
            Some(SpecialForm::Let)
        } else if s == seq!['d', 'o'] {
            Some(SpecialForm::Do)
        } else if s == seq!['i', 'f'] {
            Some(SpecialForm::If)
        } else if s == seq!['f', 'n', '*'] {
            Some(SpecialForm::Fn)
        } else {
            None
        },
        _ => None,
    }
}

/// Whether a parameter form is a list or vector of symbols.
pub open spec fn is_param_form(params: Val) -> bool {
    param_seq(params) matches Some(ps) && forall|i: int| 0 <= i < ps.len() ==> (#[trigger] ps[i]) is Symbol
}

/// Whether a value counts as false in a condition.
pub open spec fn is_falsy(v: Val) -> bool {
    v is Nil || v is False
}

/// Evaluation of `ast` in environment `env` of the store `st`, with at most
/// `fuel` nested evaluations: the result and the store afterwards.
pub open spec fn eval_spec(ast: Val, st: Store, env: nat, fuel: nat) -> (Result<Val, ErrV>, Store)
    decreases fuel, 0nat, 0nat,
{
    if fuel == 0 {
        (Err(ErrV::DepthExceeded), st)
    } else {
        let f = (fuel - 1) as nat;
        match ast {
            Val::Symbol(k) => (
                match get_val(st, env, k) {
                    Some(v) => Ok(v),
                    None => Err(ErrV::SymbolNotFound(k)),
                },
                st,
            ),
            Val::Vector(items) => match eval_items(items, st, env, f, items.len()) {
                (Ok(vs), st2) => (Ok(Val::Vector(vs)), st2),
                (Err(e), st2) => (Err(e), st2),
            },
            Val::Hash(es) => match eval_entries(es, st, env, f, es.len()) {
                (Ok(vs), st2) => (Ok(Val::Hash(vs)), st2),
                (Err(e), st2) => (Err(e), st2),
            },
            Val::List(items) => if items.len() == 0 {
                (Ok(ast), st)
            } else {
                match special_form(items[0]) {
                    Some(form) => form_spec(form, items, st, env, f),
                    None => match eval_items(items, st, env, f, items.len()) {
                        (Ok(vs), st2) => apply_spec(vs[0], vs.subrange(1, vs.len() as int), st2, f),
                        (Err(e), st2) => (Err(e), st2),
                    },
                }
            },
            _ => (Ok(ast), st),
        }
    }
}

/// Evaluation of the first `n` of `items`, left to right, in `env`.
pub open spec fn eval_items(items: Seq<Val>, st: Store, env: nat, fuel: nat, n: nat) -> (Result<
    Seq<Val>,
    ErrV,
>, Store)
    decreases fuel, 1nat, n,
{
    if n == 0 || n > items.len() {
        (Ok(Seq::empty()), st)
    } else {
        match eval_items(items, st, env, fuel, (n - 1) as nat) {
            (Ok(vs), st1) => match eval_spec(items[n - 1], st1, env, fuel) {
                (Ok(v), st2) => (Ok(vs.push(v)), st2),
                (Err(e), st2) => (Err(e), st2),
            },
            (Err(e), st1) => (Err(e), st1),
        }
    }
}

/// Evaluation of the values of the first `n` entries of a hash map, left to
/// right, in `env`; keys are kept.
pub open spec fn eval_entries(es: Seq<(Seq<char>, Val)>, st: Store, env: nat, fuel: nat, n: nat) -> (Result<
    Seq<(Seq<char>, Val)>,
    ErrV,
>, Store)
    decreases fuel, 1nat, n,
{
    if n == 0 || n > es.len() {
        (Ok(Seq::empty()), st)
    } else {
        match eval_entries(es, st, env, fuel, (n - 1) as nat) {
            (Ok(vs), st1) => match eval_spec(es[n - 1].1, st1, env, fuel) {
                (Ok(v), st2) => (Ok(vs.push((es[n - 1].0, v))), st2),
                (Err(e), st2) => (Err(e), st2),
            },
            (Err(e), st1) => (Err(e), st1),
        }
    }
}

/// Evaluation of the first `n` pairs of a `let*` binding list in the new
/// environment `env`: each value is evaluated, then bound to its symbol.
pub open spec fn eval_let_pairs(bs: Seq<Val>, st: Store, env: nat, fuel: nat, n: nat) -> (Result<(), ErrV>, Store)
    decreases fuel, 1nat, n,
{
    if n == 0 || 2 * n > bs.len() {
        (Ok(()), st)
    } else {
        match eval_let_pairs(bs, st, env, fuel, (n - 1) as nat) {
            (Ok(_), st1) => match bs[2 * n - 2] {
                Val::Symbol(k) => match eval_spec(bs[2 * n - 1], st1, env, fuel) {
                    (Ok(v), st2) => (Ok(()), with_binding(st2, env, k, v)),
                    (Err(e), st2) => (Err(e), st2),
                },
                _ => (Err(ErrV::BadSpecialForm(SpecialForm::Let)), st1),
            },
            (Err(e), st1) => (Err(e), st1),
        }
    }
}

/// Evaluation of a special form `items` (head included).
pub open spec fn form_spec(form: SpecialForm, items: Seq<Val>, st: Store, env: nat, fuel: nat) -> (Result<
    Val,
    ErrV,
>, Store)
    decreases fuel, 2nat, 0nat,
{
    match form {
        SpecialForm::Def => if items.len() != 3 {
            (Err(ErrV::BadSpecialForm(form)), st)
        } else {
            match eval_spec(items[2], st, env, fuel) {
                (Ok(v), st1) => match items[1] {
                    Val::Symbol(k) => (Ok(v), with_binding(st1, env, k, v)),
                    _ => (Err(ErrV::BadSpecialForm(form)), st1),
                },
                (Err(e), st1) => (Err(e), st1),
            }
        },
        SpecialForm::Let => if items.len() != 3 {
            (Err(ErrV::BadSpecialForm(form)), st)
        } else {
            match param_seq(items[1]) {
                Some(bs) => if bs.len() % 2 != 0 {
                    (Err(ErrV::BadSpecialForm(form)), st)
                } else {
                    let inner = st.outers.len();
                    match eval_let_pairs(bs, with_new_env(st, Some(env)), inner, fuel, bs.len() / 2) {
                        (Ok(_), st1) => eval_spec(items[2], st1, inner, fuel),
                        (Err(e), st1) => (Err(e), st1),
                    }
                },
                None => (Err(ErrV::BadSpecialForm(form)), st),
            }
        },
        SpecialForm::Do => {
            let rest = items.subrange(1, items.len() as int);
            match eval_items(rest, st, env, fuel, rest.len()) {
                (Ok(vs), st1) => (Ok(if vs.len() == 0 { Val::Nil } else { vs.last() }), st1),
                (Err(e), st1) => (Err(e), st1),
            }
        },
        SpecialForm::If => if items.len() != 3 && items.len() != 4 {
            (Err(ErrV::BadSpecialForm(form)), st)
        } else {
            match eval_spec(items[1], st, env, fuel) {
                (Ok(c), st1) => if is_falsy(c) {
                    if items.len() == 4 {
                        eval_spec(items[3], st1, env, fuel)
                    } else {
                        (Ok(Val::Nil), st1)
                    }
                } else {
                    eval_spec(items[2], st1, env, fuel)
                },
                (Err(e), st1) => (Err(e), st1),
            }
        },
        SpecialForm::Fn => if items.len() != 3 || !is_param_form(items[1]) {
            (Err(ErrV::BadSpecialForm(form)), st)
        } else {
            (Ok(Val::Closure { env, params: Box::new(items[1]), body: Box::new(items[2]) }), st)
        },
    }
}

/// Application of `f` to `args`.
pub open spec fn apply_spec(f: Val, args: Seq<Val>, st: Store, fuel: nat) -> (Result<Val, ErrV>, Store)
    decreases fuel, 3nat, 0nat,
{
    match f {
        Val::Native { function, arity, name } => match arity {
            Some(n) => if args.len() != n {
                (Err(ErrV::WrongArity(name, n, args.len())), st)
            } else {
                builtin_call(function, args, st)
            },
            None => builtin_call(function, args, st),
        },
        Val::Closure { env, params, body } => if env >= st.outers.len() {
            (Err(ErrV::NotCallable), st)
        } else {
            match bind_spec(st, env, *params, Val::List(args)) {
                Ok((st1, inner)) => eval_spec(*body, st1, inner, fuel),
                Err(e) => (Err(e), st),
            }
        },
        _ => (Err(ErrV::NotCallable), st),
    }
}


proof fn lemma_items_err(items: Seq<Val>, st: Store, env: nat, fuel: nat, k: nat, m: nat)
    requires
        k <= m <= items.len(),
        eval_items(items, st, env, fuel, k).0 is Err,
    ensures
        eval_items(items, st, env, fuel, m) == eval_items(items, st, env, fuel, k),
    decreases m,
{
    if m > k {
        lemma_items_err(items, st, env, fuel, k, (m - 1) as nat);
    }
}

proof fn lemma_entries_err(
    es: Seq<(Seq<char>, Val)>,
    st: Store,
    env: nat,
    fuel: nat,
    k: nat,
    m: nat,
)
    requires
        k <= m <= es.len(),
        eval_entries(es, st, env, fuel, k).0 is Err,
    ensures
        eval_entries(es, st, env, fuel, m) == eval_entries(es, st, env, fuel, k),
    decreases m,
{
    if m > k {
        lemma_entries_err(es, st, env, fuel, k, (m - 1) as nat);
    }
}

proof fn lemma_let_err(bs: Seq<Val>, st: Store, env: nat, fuel: nat, k: nat, m: nat)
    requires
        k <= m,
        2 * m <= bs.len(),
        eval_let_pairs(bs, st, env, fuel, k).0 is Err,
    ensures
        eval_let_pairs(bs, st, env, fuel, m) == eval_let_pairs(bs, st, env, fuel, k),
    decreases m,
{
    if m > k {
        lemma_let_err(bs, st, env, fuel, k, (m - 1) as nat);
    }
}

/// Model of the result of evaluating a sequence.
pub open spec fn seq_res_view(r: Result<Vec<MalValue>, MalError>) -> Result<Seq<Val>, ErrV> {
    match r {
        Ok(v) => Ok(views(v@)),
        Err(e) => Err(e@),
    }
}

/// Model of the result of evaluating the entries of a hash map.
pub open spec fn entries_res_view(r: Result<Vec<(String, MalValue)>, MalError>) -> Result<
    Seq<(Seq<char>, Val)>,
    ErrV,
> {
    match r {
        Ok(v) => Ok(entry_views(v@)),
        Err(e) => Err(e@),
    }
}

/// The special form named by a list head.
fn special_form_of(head: &MalType) -> (r: Option<SpecialForm>)
    ensures
        r == special_form(head@),
{
    match head {
        MalType::Symbol(s) => {
            proof {
                reveal_strlit("def!");
                reveal_strlit("let*");
                reveal_strlit("do");
                reveal_strlit("if");
                reveal_strlit("fn*");
                assert("def!"@ =~= seq!['d', 'e', 'f', '!']);
                assert("let*"@ =~= seq!['l', 'e', 't', '*']);
                assert("do"@ =~= seq!['d', 'o']);
                assert("if"@ =~= seq!['i', 'f']);
                assert("fn*"@ =~= seq!['f', 'n', '*']);
            }
            if str_eq(s.as_str(), "def!") {
                Some(SpecialForm::Def)
            } else if str_eq(s.as_str(), "let*") {
                Some(SpecialForm::Let)
            } else if str_eq(s.as_str(), "do") {
                Some(SpecialForm::Do)
            } else if str_eq(s.as_str(), "if") {
                Some(SpecialForm::If)
            } else if str_eq(s.as_str(), "fn*") {
                Some(SpecialForm::Fn)
            } else {
                None
            }
        },
        _ => None,
    }
}

/// Whether `params` is a list or vector of symbols.
fn params_are_symbols(params: &MalValue) -> (r: bool)
    ensures
        r == is_param_form((**params)@),
{
    let ps = match &**params {
        MalType::List(s) => s,
        MalType::Vector(s) => s,
        _ => {
            return false;
        },
    };
    proof {
        lemma_views(ps@);
    }
    let mut i: usize = 0;
    while i < ps.len()
        invariant
            i <= ps@.len(),
            views(ps@).len() == ps@.len(),
            forall|m: int| 0 <= m < ps@.len() ==> #[trigger] views(ps@)[m] == (*ps@[m])@,
            forall|m: int| 0 <= m < i ==> (#[trigger] views(ps@)[m]) is Symbol,
            param_seq((**params)@) == Some(views(ps@)),
        decreases ps@.len() - i,
    {
        match &*ps[i] {
            MalType::Symbol(_) => {},
            _ => {
                assert(!((views(ps@)[i as int]) is Symbol));
                return false;
            },
        }
        i = i + 1;
    }
    true
}

/// Evaluate each of `items` in `env`, left to right.
fn eval_seq(items: &Vec<MalValue>, env: Env, envs: &mut EnvData, fuel: u64) -> (r: Result<
    Vec<MalValue>,
    MalError,
>)
    requires
        env < old(envs)@.outers.len(),
    ensures
        old(envs)@.outers.len() <= final(envs)@.outers.len(),
        (seq_res_view(r), final(envs)@) == eval_items(
            views(items@),
            old(envs)@,
            env as nat,
            fuel as nat,
            items@.len(),
        ),
    decreases fuel, 1nat, items@.len(),
{
    proof {
        crate::laws::lemma_items_keeps(views(items@), old(envs)@, env as nat, fuel as nat, items@.len());
    }
    let ghost vi = views(items@);
    proof {
        lemma_views(items@);
    }
    let mut out: Vec<MalValue> = Vec::new();
    let mut i: usize = 0;
    assert(views(out@) =~= Seq::<Val>::empty());
    while i < items.len()
        invariant
            i <= items@.len(),
            vi == views(items@),
            vi.len() == items@.len(),
            forall|m: int| 0 <= m < items@.len() ==> #[trigger] vi[m] == (*items@[m])@,
            env < envs@.outers.len(),
            old(envs)@.outers.len() <= envs@.outers.len(),
            eval_items(vi, old(envs)@, env as nat, fuel as nat, i as nat) == (
                Ok::<Seq<Val>, ErrV>(views(out@)),
                envs@,
            ),
        decreases items@.len() - i,
    {
        let v = eval(&items[i], env, envs, fuel);
        match v {
            Ok(x) => {
                proof {
                    lemma_views_push(out@, x);
                }
                out.push(x);
            },
            Err(e) => {
                proof {
                    lemma_items_err(vi, old(envs)@, env as nat, fuel as nat, (i + 1) as nat, items@.len());
                }
                return Err(e);
            },
        }
        i = i + 1;
    }
    Ok(out)
}

/// Evaluate the values of the entries of a hash map in `env`, left to right.
fn eval_hash(entries: &Vec<(String, MalValue)>, env: Env, envs: &mut EnvData, fuel: u64) -> (r: Result<
    Vec<(String, MalValue)>,
    MalError,
>)
    requires
        env < old(envs)@.outers.len(),
    ensures
        old(envs)@.outers.len() <= final(envs)@.outers.len(),
        (entries_res_view(r), final(envs)@) == eval_entries(
            entry_views(entries@),
            old(envs)@,
            env as nat,
            fuel as nat,
            entries@.len(),
        ),
    decreases fuel, 1nat, entries@.len(),
{
    proof {
        crate::laws::lemma_entries_keeps(entry_views(entries@), old(envs)@, env as nat, fuel as nat, entries@.len());
    }
    let ghost ve = entry_views(entries@);
    proof {
        lemma_entry_views(entries@);
    }
    let mut out: Vec<(String, MalValue)> = Vec::new();
    let mut i: usize = 0;
    assert(entry_views(out@) =~= Seq::<(Seq<char>, Val)>::empty());
    while i < entries.len()
        invariant
            i <= entries@.len(),
            ve == entry_views(entries@),
            ve.len() == entries@.len(),
            forall|m: int| 0 <= m < entries@.len() ==> #[trigger] ve[m] == (entries@[m].0@, (*entries@[m].1)@),
            env < envs@.outers.len(),
            old(envs)@.outers.len() <= envs@.outers.len(),
            eval_entries(ve, old(envs)@, env as nat, fuel as nat, i as nat) == (
                Ok::<Seq<(Seq<char>, Val)>, ErrV>(entry_views(out@)),
                envs@,
            ),
        decreases entries@.len() - i,
    {
        let v = eval(&entries[i].1, env, envs, fuel);
        match v {
            Ok(x) => {
                let entry = (entries[i].0.clone(), x);
                proof {
                    lemma_entry_views_push(out@, entry);
                }
                out.push(entry);
            },
            Err(e) => {
                proof {
                    lemma_entries_err(ve, old(envs)@, env as nat, fuel as nat, (i + 1) as nat, entries@.len());
                }
                return Err(e);
            },
        }
        i = i + 1;
    }
    Ok(out)
}

/// Evaluate the pairs of a `let*` binding list in the new environment `env`.
fn eval_let_bindings(bs: &Vec<MalValue>, env: Env, envs: &mut EnvData, fuel: u64) -> (r: Result<
    (),
    MalError,
>)
    requires
        bs@.len() % 2 == 0,
        env < old(envs)@.outers.len(),
    ensures
        old(envs)@.outers.len() <= final(envs)@.outers.len(),
        (match r {
            Ok(_) => Ok::<(), ErrV>(()),
            Err(e) => Err(e@),
        }, final(envs)@) == eval_let_pairs(
            views(bs@),
            old(envs)@,
            env as nat,
            fuel as nat,
            bs@.len() / 2,
        ),
    decreases fuel, 1nat, bs@.len(),
{
    proof {
        crate::laws::lemma_let_pairs_keeps(views(bs@), old(envs)@, env as nat, fuel as nat, bs@.len() / 2);
    }
    let ghost vb = views(bs@);
    proof {
        lemma_views(bs@);
    }
    let mut k: usize = 0;
    while k < bs.len() / 2
        invariant
            bs@.len() % 2 == 0,
            k <= bs@.len() / 2,
            vb == views(bs@),
            vb.len() == bs@.len(),
            forall|m: int| 0 <= m < bs@.len() ==> #[trigger] vb[m] == (*bs@[m])@,
            env < envs@.outers.len(),
            old(envs)@.outers.len() <= envs@.outers.len(),
            eval_let_pairs(vb, old(envs)@, env as nat, fuel as nat, k as nat) == (
                Ok::<(), ErrV>(()),
                envs@,
            ),
        decreases bs@.len() / 2 - k,
    {
        match &*bs[2 * k] {
            MalType::Symbol(name) => {
                let v = eval(&bs[2 * k + 1], env, envs, fuel);
                match v {
                    Ok(x) => {
                        set_symbol(envs, env, name.clone(), x);
                    },
                    Err(e) => {
                        proof {
                            lemma_let_err(vb, old(envs)@, env as nat, fuel as nat, (k + 1) as nat, bs@.len() / 2);
                        }
                        return Err(e);
                    },
                }
            },
            _ => {
                proof {
                    lemma_let_err(vb, old(envs)@, env as nat, fuel as nat, (k + 1) as nat, bs@.len() / 2);
                }
                return Err(MalError::BadSpecialForm(SpecialForm::Let));
            },
        }
        k = k + 1;
    }
    Ok(())
}

/// Evaluate the special form `items` (head included) in `env`.
fn eval_form(form: SpecialForm, items: &Vec<MalValue>, env: Env, envs: &mut EnvData, fuel: u64) -> (r: MalResult)
    requires
        items@.len() >= 1,
        env < old(envs)@.outers.len(),
    ensures
        old(envs)@.outers.len() <= final(envs)@.outers.len(),
        (res_view(r), final(envs)@) == form_spec(form, views(items@), old(envs)@, env as nat, fuel as nat),
    decreases fuel, 2nat, 0nat,
{
    proof {
        crate::laws::lemma_form_keeps(form, views(items@), old(envs)@, env as nat, fuel as nat);
    }
    proof {
        lemma_views(items@);
    }
    match form {
        SpecialForm::Def => {
            if items.len() != 3 {
                return Err(MalError::BadSpecialForm(form));
            }
            let value = match eval(&items[2], env, envs, fuel) {
                Ok(x) => x,
                Err(e) => {
                    return Err(e);
                },
            };
            match &*items[1] {
                MalType::Symbol(name) => {
                    set_symbol(envs, env, name.clone(), value.clone());
                    Ok(value)
                },
                _ => Err(MalError::BadSpecialForm(form)),
            }
        },
        SpecialForm::Let => {
            if items.len() != 3 {
                return Err(MalError::BadSpecialForm(form));
            }
            let bs = match &*items[1] {
                MalType::List(s) => s,
                MalType::Vector(s) => s,
                _ => {
                    return Err(MalError::BadSpecialForm(form));
                },
            };
            proof {
                lemma_views(bs@);
            }
            if bs.len() % 2 != 0 {
                return Err(MalError::BadSpecialForm(form));
            }
            let inner = new(envs, Some(env));
            match eval_let_bindings(bs, inner, envs, fuel) {
                Ok(_) => {},
                Err(e) => {
                    return Err(e);
                },
            }
            eval(&items[2], inner, envs, fuel)
        },
        SpecialForm::Do => {
            let rest = tail_from(items, 1);
            let vs = match eval_seq(&rest, env, envs, fuel) {
                Ok(x) => x,
                Err(e) => {
                    return Err(e);
                },
            };
            proof {
                lemma_views(vs@);
            }
            if vs.len() == 0 {
                Ok(new_nil())
            } else {
                Ok(vs[vs.len() - 1].clone())
            }
        },
        SpecialForm::If => {
            if items.len() != 3 && items.len() != 4 {
                return Err(MalError::BadSpecialForm(form));
            }
            let c = match eval(&items[1], env, envs, fuel) {
                Ok(x) => x,
                Err(e) => {
                    return Err(e);
                },
            };
            match &*c {
                MalType::Nil | MalType::False => {
                    if items.len() == 4 {
                        eval(&items[3], env, envs, fuel)
                    } else {
                        Ok(new_nil())
                    }
                },
                _ => eval(&items[2], env, envs, fuel),
            }
        },
        SpecialForm::Fn => {
            if items.len() != 3 {
                return Err(MalError::BadSpecialForm(form));
            }
            if !params_are_symbols(&items[1]) {
                return Err(MalError::BadSpecialForm(form));
            }
            Ok(new_mal_function(env, items[1].clone(), items[2].clone()))
        },
    }
}

/// Evaluate `ast` in environment `env`, with at most `fuel` nested evaluations.
pub fn eval(ast: &MalValue, env: Env, envs: &mut EnvData, fuel: u64) -> (r: MalResult)
    requires
        env < old(envs)@.outers.len(),
    ensures
        old(envs)@.outers.len() <= final(envs)@.outers.len(),
        (res_view(r), final(envs)@) == eval_spec((**ast)@, old(envs)@, env as nat, fuel as nat),
    decreases fuel, 0nat, 0nat,
{
    proof {
        crate::laws::lemma_eval_keeps((**ast)@, old(envs)@, env as nat, fuel as nat);
    }
    if fuel == 0 {
        return Err(MalError::DepthExceeded);
    }
    let f = fuel - 1;
    match &**ast {
        MalType::Symbol(_) => get(envs, env, ast),
        MalType::Vector(items) => {
            proof {
                lemma_views(items@);
            }
            let vs = match eval_seq(items, env, envs, f) {
                Ok(x) => x,
                Err(e) => {
                    return Err(e);
                },
            };
            Ok(new_vector(vs))
        },
        MalType::Hash(entries) => {
            proof {
                lemma_entry_views(entries@);
            }
            let es = match eval_hash(entries, env, envs, f) {
                Ok(x) => x,
                Err(e) => {
                    return Err(e);
                },
            };
            Ok(Rc::new(MalType::Hash(es)))
        },
        MalType::List(items) => {
            proof {
                lemma_views(items@);
            }
            if items.len() == 0 {
                return Ok(ast.clone());
            }
            match special_form_of(&items[0]) {
                Some(form) => eval_form(form, items, env, envs, f),
                None => {
                    let vs = match eval_seq(items, env, envs, f) {
                        Ok(x) => x,
                        Err(e) => {
                            return Err(e);
                        },
                    };
                    proof {
                        lemma_views(vs@);
                    }
                    let args = tail_from(&vs, 1);
                    vs[0].apply(args, envs, f)
                },
            }
        },
        _ => Ok(ast.clone()),
    }
}

impl MalType {
    /// If this value is a function, apply it to the given arguments.
    pub fn apply(&self, args: Vec<MalValue>, envs: &mut EnvData, fuel: u64) -> (r: MalResult)
        ensures
            (res_view(r), final(envs)@) == apply_spec(self@, views(args@), old(envs)@, fuel as nat),
            old(envs)@.outers.len() <= final(envs)@.outers.len(),
        decreases fuel, 3nat, 0nat,
    {
        proof {
            crate::laws::lemma_apply_keeps(self@, views(args@), old(envs)@, fuel as nat);
        }
        proof {
            lemma_views(args@);
        }
        match self {
            MalType::Function(data) => {
                match data.arity {
                    Some(n) => {
                        if args.len() != n {
                            return Err(MalError::WrongArity(data.name.clone(), n, args.len()));
                        }
                    },
                    None => {},
                }
                call_builtin(data.function, &args, envs)
            },
            MalType::MalFunction(data) => {
                if data.env >= envs.len() {
                    return Err(MalError::NotCallable);
                }
                let exprs = new_list(args);
                let inner = match bind(envs, data.env, &data.args, &exprs) {
                    Ok(x) => x,
                    Err(e) => {
                        return Err(e);
                    },
                };
                eval(&data.exp, inner, envs, fuel)
            },
            _ => Err(MalError::NotCallable),
        }
    }
}

} // verus!
