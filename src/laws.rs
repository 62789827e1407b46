//! Laws of the interpreter that hold for all inputs, proved over the models.
use crate::builtins::{builtin_call, items_eq, val_eq};
use crate::env::{
    amp, bind_pairs, bind_spec, binding_index, find_env, get_val, lemma_with_binding_wf,
    lookup_local, param_seq, store_wf, with_binding, with_bindings, with_new_env, Store,
};
use crate::eval::{
    apply_spec, eval_entries, eval_items, eval_let_pairs, eval_spec, form_spec, special_form,
};
use crate::types::{ErrV, SpecialForm, Val};
use vstd::prelude::*;

verus! {

/// Lookup shadowing: in a chain of environments `root <- a <- b`, the value
/// of a symbol seen from `b` is its binding in `b`, else in `a`, else in `root`.
pub proof fn lemma_lookup_shadowing(st: Store, root: nat, a: nat, b: nat, k: Seq<char>)
    requires
        root < a < b < st.outers.len(),
        st.outers[b as int] == Some(a),
        st.outers[a as int] == Some(root),
        st.outers[root as int] is None,
    ensures
        get_val(st, b, k) == if lookup_local(st, b, k) is Some {
            lookup_local(st, b, k)
        } else if lookup_local(st, a, k) is Some {
            lookup_local(st, a, k)
        } else {
            lookup_local(st, root, k)
        },
{
    assert(find_env(st, root, k) == if lookup_local(st, root, k) is Some {
        Some(root)
    } else {
        None::<nat>
    });
    assert(find_env(st, a, k) == if lookup_local(st, a, k) is Some {
        Some(a)
    } else {
        find_env(st, root, k)
    });
    assert(find_env(st, b, k) == if lookup_local(st, b, k) is Some {
        Some(b)
    } else {
        find_env(st, a, k)
    });
}

/// The lookups of `e`'s own bindings are the same in both stores.
pub open spec fn same_frame(st: Store, st2: Store, e: nat) -> bool {
    forall|k: Seq<char>| #[trigger] lookup_local(st2, e, k) == lookup_local(st, e, k)
}

/// `st2` extends `st`: the outer links of the environments of `st` are kept,
/// and so are their bindings, but for those of environment `x`; and when `st`
/// is well-formed and `x` is one of its environments (or none, below 0), so
/// is `st2`.
pub open spec fn keeps(st: Store, st2: Store, x: int) -> bool {
    &&& store_wf(st) && x < st.outers.len() ==> store_wf(st2)
    &&& st.outers.len() <= st2.outers.len()
    &&& forall|e: int| 0 <= e < st.outers.len() ==> #[trigger] st2.outers[e] == st.outers[e]
    &&& forall|e: nat| e < st.outers.len() && e != x ==> #[trigger] same_frame(st, st2, e)
}

proof fn lemma_keeps_trans(a: Store, b: Store, c: Store, x: int, y: int)
    requires
        keeps(a, b, x),
        keeps(b, c, y),
        y == x || y >= a.outers.len() || y < 0,
        x >= a.outers.len() || y < b.outers.len(),
    ensures
        keeps(a, c, x),
{
    assert forall|e: nat| e < a.outers.len() && e != x implies #[trigger] same_frame(a, c, e) by {
        assert(same_frame(a, b, e));
        assert(same_frame(b, c, e));
    }
}

proof fn lemma_binding_index_push(b: Seq<(nat, Seq<char>, Val)>, x: (nat, Seq<char>, Val), e: nat, k: Seq<char>)
    ensures
        binding_index(b.push(x), e, k) == if x.0 == e && x.1 == k {
            Some(b.len() as int)
        } else {
            binding_index(b, e, k)
        },
{
    assert(b.push(x).drop_last() =~= b);
}

proof fn lemma_binding_index_update(b: Seq<(nat, Seq<char>, Val)>, j: int, v: Val, e: nat, k: Seq<char>)
    requires
        0 <= j < b.len(),
    ensures
        binding_index(b.update(j, (b[j].0, b[j].1, v)), e, k) == binding_index(b, e, k),
    decreases b.len(),
{
    let b2 = b.update(j, (b[j].0, b[j].1, v));
    if j < b.len() - 1 {
        assert(b2.drop_last() =~= b.drop_last().update(j, (b[j].0, b[j].1, v)));
        lemma_binding_index_update(b.drop_last(), j, v, e, k);
    }
    else {
        assert(b2.drop_last() =~= b.drop_last());
    }
}

proof fn lemma_binding_index_found(b: Seq<(nat, Seq<char>, Val)>, e: nat, k: Seq<char>)
    ensures
        binding_index(b, e, k) matches Some(j) ==> 0 <= j < b.len() && b[j].0 == e && b[j].1 == k,
    decreases b.len(),
{
    if b.len() > 0 {
        lemma_binding_index_found(b.drop_last(), e, k);
    }
}

/// Binding `k` in `e` changes the lookup of `k` in `e` only.
pub proof fn lemma_with_binding(st: Store, e: nat, k: Seq<char>, v: Val)
    ensures
        keeps(st, with_binding(st, e, k, v), e as int),
        with_binding(st, e, k, v).outers == st.outers,
        lookup_local(with_binding(st, e, k, v), e, k) == Some(v),
        forall|k2: Seq<char>| k2 != k ==> #[trigger] lookup_local(with_binding(st, e, k, v), e, k2) == lookup_local(st, e, k2),
{
    let st2 = with_binding(st, e, k, v);
    if store_wf(st) && e < st.outers.len() {
        lemma_with_binding_wf(st, e, k, v);
    }
    lemma_binding_index_found(st.binds, e, k);
    assert forall|e2: nat, k2: Seq<char>| (e2 != e || k2 != k) implies #[trigger] lookup_local(
        st2,
        e2,
        k2,
    ) == lookup_local(st, e2, k2) by {
        lemma_binding_index_found(st.binds, e2, k2);
        match binding_index(st.binds, e, k) {
            Some(j) => {
                lemma_binding_index_update(st.binds, j, v, e2, k2);
            },
            None => {
                lemma_binding_index_push(st.binds, (e, k, v), e2, k2);
            },
        }
    }
    match binding_index(st.binds, e, k) {
        Some(j) => {
            lemma_binding_index_update(st.binds, j, v, e, k);
        },
        None => {
            lemma_binding_index_push(st.binds, (e, k, v), e, k);
        },
    }
    assert forall|e2: nat| e2 < st.outers.len() && e2 != e implies #[trigger] same_frame(st, st2, e2) by {
        assert forall|k2: Seq<char>| #[trigger] lookup_local(st2, e2, k2) == lookup_local(st, e2, k2) by {
        }
    }
}


proof fn lemma_keeps_weaken(a: Store, b: Store, x: int, y: int)
    requires
        keeps(a, b, x),
        x < 0,
    ensures
        keeps(a, b, y),
{
}

proof fn lemma_with_new_env(st: Store, o: Option<nat>, x: int)
    requires
        (o matches Some(p) ==> p < st.outers.len()) || x >= st.outers.len(),
        x < 0 || x >= st.outers.len(),
    ensures
        keeps(st, with_new_env(st, o), x),
        with_new_env(st, o).outers.len() == st.outers.len() + 1,
{
    let st2 = with_new_env(st, o);
    assert forall|e: nat| e < st.outers.len() && e != x implies #[trigger] same_frame(st, st2, e) by {
        assert forall|k: Seq<char>| #[trigger] lookup_local(st2, e, k) == lookup_local(st, e, k) by {}
    }
    if store_wf(st) && x < st.outers.len() {
        assert forall|e: int| 0 <= e < st2.outers.len() implies (#[trigger] st2.outers[e] matches Some(p) ==> p < e) by {
            if e < st.outers.len() {
                assert(st2.outers[e] == st.outers[e]);
            }
        }
    }
}

proof fn lemma_with_bindings(st: Store, e: nat, pairs: Seq<(Seq<char>, Val)>)
    ensures
        keeps(st, with_bindings(st, e, pairs), e as int),
        with_bindings(st, e, pairs).outers == st.outers,
    decreases pairs.len(),
{
    if pairs.len() > 0 {
        let p = pairs.last();
        let st1 = with_bindings(st, e, pairs.drop_last());
        lemma_with_bindings(st, e, pairs.drop_last());
        lemma_with_binding(st1, e, p.0, p.1);
        lemma_keeps_trans(st, st1, with_binding(st1, e, p.0, p.1), e as int, e as int);
    }
}

proof fn lemma_same_binds(st: Store, st2: Store)
    requires
        st2.binds == st.binds,
        st2.outers == st.outers,
    ensures
        keeps(st, st2, -1),
{
    assert forall|e: nat| e < st.outers.len() && e != -1 implies #[trigger] same_frame(st, st2, e) by {
        assert forall|k: Seq<char>| #[trigger] lookup_local(st2, e, k) == lookup_local(st, e, k) by {}
    }
}

proof fn lemma_bind_keeps(st: Store, outer: nat, params: Val, args: Val)
    requires
        outer < st.outers.len(),
    ensures
        bind_spec(st, outer, params, args) matches Ok((st2, n)) ==> keeps(st, st2, -1) && n
            == st.outers.len() && st2.outers.len() == st.outers.len() + 1,
{
    match (param_seq(params), param_seq(args)) {
        (Some(ps), Some(xs)) => match bind_pairs(ps, xs, 0) {
            Ok(pairs) => {
                let st1 = with_new_env(st, Some(outer));
                lemma_with_new_env(st, Some(outer), -1);
                lemma_with_bindings(st1, st.outers.len(), pairs);
                lemma_keeps_trans(st, st1, with_bindings(st1, st.outers.len(), pairs), -1, st.outers.len() as int);
            },
            Err(_) => {},
        },
        _ => {},
    }
}

pub proof fn lemma_eval_keeps(ast: Val, st: Store, env: nat, fuel: nat)
    ensures
        keeps(st, eval_spec(ast, st, env, fuel).1, env as int),
    decreases fuel, 0nat, 0nat,
{
    if fuel == 0 {
    } else {
        let f = (fuel - 1) as nat;
        match ast {
            Val::Vector(items) => lemma_items_keeps(items, st, env, f, items.len()),
            Val::Hash(es) => lemma_entries_keeps(es, st, env, f, es.len()),
            Val::List(items) => if items.len() > 0 {
                match special_form(items[0]) {
                    Some(form) => lemma_form_keeps(form, items, st, env, f),
                    None => {
                        lemma_items_keeps(items, st, env, f, items.len());
                        match eval_items(items, st, env, f, items.len()) {
                            (Ok(vs), st2) => {
                                lemma_apply_keeps(vs[0], vs.subrange(1, vs.len() as int), st2, f);
                                let st3 = apply_spec(vs[0], vs.subrange(1, vs.len() as int), st2, f).1;
                                lemma_keeps_trans(st, st2, st3, env as int, -1);
                            },
                            _ => {},
                        }
                    },
                }
            },
            _ => {},
        }
    }
}

pub proof fn lemma_items_keeps(items: Seq<Val>, st: Store, env: nat, fuel: nat, n: nat)
    ensures
        keeps(st, eval_items(items, st, env, fuel, n).1, env as int),
    decreases fuel, 1nat, n,
{
    if n == 0 || n > items.len() {
    } else {
        lemma_items_keeps(items, st, env, fuel, (n - 1) as nat);
        match eval_items(items, st, env, fuel, (n - 1) as nat) {
            (Ok(vs), st1) => {
                lemma_eval_keeps(items[n - 1], st1, env, fuel);
                lemma_keeps_trans(st, st1, eval_spec(items[n - 1], st1, env, fuel).1, env as int, env as int);
            },
            _ => {},
        }
    }
}

pub proof fn lemma_entries_keeps(es: Seq<(Seq<char>, Val)>, st: Store, env: nat, fuel: nat, n: nat)
    ensures
        keeps(st, eval_entries(es, st, env, fuel, n).1, env as int),
    decreases fuel, 1nat, n,
{
    if n == 0 || n > es.len() {
    } else {
        lemma_entries_keeps(es, st, env, fuel, (n - 1) as nat);
        match eval_entries(es, st, env, fuel, (n - 1) as nat) {
            (Ok(vs), st1) => {
                lemma_eval_keeps(es[n - 1].1, st1, env, fuel);
                lemma_keeps_trans(st, st1, eval_spec(es[n - 1].1, st1, env, fuel).1, env as int, env as int);
            },
            _ => {},
        }
    }
}

pub proof fn lemma_let_pairs_keeps(bs: Seq<Val>, st: Store, env: nat, fuel: nat, n: nat)
    ensures
        keeps(st, eval_let_pairs(bs, st, env, fuel, n).1, env as int),
    decreases fuel, 1nat, n,
{
    if n == 0 || 2 * n > bs.len() {
    } else {
        lemma_let_pairs_keeps(bs, st, env, fuel, (n - 1) as nat);
        match eval_let_pairs(bs, st, env, fuel, (n - 1) as nat) {
            (Ok(_), st1) => match bs[2 * n - 2] {
                Val::Symbol(k) => {
                    lemma_eval_keeps(bs[2 * n - 1], st1, env, fuel);
                    match eval_spec(bs[2 * n - 1], st1, env, fuel) {
                        (Ok(v), st2) => {
                            lemma_keeps_trans(st, st1, st2, env as int, env as int);
                            lemma_with_binding(st2, env, k, v);
                            lemma_keeps_trans(st, st2, with_binding(st2, env, k, v), env as int, env as int);
                        },
                        (Err(_), st2) => {
                            lemma_keeps_trans(st, st1, st2, env as int, env as int);
                        },
                    }
                },
                _ => {},
            },
            _ => {},
        }
    }
}

pub proof fn lemma_form_keeps(form: SpecialForm, items: Seq<Val>, st: Store, env: nat, fuel: nat)
    ensures
        keeps(st, form_spec(form, items, st, env, fuel).1, env as int),
        form == SpecialForm::Let && env < st.outers.len() ==> keeps(
            st,
            form_spec(form, items, st, env, fuel).1,
            -1,
        ),
    decreases fuel, 2nat, 0nat,
{
    match form {
        SpecialForm::Def => if items.len() == 3 {
            lemma_eval_keeps(items[2], st, env, fuel);
            match eval_spec(items[2], st, env, fuel) {
                (Ok(v), st1) => match items[1] {
                    Val::Symbol(k) => {
                        lemma_with_binding(st1, env, k, v);
                        lemma_keeps_trans(st, st1, with_binding(st1, env, k, v), env as int, env as int);
                    },
                    _ => {},
                },
                _ => {},
            }
        },
        SpecialForm::Let => if items.len() == 3 {
            match param_seq(items[1]) {
                Some(bs) => if bs.len() % 2 == 0 {
                    let inner = st.outers.len();
                    let st1 = with_new_env(st, Some(env));
                    let x: int = if env < st.outers.len() { -1 } else { env as int };
                    lemma_with_new_env(st, Some(env), x);
                    lemma_let_pairs_keeps(bs, st1, inner, fuel, bs.len() / 2);
                    let st2 = eval_let_pairs(bs, st1, inner, fuel, bs.len() / 2).1;
                    lemma_keeps_trans(st, st1, st2, x, inner as int);
                    match eval_let_pairs(bs, st1, inner, fuel, bs.len() / 2) {
                        (Ok(_), _) => {
                            lemma_eval_keeps(items[2], st2, inner, fuel);
                            lemma_keeps_trans(st, st2, eval_spec(items[2], st2, inner, fuel).1, x, inner as int);
                        },
                        _ => {},
                    }
                    if x < 0 {
                        lemma_keeps_weaken(st, form_spec(form, items, st, env, fuel).1, -1, env as int);
                    }
                },
                None => {},
            }
        },
        SpecialForm::Do => {
            let rest = items.subrange(1, items.len() as int);
            lemma_items_keeps(rest, st, env, fuel, rest.len());
        },
        SpecialForm::If => if items.len() == 3 || items.len() == 4 {
            lemma_eval_keeps(items[1], st, env, fuel);
            match eval_spec(items[1], st, env, fuel) {
                (Ok(c), st1) => {
                    lemma_eval_keeps(items[2], st1, env, fuel);
                    lemma_keeps_trans(st, st1, eval_spec(items[2], st1, env, fuel).1, env as int, env as int);
                    if items.len() == 4 {
                        lemma_eval_keeps(items[3], st1, env, fuel);
                        lemma_keeps_trans(st, st1, eval_spec(items[3], st1, env, fuel).1, env as int, env as int);
                    }
                },
                _ => {},
            }
        },
        SpecialForm::Fn => {},
    }
}

pub proof fn lemma_apply_keeps(f: Val, args: Seq<Val>, st: Store, fuel: nat)
    ensures
        keeps(st, apply_spec(f, args, st, fuel).1, -1),
    decreases fuel, 3nat, 0nat,
{
    match f {
        Val::Native { function, arity, name } => {
            lemma_same_binds(st, builtin_call(function, args, st).1);
        },
        Val::Closure { env, params, body } => if env < st.outers.len() {
            lemma_bind_keeps(st, env, *params, Val::List(args));
            match bind_spec(st, env, *params, Val::List(args)) {
                Ok((st1, inner)) => {
                    lemma_eval_keeps(*body, st1, inner, fuel);
                    lemma_keeps_trans(st, st1, eval_spec(*body, st1, inner, fuel).1, -1, inner as int);
                },
                Err(_) => {},
            }
        },
        _ => {},
    }
}


proof fn lemma_keeps_lookup(st: Store, st2: Store, e: nat, k: Seq<char>)
    requires
        keeps(st, st2, -1),
        e < st.outers.len(),
    ensures
        find_env(st2, e, k) == find_env(st, e, k),
        get_val(st2, e, k) == get_val(st, e, k),
    decreases e,
{
    assert(same_frame(st, st2, e));
    assert(lookup_local(st2, e, k) == lookup_local(st, e, k));
    assert(st2.outers[e as int] == st.outers[e as int]);
    match st.outers[e as int] {
        Some(o) => if o < e {
            lemma_keeps_lookup(st, st2, o, k);
        },
        None => {},
    }
    match find_env(st, e, k) {
        Some(f) => {
            lemma_find_env_below(st, e, k);
            assert(same_frame(st, st2, f));
            assert(lookup_local(st2, f, k) == lookup_local(st, f, k));
        },
        None => {},
    }
}

proof fn lemma_find_env_below(st: Store, e: nat, k: Seq<char>)
    ensures
        find_env(st, e, k) matches Some(f) ==> f <= e && f < st.outers.len(),
    decreases e,
{
    if e < st.outers.len() && lookup_local(st, e, k) is None {
        match st.outers[e as int] {
            Some(o) => if o < e {
                lemma_find_env_below(st, o, k);
            },
            None => {},
        }
    }
}

/// The symbol `let*`.
pub open spec fn let_symbol() -> Val {
    Val::Symbol(seq!['l', 'e', 't', '*'])
}

/// The symbol `fn*`.
pub open spec fn fn_symbol() -> Val {
    Val::Symbol(seq!['f', 'n', '*'])
}

/// `let*` scoping: evaluating a `let*` form in `env` leaves every existing
/// environment as it was, so after the form returns, each symbol has the
/// value seen from `env` that it had before; the symbols bound by the form
/// are not visible there.
pub proof fn lemma_let_scoping(bindings: Val, body: Val, st: Store, env: nat, fuel: nat, k: Seq<char>)
    requires
        env < st.outers.len(),
    ensures
        get_val(eval_spec(Val::List(seq![let_symbol(), bindings, body]), st, env, fuel).1, env, k)
            == get_val(st, env, k),
        forall|f: nat|
            #![auto]
            eval_spec(
                Val::Symbol(k),
                eval_spec(Val::List(seq![let_symbol(), bindings, body]), st, env, fuel).1,
                env,
                f,
            ).0 == eval_spec(Val::Symbol(k), st, env, f).0,
{
    let items = seq![let_symbol(), bindings, body];
    let st2 = eval_spec(Val::List(items), st, env, fuel).1;
    if fuel > 0 {
        assert(special_form(items[0]) == Some(SpecialForm::Let));
        lemma_form_keeps(SpecialForm::Let, items, st, env, (fuel - 1) as nat);
        lemma_keeps_lookup(st, st2, env, k);
    }
}

/// Closure capture: a closure made by the body of `(let* (s x) (fn* params fbody))`
/// captures the new environment of the `let*`, in which `s` keeps the value
/// of `x` after the form returns.
pub proof fn lemma_closure_capture(
    s: Seq<char>,
    x: Val,
    params: Val,
    fbody: Val,
    st: Store,
    env: nat,
    fuel: nat,
    v: Val,
)
    requires
        fuel >= 2,
        crate::eval::is_param_form(params),
        eval_spec(x, with_new_env(st, Some(env)), st.outers.len(), (fuel - 1) as nat).0 == Ok::<
            Val,
            ErrV,
        >(v),
    ensures
        ({
            let r = eval_spec(
                Val::List(
                    seq![
                        let_symbol(),
                        Val::List(seq![Val::Symbol(s), x]),
                        Val::List(seq![fn_symbol(), params, fbody]),
                    ],
                ),
                st,
                env,
                fuel,
            );
            &&& r.0 == Ok::<Val, ErrV>(
                Val::Closure { env: st.outers.len(), params: Box::new(params), body: Box::new(fbody) },
            )
            &&& get_val(r.1, st.outers.len(), s) == Some(v)
        }),
{
    let f = (fuel - 1) as nat;
    let n = st.outers.len();
    let bs = seq![Val::Symbol(s), x];
    let fnf = seq![fn_symbol(), params, fbody];
    let items = seq![let_symbol(), Val::List(bs), Val::List(fnf)];
    assert(special_form(items[0]) == Some(SpecialForm::Let));
    assert(special_form(fnf[0]) == Some(SpecialForm::Fn));
    let st1 = with_new_env(st, Some(env));
    lemma_with_new_env(st, Some(env), st.outers.len() as int);
    let st2 = eval_spec(x, st1, n, f).1;
    lemma_eval_keeps(x, st1, n, f);
    assert(eval_let_pairs(bs, st1, n, f, 0) == (Ok::<(), ErrV>(()), st1));
    assert(bs[1] == x);
    let st3 = with_binding(st2, n, s, v);
    assert(eval_let_pairs(bs, st1, n, f, 1) == (Ok::<(), ErrV>(()), st3));
    lemma_with_binding(st2, n, s, v);
    assert(n < st3.outers.len());
    assert(find_env(st3, n, s) == Some(n));
    let clo = Val::Closure { env: n, params: Box::new(params), body: Box::new(fbody) };
    assert(form_spec(SpecialForm::Fn, fnf, st3, n, (f - 1) as nat) == (Ok::<Val, ErrV>(clo), st3));
    assert(eval_spec(Val::List(fnf), st3, n, f) == (Ok::<Val, ErrV>(clo), st3));
    assert(param_seq(items[1]) == Some(bs));
    assert(form_spec(SpecialForm::Let, items, st, env, f) == (Ok::<Val, ErrV>(clo), st3));
    assert(eval_spec(Val::List(items), st, env, fuel) == (Ok::<Val, ErrV>(clo), st3));
}

/// Closure capture, later on: a symbol bound in environment `n` keeps its
/// value seen from `n` through any evaluation in another environment.
pub proof fn lemma_capture_persists(ast: Val, st: Store, env: nat, fuel: nat, n: nat, s: Seq<char>)
    requires
        n < st.outers.len(),
        n != env,
        lookup_local(st, n, s) is Some,
    ensures
        get_val(eval_spec(ast, st, env, fuel).1, n, s) == get_val(st, n, s),
{
    let st2 = eval_spec(ast, st, env, fuel).1;
    lemma_eval_keeps(ast, st, env, fuel);
    assert(same_frame(st, st2, n));
    assert(lookup_local(st2, n, s) == lookup_local(st, n, s));
    assert(find_env(st2, n, s) == Some(n));
    assert(find_env(st, n, s) == Some(n));
}

/// Variadic bind: binding `(a & rest)` to at least one argument binds `a`
/// to the first and `rest` to the list of the others.
pub proof fn lemma_variadic_pairs(a: Seq<char>, rest: Seq<char>, args: Seq<Val>)
    requires
        a != amp(),
        args.len() >= 1,
    ensures
        bind_pairs(seq![Val::Symbol(a), Val::Symbol(amp()), Val::Symbol(rest)], args, 0) == Ok::<
            Seq<(Seq<char>, Val)>,
            ErrV,
        >(seq![(a, args[0]), (rest, Val::List(args.subrange(1, args.len() as int)))]),
{
    let ps = seq![Val::Symbol(a), Val::Symbol(amp()), Val::Symbol(rest)];
    assert(bind_pairs(ps, args, 1) == Ok::<Seq<(Seq<char>, Val)>, ErrV>(
        seq![(rest, Val::List(args.subrange(1, args.len() as int)))],
    ));
    assert(seq![(a, args[0])] + seq![(rest, Val::List(args.subrange(1, args.len() as int)))] =~= seq![
        (a, args[0]),
        (rest, Val::List(args.subrange(1, args.len() as int))),
    ]);
}

/// Variadic bind: applying `(fn* (a & rest) rest)` to one or more arguments
/// returns the list of all but the first (the empty list for exactly one).
pub proof fn lemma_variadic_apply(a: Seq<char>, rest: Seq<char>, env: nat, args: Seq<Val>, st: Store, fuel: nat)
    requires
        env < st.outers.len(),
        a != amp(),
        args.len() >= 1,
        fuel >= 1,
    ensures
        apply_spec(
            Val::Closure {
                env,
                params: Box::new(
                    Val::List(seq![Val::Symbol(a), Val::Symbol(amp()), Val::Symbol(rest)]),
                ),
                body: Box::new(Val::Symbol(rest)),
            },
            args,
            st,
            fuel,
        ).0 == Ok::<Val, ErrV>(Val::List(args.subrange(1, args.len() as int))),
{
    let ps = seq![Val::Symbol(a), Val::Symbol(amp()), Val::Symbol(rest)];
    lemma_variadic_pairs(a, rest, args);
    let pairs = seq![(a, args[0]), (rest, Val::List(args.subrange(1, args.len() as int)))];
    let n = st.outers.len();
    let st1 = with_new_env(st, Some(env));
    let st2 = with_bindings(st1, n, pairs);
    assert(pairs.drop_last() =~= seq![(a, args[0])]);
    assert(seq![(a, args[0])].drop_last() =~= Seq::<(Seq<char>, Val)>::empty());
    let sa = with_bindings(st1, n, pairs.drop_last());
    assert(st2 == with_binding(sa, n, rest, Val::List(args.subrange(1, args.len() as int))));
    lemma_with_bindings(st1, n, pairs.drop_last());
    lemma_with_binding(sa, n, rest, Val::List(args.subrange(1, args.len() as int)));
    assert(find_env(st2, n, rest) == Some(n));
}

/// The parameter form `(s0 .. s(n-1) & r)`.
pub open spec fn variadic_params(syms: Seq<Seq<char>>, r: Seq<char>) -> Seq<Val> {
    Seq::new(
        syms.len() + 2,
        |m: int|
            if m < syms.len() {
                Val::Symbol(syms[m])
            } else if m == syms.len() {
                Val::Symbol(amp())
            } else {
                Val::Symbol(r)
            },
    )
}

/// The pairs binding `syms[j..]` to the matching arguments.
pub open spec fn positional_pairs(syms: Seq<Seq<char>>, args: Seq<Val>, j: int) -> Seq<(Seq<char>, Val)> {
    Seq::new((syms.len() - j) as nat, |m: int| (syms[j + m], args[j + m]))
}

proof fn lemma_variadic_pairs_from(syms: Seq<Seq<char>>, r: Seq<char>, args: Seq<Val>, j: nat)
    requires
        forall|m: int| 0 <= m < syms.len() ==> #[trigger] syms[m] != amp(),
        args.len() >= syms.len(),
        j <= syms.len(),
    ensures
        bind_pairs(variadic_params(syms, r), args, j) == Ok::<Seq<(Seq<char>, Val)>, ErrV>(
            positional_pairs(syms, args, j as int) + seq![
                (r, Val::List(args.subrange(syms.len() as int, args.len() as int))),
            ],
        ),
    decreases syms.len() - j,
{
    let ps = variadic_params(syms, r);
    let tail = seq![(r, Val::List(args.subrange(syms.len() as int, args.len() as int)))];
    if j == syms.len() {
        assert(ps[j as int] == Val::Symbol(amp()));
        assert(ps[j + 1int] == Val::Symbol(r));
        assert(positional_pairs(syms, args, j as int) + tail =~= tail);
    } else {
        lemma_variadic_pairs_from(syms, r, args, j + 1);
        assert(ps[j as int] == Val::Symbol(syms[j as int]));
        assert(seq![(syms[j as int], args[j as int])] + (positional_pairs(syms, args, j + 1int) + tail)
            =~= positional_pairs(syms, args, j as int) + tail);
    }
}

/// Variadic bind, in general: binding `(s0 .. s(n-1) & r)` (no `si` being
/// `&`) to at least `n` arguments binds each `si` to the `i`-th argument and
/// `r` to the list of the remaining ones (empty when there are exactly `n`).
pub proof fn lemma_variadic_bind(syms: Seq<Seq<char>>, r: Seq<char>, args: Seq<Val>)
    requires
        forall|m: int| 0 <= m < syms.len() ==> #[trigger] syms[m] != amp(),
        args.len() >= syms.len(),
    ensures
        bind_pairs(variadic_params(syms, r), args, 0) == Ok::<Seq<(Seq<char>, Val)>, ErrV>(
            positional_pairs(syms, args, 0) + seq![
                (r, Val::List(args.subrange(syms.len() as int, args.len() as int))),
            ],
        ),
{
    lemma_variadic_pairs_from(syms, r, args, 0);
}

/// The integer values of `ints`.
pub open spec fn int_vals(ints: Seq<i32>) -> Seq<Val> {
    Seq::new(ints.len(), |m: int| Val::Integer(ints[m]))
}

/// The form `(fn* (a & r) r)`.
pub open spec fn rest_fn_form(a: Seq<char>, r: Seq<char>) -> Val {
    Val::List(
        seq![
            fn_symbol(),
            Val::List(seq![Val::Symbol(a), Val::Symbol(amp()), Val::Symbol(r)]),
            Val::Symbol(r),
        ],
    )
}

proof fn lemma_rest_call_items(a: Seq<char>, r: Seq<char>, ints: Seq<i32>, st: Store, env: nat, fuel: nat, n: nat)
    requires
        fuel >= 2,
        1 <= n <= ints.len() + 1,
    ensures
        eval_items(seq![rest_fn_form(a, r)] + int_vals(ints), st, env, fuel, n) == (
            Ok::<Seq<Val>, ErrV>(
                seq![
                    Val::Closure {
                        env,
                        params: Box::new(
                            Val::List(seq![Val::Symbol(a), Val::Symbol(amp()), Val::Symbol(r)]),
                        ),
                        body: Box::new(Val::Symbol(r)),
                    },
                ] + int_vals(ints).subrange(0, n - 1),
            ),
            st,
        ),
    decreases n,
{
    let items = seq![rest_fn_form(a, r)] + int_vals(ints);
    let params = Val::List(seq![Val::Symbol(a), Val::Symbol(amp()), Val::Symbol(r)]);
    let clo = Val::Closure { env, params: Box::new(params), body: Box::new(Val::Symbol(r)) };
    assert(items.len() == ints.len() + 1);
    if n == 1 {
        let form = seq![fn_symbol(), params, Val::Symbol(r)];
        assert(special_form(form[0]) == Some(SpecialForm::Fn));
        assert(crate::eval::is_param_form(params));
        assert(form_spec(SpecialForm::Fn, form, st, env, (fuel - 2) as nat) == (Ok::<Val, ErrV>(clo), st));
        assert(items[0] == rest_fn_form(a, r));
        assert(eval_spec(items[0], st, env, fuel) == (Ok::<Val, ErrV>(clo), st));
        assert(eval_items(items, st, env, fuel, 0) == (Ok::<Seq<Val>, ErrV>(Seq::empty()), st));
        assert(Seq::<Val>::empty().push(clo) =~= seq![clo] + int_vals(ints).subrange(0, 0));
    } else {
        lemma_rest_call_items(a, r, ints, st, env, fuel, (n - 1) as nat);
        assert(items[n - 1] == Val::Integer(ints[n - 2]));
        assert(eval_spec(items[n - 1], st, env, fuel) == (
            Ok::<Val, ErrV>(Val::Integer(ints[n - 2])),
            st,
        ));
        assert((seq![clo] + int_vals(ints).subrange(0, n - 2)).push(Val::Integer(ints[n - 2]))
            =~= seq![clo] + int_vals(ints).subrange(0, n - 1));
    }
}

/// Variadic bind, evaluated: `((fn* (a & r) r) x1 x2 ..)` on one or more
/// integers evaluates to the list of all but the first (`()` for one).
pub proof fn lemma_variadic_call(a: Seq<char>, r: Seq<char>, ints: Seq<i32>, st: Store, env: nat, fuel: nat)
    requires
        a != amp(),
        ints.len() >= 1,
        env < st.outers.len(),
        fuel >= 3,
    ensures
        eval_spec(Val::List(seq![rest_fn_form(a, r)] + int_vals(ints)), st, env, fuel).0 == Ok::<
            Val,
            ErrV,
        >(Val::List(int_vals(ints).subrange(1, ints.len() as int))),
{
    let f = (fuel - 1) as nat;
    let items = seq![rest_fn_form(a, r)] + int_vals(ints);
    let params = Val::List(seq![Val::Symbol(a), Val::Symbol(amp()), Val::Symbol(r)]);
    let clo = Val::Closure { env, params: Box::new(params), body: Box::new(Val::Symbol(r)) };
    lemma_rest_call_items(a, r, ints, st, env, f, items.len());
    let vs = seq![clo] + int_vals(ints).subrange(0, ints.len() as int);
    assert(int_vals(ints).subrange(0, ints.len() as int) =~= int_vals(ints));
    assert(vs.subrange(1, vs.len() as int) =~= int_vals(ints));
    assert(special_form(items[0]) is None);
    lemma_variadic_apply(a, r, env, int_vals(ints), st, f);
}

/// Arity enforcement: a host function of arity 2 applied to any other
/// number of arguments fails with `WrongArity`, changing nothing.
pub proof fn lemma_wrong_arity(function: crate::types::Builtin, name: Seq<char>, args: Seq<Val>, st: Store, fuel: nat)
    requires
        args.len() != 2,
    ensures
        apply_spec(Val::Native { function, arity: Some(2), name }, args, st, fuel) == (
            Err::<Val, ErrV>(ErrV::WrongArity(name, 2, args.len())),
            st,
        ),
{
}

/// Values that evaluate to themselves, nested at most `d` vectors deep:
/// `nil`, booleans, integers, strings, and vectors of such values.
pub open spec fn self_evaluating(v: Val, d: nat) -> bool
    decreases d, 0nat, 0nat,
{
    match v {
        Val::Nil | Val::True | Val::False | Val::Integer(_) | Val::Str(_) => true,
        Val::Vector(items) => d > 0 && all_self_evaluating(items, items.len(), (d - 1) as nat),
        _ => false,
    }
}

/// The first `n` of `items` evaluate to themselves, nested at most `d` deep.
pub open spec fn all_self_evaluating(items: Seq<Val>, n: nat, d: nat) -> bool
    decreases d, 1nat, n,
{
    if n == 0 || n > items.len() {
        true
    } else {
        all_self_evaluating(items, (n - 1) as nat, d) && self_evaluating(items[n - 1], d)
    }
}

proof fn lemma_self_eval(v: Val, d: nat, st: Store, env: nat, fuel: nat)
    requires
        self_evaluating(v, d),
        fuel > d,
    ensures
        eval_spec(v, st, env, fuel) == (Ok::<Val, ErrV>(v), st),
    decreases d, 0nat, 0nat,
{
    match v {
        Val::Vector(items) => {
            lemma_all_self_eval(items, items.len(), (d - 1) as nat, st, env, (fuel - 1) as nat);
            assert(items.subrange(0, items.len() as int) =~= items);
        },
        _ => {},
    }
}

proof fn lemma_all_self_eval(items: Seq<Val>, n: nat, d: nat, st: Store, env: nat, fuel: nat)
    requires
        all_self_evaluating(items, n, d),
        n <= items.len(),
        fuel > d,
    ensures
        eval_items(items, st, env, fuel, n) == (Ok::<Seq<Val>, ErrV>(items.subrange(0, n as int)), st),
    decreases d, 1nat, n,
{
    if n == 0 {
        assert(items.subrange(0, 0) =~= Seq::<Val>::empty());
    } else {
        lemma_all_self_eval(items, (n - 1) as nat, d, st, env, fuel);
        lemma_self_eval(items[n - 1], d, st, env, fuel);
        assert(items.subrange(0, n - 1).push(items[n - 1]) =~= items.subrange(0, n as int));
    }
}

proof fn lemma_self_eval_refl(v: Val, d: nat)
    requires
        self_evaluating(v, d),
    ensures
        val_eq(v, v),
    decreases d, 0nat, 0nat,
{
    match v {
        Val::Vector(items) => {
            lemma_items_refl(items, 0, (d - 1) as nat);
        },
        _ => {},
    }
}

proof fn lemma_all_self_evaluating_at(items: Seq<Val>, n: nat, d: nat, i: int)
    requires
        all_self_evaluating(items, n, d),
        0 <= i < n <= items.len(),
    ensures
        self_evaluating(items[i], d),
    decreases n,
{
    if i < n - 1 {
        lemma_all_self_evaluating_at(items, (n - 1) as nat, d, i);
    }
}

proof fn lemma_items_refl(items: Seq<Val>, i: nat, d: nat)
    requires
        all_self_evaluating(items, items.len(), d),
        i <= items.len(),
    ensures
        items_eq(items, items, i),
    decreases d, 1nat, items.len() - i,
{
    if i < items.len() {
        lemma_all_self_evaluating_at(items, items.len(), d, i as int);
        lemma_self_eval_refl(items[i as int], d);
        lemma_items_refl(items, i + 1, d);
    }
}

/// Self-evaluation: `nil`, booleans, integers, strings, and vectors of such
/// values (with enough depth left) evaluate to a structurally equal value,
/// indeed to themselves, and change nothing.
pub proof fn lemma_self_evaluation(v: Val, d: nat, st: Store, env: nat, fuel: nat)
    requires
        self_evaluating(v, d),
        fuel > d,
    ensures
        eval_spec(v, st, env, fuel) == (Ok::<Val, ErrV>(v), st),
        val_eq(eval_spec(v, st, env, fuel).0->Ok_0, v),
{
    lemma_self_eval(v, d, st, env, fuel);
    lemma_self_eval_refl(v, d);
}


/// Evaluation in an existing environment keeps the environments well-formed,
/// and the environment still exists afterwards.
pub proof fn lemma_eval_wf(ast: Val, st: Store, env: nat, fuel: nat)
    requires
        store_wf(st),
        env < st.outers.len(),
    ensures
        store_wf(eval_spec(ast, st, env, fuel).1),
        env < eval_spec(ast, st, env, fuel).1.outers.len(),
{
    lemma_eval_keeps(ast, st, env, fuel);
}

} // verus!
