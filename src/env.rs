//! Lexically scoped environments, held in one arena and addressed by `Env`
//! handles, with outer links and destructuring binds.
use crate::text::str_eq;
use crate::types::{
    entry_views, lemma_entry_views, lemma_entry_views_push, lemma_views, new_list, opt_nat,
    tail_from, val_of, views, Env, ErrV, MalError, MalResult, MalType, MalValue, Val,
};
use vstd::prelude::*;

verus! {

/// All environments of one interpreter.
///
/// Environment `e` has the outer link `outers[e]`; its bindings are the
/// entries of `bindings` whose first field is `e`, one per symbol name.
/// `output` holds the lines written by `prn`, for the host to display.
pub struct EnvData {
    outers: Vec<Option<Env>>,
    bindings: Vec<(Env, String, MalValue)>,
    output: Vec<String>,
}

/// Model of the environments: outer links, bindings, and printed lines.
pub struct Store {
    pub outers: Seq<Option<nat>>,
    pub binds: Seq<(nat, Seq<char>, Val)>,
    pub out: Seq<Seq<char>>,
}

impl View for EnvData {
    type V = Store;

    closed spec fn view(&self) -> Store {
        Store {
            outers: Seq::new(self.outers@.len(), |i: int| opt_nat(self.outers@[i])),
            binds: Seq::new(
                self.bindings@.len(),
                |i: int|
                    (
                        self.bindings@[i].0 as nat,
                        self.bindings@[i].1@,
                        val_of(*self.bindings@[i].2),
                    ),
            ),
            out: Seq::new(self.output@.len(), |i: int| self.output@[i]@),
        }
    }
}

/// Each environment binds each symbol at most once.
pub open spec fn unique_bindings(st: Store) -> bool {
    forall|i: int, j: int|
        0 <= i < j < st.binds.len() ==> !(#[trigger] st.binds[i].0 == #[trigger] st.binds[j].0
            && st.binds[i].1 == st.binds[j].1)
}

/// Every outer link names an older environment.
pub open spec fn outers_older(st: Store) -> bool {
    forall|e: int| 0 <= e < st.outers.len() ==> (#[trigger] st.outers[e] matches Some(o) ==> o < e)
}

/// Every binding belongs to an environment of the store.
pub open spec fn bindings_exist(st: Store) -> bool {
    forall|i: int| 0 <= i < st.binds.len() ==> #[trigger] st.binds[i].0 < st.outers.len()
}

/// Well-formed environments: outer links point to older environments,
/// bindings belong to existing environments, and each environment binds
/// each symbol at most once.
pub open spec fn store_wf(st: Store) -> bool {
    &&& unique_bindings(st)
    &&& outers_older(st)
    &&& bindings_exist(st)
}

/// Index of the binding of `k` in environment `e`, if any.
pub open spec fn binding_index(b: Seq<(nat, Seq<char>, Val)>, e: nat, k: Seq<char>) -> Option<
    int,
>
    decreases b.len(),
{
    if b.len() == 0 {
        None
    } else if b.last().0 == e && b.last().1 == k {
        Some(b.len() - 1)
    } else {
        binding_index(b.drop_last(), e, k)
    }
}

/// The value bound to `k` in environment `e` itself.
pub open spec fn lookup_local(st: Store, e: nat, k: Seq<char>) -> Option<Val> {
    match binding_index(st.binds, e, k) {
        Some(j) => Some(st.binds[j].2),
        None => None,
    }
}

/// The outer link of `e`.
pub open spec fn outer_of(st: Store, e: nat) -> Option<nat> {
    if e < st.outers.len() {
        st.outers[e as int]
    } else {
        None
    }
}

/// The nearest environment on the chain from `e` outwards that binds `k`.
pub open spec fn find_env(st: Store, e: nat, k: Seq<char>) -> Option<nat>
    decreases e,
{
    if e >= st.outers.len() {
        None
    } else if lookup_local(st, e, k) is Some {
        Some(e)
    } else {
        match st.outers[e as int] {
            Some(o) => if o < e {
                find_env(st, o, k)
            } else {
                None
            },
            None => None,
        }
    }
}

/// The value of `k` seen from `e`: its binding in the nearest environment that has one.
pub open spec fn get_val(st: Store, e: nat, k: Seq<char>) -> Option<Val> {
    match find_env(st, e, k) {
        Some(f) => lookup_local(st, f, k),
        None => None,
    }
}

/// The last environment on the chain of outer links from `e`.
pub open spec fn root_env(st: Store, e: nat) -> nat
    decreases e,
{
    match outer_of(st, e) {
        Some(o) => if o < e {
            root_env(st, o)
        } else {
            e
        },
        None => e,
    }
}

/// The store with a new, empty environment whose outer link is `outer`.
pub open spec fn with_new_env(st: Store, outer: Option<nat>) -> Store {
    Store { outers: st.outers.push(outer), ..st }
}

/// The store after binding `k` to `v` in environment `e`.
pub open spec fn with_binding(st: Store, e: nat, k: Seq<char>, v: Val) -> Store {
    match binding_index(st.binds, e, k) {
        Some(j) => Store { binds: st.binds.update(j, (e, k, v)), ..st },
        None => Store { binds: st.binds.push((e, k, v)), ..st },
    }
}

/// The store after binding each pair of `pairs` in environment `e`, in order.
pub open spec fn with_bindings(st: Store, e: nat, pairs: Seq<(Seq<char>, Val)>) -> Store
    decreases pairs.len(),
{
    if pairs.len() == 0 {
        st
    } else {
        let p = pairs.last();
        with_binding(with_bindings(st, e, pairs.drop_last()), e, p.0, p.1)
    }
}

/// The symbol `&` that introduces a variadic parameter.
pub open spec fn amp() -> Seq<char> {
    seq!['&']
}

/// The parameters of a closure, as a sequence, when they form a list or vector.
pub open spec fn param_seq(params: Val) -> Option<Seq<Val>> {
    match params {
        Val::List(s) => Some(s),
        Val::Vector(s) => Some(s),
        _ => None,
    }
}

/// The pairs (name, value) that binding parameters `ps`, from index `i`, to
/// arguments `args` produces, or the error that it meets first.
pub open spec fn bind_pairs(ps: Seq<Val>, args: Seq<Val>, i: nat) -> Result<
    Seq<(Seq<char>, Val)>,
    ErrV,
>
    decreases ps.len() - i,
{
    if i >= ps.len() {
        Ok(Seq::empty())
    } else {
        match ps[i as int] {
            Val::Symbol(s) => if s == amp() {
                if i + 1 >= ps.len() {
                    Err(ErrV::MissingVariadic)
                } else {
                    match ps[i + 1int] {
                        Val::Symbol(r) => Ok(
                            seq![(r, Val::List(args.subrange(i as int, args.len() as int)))],
                        ),
                        _ => Err(ErrV::NonSymbolBinding),
                    }
                }
            } else if i >= args.len() {
                Err(ErrV::NotEnoughArgs)
            } else {
                match bind_pairs(ps, args, i + 1) {
                    Ok(rest) => Ok(seq![(s, args[i as int])] + rest),
                    Err(e) => Err(e),
                }
            },
            _ => Err(ErrV::NonSymbolBinding),
        }
    }
}

/// The outcome of `bind`: the store with the new environment and its handle,
/// or the error.
pub open spec fn bind_spec(st: Store, outer: nat, params: Val, args: Val) -> Result<(Store, nat), ErrV> {
    match (param_seq(params), param_seq(args)) {
        (Some(ps), Some(xs)) => match bind_pairs(ps, xs, 0) {
            Ok(pairs) => Ok(
                (
                    with_bindings(with_new_env(st, Some(outer)), st.outers.len(), pairs),
                    st.outers.len(),
                ),
            ),
            Err(e) => Err(e),
        },
        (None, _) => Err(ErrV::NonSymbolBinding),
        (Some(_), None) => Err(ErrV::NotEnoughArgs),
    }
}

impl EnvData {
    /// Well-formedness of the environments (see `store_wf`).
    pub open spec fn wf(&self) -> bool {
        store_wf(self@)
    }

    proof fn lemma_view(&self)
        ensures
            self@.outers.len() == self.outers@.len(),
            self@.binds.len() == self.bindings@.len(),
            self@.out.len() == self.output@.len(),
            forall|i: int| 0 <= i < self.outers@.len() ==> #[trigger] self@.outers[i] == opt_nat(self.outers@[i]),
            forall|i: int|
                0 <= i < self.bindings@.len() ==> #[trigger] self@.binds[i] == (
                    self.bindings@[i].0 as nat,
                    self.bindings@[i].1@,
                    val_of(*self.bindings@[i].2),
                ),
    {
    }

    /// An arena with no environment and no printed output.
    pub fn new() -> (r: EnvData)
        ensures
            r.wf(),
            r@.outers.len() == 0,
            r@.binds.len() == 0,
            r@.out.len() == 0,
    {
        EnvData { outers: Vec::new(), bindings: Vec::new(), output: Vec::new() }
    }

    /// Number of environments in the arena.
    pub fn len(&self) -> (r: usize)
        ensures
            r == self@.outers.len(),
    {
        self.outers.len()
    }

    /// Appends a line of printed output.
    pub fn write_line(&mut self, line: String)
        ensures
            old(self).wf() ==> final(self).wf(),
            final(self)@ == (Store { out: old(self)@.out.push(line@), ..old(self)@ }),
    {
        self.output.push(line);
        assert(self@.out =~= old(self)@.out.push(line@));
        assert(self@.outers =~= old(self)@.outers);
        assert(self@.binds =~= old(self)@.binds);
    }

    /// Takes the printed lines that are waiting, leaving none.
    pub fn take_output(&mut self) -> (r: Vec<String>)
        ensures
            old(self).wf() ==> final(self).wf(),
            r@.len() == old(self)@.out.len(),
            forall|i: int| 0 <= i < r@.len() ==> r@[i]@ == old(self)@.out[i],
            final(self)@ == (Store { out: Seq::empty(), ..old(self)@ }),
    {
        let mut r: Vec<String> = Vec::new();
        std::mem::swap(&mut self.output, &mut r);
        assert(self@.out =~= Seq::empty());
        assert(self@.outers =~= old(self)@.outers);
        assert(self@.binds =~= old(self)@.binds);
        r
    }
}

/// Create a new environment in `envs`, with the (optional) outer environment.
pub fn new(envs: &mut EnvData, outer: Option<Env>) -> (r: Env)
    requires
        outer matches Some(o) ==> o < old(envs)@.outers.len(),
    ensures
        r == old(envs)@.outers.len(),
        old(envs).wf() ==> final(envs).wf(),
        final(envs)@ == with_new_env(old(envs)@, opt_nat(outer)),
{
    let r = envs.outers.len();
    envs.outers.push(outer);
    assert(envs@.outers =~= old(envs)@.outers.push(opt_nat(outer)));
    assert(envs@.binds =~= old(envs)@.binds);
    assert(envs@.out =~= old(envs)@.out);
    r
}

/// Return the root environment of the given environment.
pub fn root(envs: &EnvData, env: Env) -> (r: Env)
    ensures
        r == root_env(envs@, env as nat),
        envs.wf() && env < envs@.outers.len() ==> r < envs@.outers.len() && outer_of(
            envs@,
            r as nat,
        ) is None,
{
    proof {
        envs.lemma_view();
    }
    let mut e = env;
    while e < envs.outers.len()
        invariant
            root_env(envs@, e as nat) == root_env(envs@, env as nat),
            envs.wf() && env < envs@.outers.len() ==> e < envs@.outers.len(),
            envs@.outers.len() == envs.outers@.len(),
            forall|i: int| 0 <= i < envs.outers@.len() ==> #[trigger] envs@.outers[i] == opt_nat(envs.outers@[i]),
        decreases e,
    {
        match envs.outers[e] {
            Some(o) => {
                if o < e {
                    e = o;
                } else {
                    return e;
                }
            },
            None => {
                return e;
            },
        }
    }
    e
}

pub proof fn lemma_binding_index(b: Seq<(nat, Seq<char>, Val)>, e: nat, k: Seq<char>)
    ensures
        binding_index(b, e, k) matches Some(j) ==> 0 <= j < b.len() && b[j].0 == e && b[j].1 == k,
        binding_index(b, e, k) is None ==> forall|j: int|
            0 <= j < b.len() ==> !(b[j].0 == e && b[j].1 == k),
    decreases b.len(),
{
    if b.len() > 0 {
        lemma_binding_index(b.drop_last(), e, k);
        assert(forall|j: int| 0 <= j < b.len() - 1 ==> b.drop_last()[j] == b[j]);
    }
}

/// Binding a symbol in an existing environment keeps the store well-formed.
pub proof fn lemma_with_binding_wf(st: Store, e: nat, k: Seq<char>, v: Val)
    requires
        store_wf(st),
        e < st.outers.len(),
    ensures
        store_wf(with_binding(st, e, k, v)),
{
    lemma_with_binding_unique(st, e, k, v);
    lemma_binding_index(st.binds, e, k);
    let st2 = with_binding(st, e, k, v);
    assert forall|i: int| 0 <= i < st2.binds.len() implies #[trigger] st2.binds[i].0 < st2.outers.len() by {
        if i < st.binds.len() && st2.binds[i] != st.binds[i] {
            assert(st2.binds[i].0 == e);
        }
    }
}

/// Binding a symbol keeps each environment's symbols unique.
pub proof fn lemma_with_binding_unique(st: Store, e: nat, k: Seq<char>, v: Val)
    requires
        unique_bindings(st),
    ensures
        unique_bindings(with_binding(st, e, k, v)),
{
    lemma_binding_index(st.binds, e, k);
    let st2 = with_binding(st, e, k, v);
    assert forall|i: int, j: int| 0 <= i < j < st2.binds.len() implies !(#[trigger] st2.binds[i].0
        == #[trigger] st2.binds[j].0 && st2.binds[i].1 == st2.binds[j].1) by {
        if j == st.binds.len() {
            assert(st2.binds[i] == st.binds[i]);
        }
    }
}

/// Index of the binding of `name` in environment `e`.
fn binding_position(envs: &EnvData, e: Env, name: &String) -> (r: Option<usize>)
    ensures
        match r {
            Some(j) => binding_index(envs@.binds, e as nat, name@) == Some(j as int) && j
                < envs@.binds.len(),
            None => binding_index(envs@.binds, e as nat, name@) is None,
        },
{
    let ghost b = envs@.binds;
    proof {
        envs.lemma_view();
        assert(b.subrange(0, b.len() as int) =~= b);
    }
    let mut i: usize = envs.bindings.len();
    while i > 0
        invariant
            i <= envs.bindings@.len(),
            b == envs@.binds,
            binding_index(b, e as nat, name@) == binding_index(b.subrange(0, i as int), e as nat, name@),
        decreases i,
    {
        let entry = &envs.bindings[i - 1];
        if entry.0 == e && entry.1 == *name {
            assert(b.subrange(0, i as int).last() == b[i - 1]);
            return Some(i - 1);
        }
        assert(b.subrange(0, i as int).drop_last() =~= b.subrange(0, i - 1));
        i = i - 1;
    }
    None
}

/// Return the given environment if it binds `key` (which must be a symbol),
/// or else the first outer environment that does.
pub fn find(envs: &EnvData, env: Env, key: &MalValue) -> (r: Option<Env>)
    ensures
        r == match (**key)@ {
            Val::Symbol(k) => match find_env(envs@, env as nat, k) {
                Some(f) => Some(f as Env),
                None => None,
            },
            _ => None,
        },
{
    match &**key {
        MalType::Symbol(symbol) => find_symbol(envs, env, symbol),
        _ => None,
    }
}

fn find_symbol(envs: &EnvData, env: Env, symbol: &String) -> (r: Option<Env>)
    ensures
        match r {
            Some(f) => find_env(envs@, env as nat, symbol@) == Some(f as nat),
            None => find_env(envs@, env as nat, symbol@) is None,
        },
{
    let mut e = env;
    while e < envs.outers.len()
        invariant
            find_env(envs@, e as nat, symbol@) == find_env(envs@, env as nat, symbol@),
        decreases e,
    {
        if binding_position(envs, e, symbol).is_some() {
            return Some(e);
        }
        match envs.outers[e] {
            Some(o) => {
                if o < e {
                    e = o;
                } else {
                    return None;
                }
            },
            None => {
                return None;
            },
        }
    }
    None
}

/// Bind `name` to `val` in environment `env` itself.
pub fn set_symbol(envs: &mut EnvData, env: Env, name: String, val: MalValue)
    requires
        env < old(envs)@.outers.len(),
    ensures
        final(envs)@ == with_binding(old(envs)@, env as nat, name@, (*val)@),
        old(envs).wf() ==> final(envs).wf(),
{
    proof {
        if old(envs).wf() {
            lemma_with_binding_wf(old(envs)@, env as nat, name@, (*val)@);
        }
    }
    proof {
        envs.lemma_view();
    }
    match binding_position(envs, env, &name) {
        Some(j) => {
            envs.bindings.set(j, (env, name, val));
            assert(envs@.binds =~= old(envs)@.binds.update(j as int, (env as nat, name@, (*val)@)));
        },
        None => {
            envs.bindings.push((env, name, val));
            assert(envs@.binds =~= old(envs)@.binds.push((env as nat, name@, (*val)@)));
        },
    }
    proof {
        envs.lemma_view();
    }
    assert(envs@.outers =~= old(envs)@.outers);
    assert(envs@.out =~= old(envs)@.out);
}

/// Associate the given key (which must be a symbol) with the given value in
/// the given environment itself; any other key leaves the environments as they are.
pub fn set(envs: &mut EnvData, env: Env, key: MalValue, val: MalValue)
    requires
        env < old(envs)@.outers.len(),
    ensures
        old(envs).wf() ==> final(envs).wf(),
        final(envs)@ == match (*key)@ {
            Val::Symbol(k) => with_binding(old(envs)@, env as nat, k, (*val)@),
            _ => old(envs)@,
        },
{
    match &*key {
        MalType::Symbol(symbol) => set_symbol(envs, env, symbol.clone(), val),
        _ => {},
    }
}

/// The value of `symbol` seen from `env`.
pub fn get_symbol(envs: &EnvData, env: Env, symbol: &String) -> (r: MalResult)
    ensures
        match get_val(envs@, env as nat, symbol@) {
            Some(v) => r matches Ok(x) && (*x)@ == v,
            None => r matches Err(MalError::SymbolNotFound(s)) && s@ == symbol@,
        },
{
    proof {
        envs.lemma_view();
    }
    match find_symbol(envs, env, symbol) {
        Some(f) => {
            proof {
                lemma_binding_index(envs@.binds, f as nat, symbol@);
            }
            match binding_position(envs, f, symbol) {
                Some(j) => Ok(envs.bindings[j].2.clone()),
                None => Err(MalError::SymbolNotFound(symbol.clone())),
            }
        },
        None => Err(MalError::SymbolNotFound(symbol.clone())),
    }
}

/// The value of `key` (which must be a symbol) in `env` or in its outer
/// environments.
pub fn get(envs: &EnvData, env: Env, key: &MalValue) -> (r: MalResult)
    ensures
        match (**key)@ {
            Val::Symbol(k) => match get_val(envs@, env as nat, k) {
                Some(v) => r matches Ok(x) && (*x)@ == v,
                None => r matches Err(e) && e@ == ErrV::SymbolNotFound(k),
            },
            _ => r matches Err(e) && e@ == ErrV::NonSymbolBinding,
        },
{
    match &**key {
        MalType::Symbol(symbol) => get_symbol(envs, env, symbol),
        _ => Err(MalError::NonSymbolBinding),
    }
}


/// `Ok(p + q)` when `r` is `Ok(q)`; the error of `r` otherwise.
pub open spec fn prefixed(p: Seq<(Seq<char>, Val)>, r: Result<Seq<(Seq<char>, Val)>, ErrV>) -> Result<
    Seq<(Seq<char>, Val)>,
    ErrV,
> {
    match r {
        Ok(q) => Ok(p + q),
        Err(e) => Err(e),
    }
}

/// The pairs that binding `ps` to `xs` produces (see `bind_pairs`).
fn bind_pairs_of(ps: &Vec<MalValue>, xs: &Vec<MalValue>) -> (r: Result<Vec<(String, MalValue)>, MalError>)
    ensures
        match bind_pairs(views(ps@), views(xs@), 0) {
            Ok(p) => r matches Ok(v) && entry_views(v@) == p,
            Err(e) => r matches Err(x) && x@ == e,
        },
{
    let ghost vp = views(ps@);
    let ghost vx = views(xs@);
    proof {
        lemma_views(ps@);
        lemma_views(xs@);
        reveal_strlit("&");
    }
    let mut pairs: Vec<(String, MalValue)> = Vec::new();
    let mut i: usize = 0;
    assert(entry_views(pairs@) =~= Seq::empty());
    assert(bind_pairs(vp, vx, 0) == prefixed(entry_views(pairs@), bind_pairs(vp, vx, 0))) by {
        match bind_pairs(vp, vx, 0) {
            Ok(q) => assert(Seq::<(Seq<char>, Val)>::empty() + q =~= q),
            Err(_) => {},
        }
    }
    while i < ps.len()
        invariant
            vp == views(ps@),
            vx == views(xs@),
            vp.len() == ps@.len(),
            vx.len() == xs@.len(),
            forall|m: int| 0 <= m < ps@.len() ==> #[trigger] vp[m] == (*ps@[m])@,
            forall|m: int| 0 <= m < xs@.len() ==> #[trigger] vx[m] == (*xs@[m])@,
            i <= ps@.len(),
            i <= xs@.len(),
            bind_pairs(vp, vx, 0) == prefixed(entry_views(pairs@), bind_pairs(vp, vx, i as nat)),
        decreases ps@.len() - i,
    {
        match &*ps[i] {
            MalType::Symbol(s) => {
                if str_eq(s.as_str(), "&") {
                    proof {
                        reveal_strlit("&");
                        assert(s@ =~= amp());
                    }
                    assert(vp[i as int] == Val::Symbol(s@));
                    if i + 1 >= ps.len() {
                        return Err(MalError::MissingVariadic);
                    }
                    match &*ps[i + 1] {
                        MalType::Symbol(rest) => {
                            let tail = tail_from(xs, i);
                            let list = new_list(tail);
                            let ghost before = entry_views(pairs@);
                            let entry = (rest.clone(), list);
                            proof {
                                lemma_entry_views_push(pairs@, entry);
                            }
                            pairs.push(entry);
                            assert(entry_views(pairs@) =~= before + seq![(rest@, Val::List(vx.subrange(i as int, vx.len() as int)))]);
                            return Ok(pairs);
                        },
                        _ => {
                            return Err(MalError::NonSymbolBinding);
                        },
                    }
                } else if i >= xs.len() {
                    assert(s@ != amp()) by {
                        reveal_strlit("&");
                        if s@ == amp() {
                            assert(s@ =~= "&"@);
                        }
                    }
                    return Err(MalError::NotEnoughArgs);
                } else {
                    assert(s@ != amp()) by {
                        reveal_strlit("&");
                        if s@ == amp() {
                            assert(s@ =~= "&"@);
                        }
                    }
                    let ghost before = entry_views(pairs@);
                    let ghost after = bind_pairs(vp, vx, (i + 1) as nat);
                    let entry = (s.clone(), xs[i].clone());
                    proof {
                        lemma_entry_views_push(pairs@, entry);
                    }
                    pairs.push(entry);
                    proof {
                        match after {
                            Ok(q) => {
                                assert(before + (seq![(s@, vx[i as int])] + q) =~= entry_views(pairs@) + q);
                            },
                            Err(_) => {},
                        }
                    }
                    i = i + 1;
                }
            },
            _ => {
                return Err(MalError::NonSymbolBinding);
            },
        }
    }
    assert(entry_views(pairs@) + Seq::<(Seq<char>, Val)>::empty() =~= entry_views(pairs@));
    Ok(pairs)
}

/// Bind each of `pairs` in environment `env`, in order.
fn set_all(envs: &mut EnvData, env: Env, pairs: Vec<(String, MalValue)>)
    requires
        env < old(envs)@.outers.len(),
    ensures
        final(envs)@.outers == old(envs)@.outers,
        final(envs)@ == with_bindings(old(envs)@, env as nat, entry_views(pairs@)),
        old(envs).wf() ==> final(envs).wf(),
{
    let ghost ev = entry_views(pairs@);
    proof {
        lemma_entry_views(pairs@);
        assert(ev.subrange(0, 0) =~= Seq::empty());
    }
    let mut i: usize = 0;
    while i < pairs.len()
        invariant
            i <= pairs@.len(),
            ev == entry_views(pairs@),
            ev.len() == pairs@.len(),
            forall|m: int| 0 <= m < pairs@.len() ==> #[trigger] ev[m] == (pairs@[m].0@, (*pairs@[m].1)@),
            envs@ == with_bindings(old(envs)@, env as nat, ev.subrange(0, i as int)),
            old(envs).wf() ==> envs.wf(),
            envs@.outers == old(envs)@.outers,
            env < old(envs)@.outers.len(),
        decreases pairs@.len() - i,
    {
        let p = &pairs[i];
        set_symbol(envs, env, p.0.clone(), p.1.clone());
        assert(ev.subrange(0, i + 1).drop_last() =~= ev.subrange(0, i as int));
        i = i + 1;
    }
    assert(ev.subrange(0, i as int) =~= ev);
}

/// Create an environment whose outer is `outer` and bind the parameters
/// `binds` to the arguments `exprs` in it: positionally, and after a `&`,
/// the following symbol to the list of the remaining arguments.
pub fn bind(envs: &mut EnvData, outer: Env, binds: &MalValue, exprs: &MalValue) -> (r: Result<
    Env,
    MalError,
>)
    requires
        outer < old(envs)@.outers.len(),
    ensures
        r matches Ok(x) ==> x < final(envs)@.outers.len(),
        match bind_spec(old(envs)@, outer as nat, (**binds)@, (**exprs)@) {
            Ok((st, n)) => r matches Ok(x) && x as nat == n && final(envs)@ == st,
            Err(e) => r matches Err(x) && x@ == e && final(envs)@ == old(envs)@,
        },
        old(envs).wf() ==> final(envs).wf(),
{
    let ps = match &**binds {
        MalType::List(s) => s,
        MalType::Vector(s) => s,
        _ => {
            return Err(MalError::NonSymbolBinding);
        },
    };
    let xs = match &**exprs {
        MalType::List(s) => s,
        MalType::Vector(s) => s,
        _ => {
            return Err(MalError::NotEnoughArgs);
        },
    };
    match bind_pairs_of(ps, xs) {
        Ok(pairs) => {
            let env = new(envs, Some(outer));
            set_all(envs, env, pairs);
            Ok(env)
        },
        Err(e) => Err(e),
    }
}

} // verus!
