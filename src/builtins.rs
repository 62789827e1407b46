//! The host functions of the core namespace, and structural equality.
use crate::env::{EnvData, Store};
use crate::printer::pr_val;
use crate::types::{
    bool_val, res_view, new_bool, new_function, new_integer, new_list, new_nil, views, Builtin, ErrV,
    MalError, MalResult, MalType, MalValue, Val,
};
use vstd::prelude::*;

verus! {

/// Position of the entry with key `k`, searching from the end.
pub open spec fn entry_pos(es: Seq<(Seq<char>, Val)>, k: Seq<char>) -> Option<int>
    decreases es.len(),
{
    if es.len() == 0 {
        None
    } else if es.last().0 == k {
        Some(es.len() - 1)
    } else {
        entry_pos(es.drop_last(), k)
    }
}

pub proof fn lemma_entry_pos(es: Seq<(Seq<char>, Val)>, k: Seq<char>)
    ensures
        entry_pos(es, k) matches Some(j) ==> 0 <= j < es.len() && es[j].0 == k,
        entry_pos(es, k) is None ==> forall|j: int| 0 <= j < es.len() ==> es[j].0 != k,
    decreases es.len(),
{
    if es.len() > 0 {
        lemma_entry_pos(es.drop_last(), k);
        assert(forall|j: int| 0 <= j < es.len() - 1 ==> es.drop_last()[j] == es[j]);
    }
}

/// Structural equality: scalars by value, lists and vectors element-wise
/// (a list never equals a vector), hash maps by key set and per-key value;
/// functions are never equal.
pub open spec fn val_eq(a: Val, b: Val) -> bool
    decreases a, 0nat,
{
    match (a, b) {
        (Val::Nil, Val::Nil) => true,
        (Val::True, Val::True) => true,
        (Val::False, Val::False) => true,
        (Val::Integer(x), Val::Integer(y)) => x == y,
        (Val::Str(x), Val::Str(y)) => x == y,
        (Val::Symbol(x), Val::Symbol(y)) => x == y,
        (Val::List(x), Val::List(y)) => x.len() == y.len() && items_eq(x, y, 0),
        (Val::Vector(x), Val::Vector(y)) => x.len() == y.len() && items_eq(x, y, 0),
        (Val::Hash(x), Val::Hash(y)) => hash_sub(x, y, 0) && keys_in(y, x),
        _ => false,
    }
}

/// Elements from index `i` on are pairwise equal.
pub open spec fn items_eq(x: Seq<Val>, y: Seq<Val>, i: nat) -> bool
    decreases x, x.len() - i,
{
    if i >= x.len() || i >= y.len() {
        true
    } else {
        val_eq(x[i as int], y[i as int]) && items_eq(x, y, i + 1)
    }
}

/// Each key of `x` from index `i` on is in `y`, with an equal value.
pub open spec fn hash_sub(x: Seq<(Seq<char>, Val)>, y: Seq<(Seq<char>, Val)>, i: nat) -> bool
    decreases x, x.len() - i,
{
    if i >= x.len() {
        true
    } else {
        match (entry_pos(x, x[i as int].0), entry_pos(y, x[i as int].0)) {
            (Some(m), Some(j)) => {
                proof {
                    lemma_entry_pos(x, x[i as int].0);
                }
                0 <= m < x.len() && val_eq(x[m].1, y[j].1) && hash_sub(x, y, i + 1)
            },
            _ => false,
        }
    }
}

/// Each key of `y` is a key of `x`.
pub open spec fn keys_in(y: Seq<(Seq<char>, Val)>, x: Seq<(Seq<char>, Val)>) -> bool {
    forall|j: int| 0 <= j < y.len() ==> (#[trigger] entry_pos(x, y[j].0)) is Some
}

/// The symbol of a host function.
pub open spec fn builtin_name(b: Builtin) -> Seq<char> {
    match b {
        Builtin::Equal => seq!['='],
        Builtin::List => seq!['l', 'i', 's', 't'],
        Builtin::ListQ => seq!['l', 'i', 's', 't', '?'],
        Builtin::EmptyQ => seq!['e', 'm', 'p', 't', 'y', '?'],
        Builtin::Count => seq!['c', 'o', 'u', 'n', 't'],
        Builtin::Add => seq!['+'],
        Builtin::Sub => seq!['-'],
        Builtin::Mul => seq!['*'],
        Builtin::Div => seq!['/'],
        Builtin::Lt => seq!['<'],
        Builtin::Lte => seq!['<', '='],
        Builtin::Gt => seq!['>'],
        Builtin::Gte => seq!['>', '='],
        Builtin::Prn => seq!['p', 'r', 'n'],
    }
}

/// The number of arguments of a host function; `None` for `list`, which takes any.
pub open spec fn builtin_arity(b: Builtin) -> Option<nat> {
    match b {
        Builtin::List => None,
        Builtin::ListQ | Builtin::EmptyQ | Builtin::Count | Builtin::Prn => Some(1),
        _ => Some(2),
    }
}

pub open spec fn in_i32(x: int) -> bool {
    i32::MIN <= x <= i32::MAX
}

/// Integer division truncated toward zero.
pub open spec fn trunc_div(a: int, b: int) -> int {
    let q: int = vstd::math::abs(a) as int / vstd::math::abs(b) as int;
    if (a < 0) != (b < 0) {
        -q
    } else {
        q
    }
}

/// Result of an arithmetic host function on two integers.
pub open spec fn arith(b: Builtin, x: int, y: int) -> Result<Val, ErrV> {
    let r = match b {
        Builtin::Add => x + y,
        Builtin::Sub => x - y,
        Builtin::Mul => x * y,
        _ => trunc_div(x, y),
    };
    if b == Builtin::Div && y == 0 {
        Err(ErrV::DivByZero)
    } else if in_i32(r) {
        Ok(Val::Integer(r as i32))
    } else {
        Err(ErrV::Overflow)
    }
}

/// Result of a comparison host function on two integers.
pub open spec fn compare(b: Builtin, x: int, y: int) -> bool {
    match b {
        Builtin::Lt => x < y,
        Builtin::Lte => x <= y,
        Builtin::Gt => x > y,
        _ => x >= y,
    }
}

pub open spec fn is_arith(b: Builtin) -> bool {
    b == Builtin::Add || b == Builtin::Sub || b == Builtin::Mul || b == Builtin::Div
}

pub open spec fn is_compare(b: Builtin) -> bool {
    b == Builtin::Lt || b == Builtin::Lte || b == Builtin::Gt || b == Builtin::Gte
}

/// What a host function returns on arguments of the right number, and what
/// it adds to the printed output.
pub open spec fn builtin_spec(b: Builtin, args: Seq<Val>, st: Store) -> (Result<Val, ErrV>, Store) {
    match b {
        Builtin::Prn => (Ok(Val::Nil), Store { out: st.out.push(pr_val(args[0], true)), ..st }),
        _ => (builtin_value(b, args), st),
    }
}

/// What a host function other than `prn` returns on arguments of the right number.
pub open spec fn builtin_value(b: Builtin, args: Seq<Val>) -> Result<Val, ErrV> {
    if b == Builtin::Equal {
        Ok(bool_val(val_eq(args[0], args[1])))
    } else if b == Builtin::List {
        Ok(Val::List(args))
    } else if b == Builtin::ListQ {
        Ok(bool_val(args[0] is List))
    } else if b == Builtin::EmptyQ {
        match args[0] {
            Val::List(s) => Ok(bool_val(s.len() == 0)),
            Val::Vector(s) => Ok(bool_val(s.len() == 0)),
            _ => Err(ErrV::TypeError(b)),
        }
    } else if b == Builtin::Count {
        match args[0] {
            Val::List(s) => count_of(s),
            Val::Vector(s) => count_of(s),
            Val::Nil => Ok(Val::Integer(0)),
            _ => Err(ErrV::TypeError(b)),
        }
    } else {
        match (args[0], args[1]) {
            (Val::Integer(x), Val::Integer(y)) => if is_arith(b) {
                arith(b, x as int, y as int)
            } else {
                Ok(bool_val(compare(b, x as int, y as int)))
            },
            _ => Err(ErrV::TypeError(b)),
        }
    }
}

pub open spec fn count_of(s: Seq<Val>) -> Result<Val, ErrV> {
    if s.len() <= i32::MAX {
        Ok(Val::Integer(s.len() as i32))
    } else {
        Err(ErrV::Overflow)
    }
}

pub(crate) fn entry_position(es: &Vec<(String, MalValue)>, k: &String) -> (r: Option<usize>)
    ensures
        match r {
            Some(j) => entry_pos(crate::types::entry_views(es@), k@) == Some(j as int) && j < es@.len(),
            None => entry_pos(crate::types::entry_views(es@), k@) is None,
        },
{
    let ghost v = crate::types::entry_views(es@);
    proof {
        crate::types::lemma_entry_views(es@);
        assert(v.subrange(0, v.len() as int) =~= v);
    }
    let mut i: usize = es.len();
    while i > 0
        invariant
            i <= es@.len(),
            v == crate::types::entry_views(es@),
            v.len() == es@.len(),
            forall|m: int| 0 <= m < es@.len() ==> #[trigger] v[m] == (es@[m].0@, (*es@[m].1)@),
            entry_pos(v, k@) == entry_pos(v.subrange(0, i as int), k@),
        decreases i,
    {
        if es[i - 1].0 == *k {
            assert(v.subrange(0, i as int).last() == v[i - 1]);
            return Some(i - 1);
        }
        assert(v.subrange(0, i as int).drop_last() =~= v.subrange(0, i - 1));
        i = i - 1;
    }
    None
}

/// Structural equality of two values (see `val_eq`).
pub fn values_equal(a: &MalType, b: &MalType) -> (r: bool)
    ensures
        r == val_eq(a@, b@),
    decreases a,
{
    match (a, b) {
        (MalType::Nil, MalType::Nil) => true,
        (MalType::True, MalType::True) => true,
        (MalType::False, MalType::False) => true,
        (MalType::Integer(x), MalType::Integer(y)) => *x == *y,
        (MalType::Str(x), MalType::Str(y)) => *x == *y,
        (MalType::Symbol(x), MalType::Symbol(y)) => *x == *y,
        (MalType::List(x), MalType::List(y)) => seq_equal(x, y),
        (MalType::Vector(x), MalType::Vector(y)) => seq_equal(x, y),
        (MalType::Hash(x), MalType::Hash(y)) => hash_equal(x, y),
        _ => false,
    }
}

fn seq_equal(x: &Vec<MalValue>, y: &Vec<MalValue>) -> (r: bool)
    ensures
        r == (views(x@).len() == views(y@).len() && items_eq(views(x@), views(y@), 0)),
    decreases x,
{
    proof {
        crate::types::lemma_views(x@);
        crate::types::lemma_views(y@);
    }
    if x.len() != y.len() {
        return false;
    }
    let ghost vx = views(x@);
    let ghost vy = views(y@);
    let mut i: usize = 0;
    while i < x.len()
        invariant
            x@.len() == y@.len(),
            i <= x@.len(),
            vx == views(x@),
            vy == views(y@),
            vx.len() == x@.len(),
            vy.len() == y@.len(),
            forall|m: int| 0 <= m < x@.len() ==> #[trigger] vx[m] == (*x@[m])@,
            forall|m: int| 0 <= m < y@.len() ==> #[trigger] vy[m] == (*y@[m])@,
            items_eq(vx, vy, 0) == items_eq(vx, vy, i as nat),
        decreases x@.len() - i,
    {
        if !values_equal(&x[i], &y[i]) {
            return false;
        }
        i = i + 1;
    }
    true
}

fn hash_equal(x: &Vec<(String, MalValue)>, y: &Vec<(String, MalValue)>) -> (r: bool)
    ensures
        r == (hash_sub(crate::types::entry_views(x@), crate::types::entry_views(y@), 0) && keys_in(
            crate::types::entry_views(y@),
            crate::types::entry_views(x@),
        )),
    decreases x,
{
    let ghost vx = crate::types::entry_views(x@);
    let ghost vy = crate::types::entry_views(y@);
    proof {
        crate::types::lemma_entry_views(x@);
        crate::types::lemma_entry_views(y@);
    }
    let mut i: usize = 0;
    while i < x.len()
        invariant
            i <= x@.len(),
            vx == crate::types::entry_views(x@),
            vy == crate::types::entry_views(y@),
            vx.len() == x@.len(),
            vy.len() == y@.len(),
            forall|m: int| 0 <= m < x@.len() ==> #[trigger] vx[m] == (x@[m].0@, (*x@[m].1)@),
            forall|m: int| 0 <= m < y@.len() ==> #[trigger] vy[m] == (y@[m].0@, (*y@[m].1)@),
            hash_sub(vx, vy, 0) == hash_sub(vx, vy, i as nat),
        decreases x@.len() - i,
    {
        let key = &x[i].0;
        proof {
            lemma_entry_pos(vx, vx[i as int].0);
        }
        match (entry_position(x, key), entry_position(y, key)) {
            (Some(m), Some(j)) => {
                if !values_equal(&x[m].1, &y[j].1) {
                    return false;
                }
            },
            _ => {
                return false;
            },
        }
        i = i + 1;
    }
    let mut j: usize = 0;
    while j < y.len()
        invariant
            j <= y@.len(),
            hash_sub(vx, vy, 0),
            vx == crate::types::entry_views(x@),
            vy == crate::types::entry_views(y@),
            vy.len() == y@.len(),
            forall|m: int| 0 <= m < y@.len() ==> #[trigger] vy[m] == (y@[m].0@, (*y@[m].1)@),
            forall|m: int| 0 <= m < j ==> (#[trigger] entry_pos(vx, vy[m].0)) is Some,
        decreases y@.len() - j,
    {
        if entry_position(x, &y[j].0).is_none() {
            assert(entry_pos(vx, vy[j as int].0) is None);
            return false;
        }
        j = j + 1;
    }
    true
}


/// The outcome of calling host function `b` on `args`: a `WrongArity` error
/// when their number is not the one `b` takes.
pub open spec fn builtin_call(b: Builtin, args: Seq<Val>, st: Store) -> (Result<Val, ErrV>, Store) {
    match builtin_arity(b) {
        Some(n) => if args.len() != n {
            (Err(ErrV::WrongArity(builtin_name(b), n, args.len())), st)
        } else {
            builtin_spec(b, args, st)
        },
        None => builtin_spec(b, args, st),
    }
}

/// The name of a host function, as a string.
pub fn builtin_name_string(b: Builtin) -> (r: String)
    ensures
        r@ == builtin_name(b),
{
    let v: Vec<char> = match b {
        Builtin::Equal => vec!['='],
        Builtin::List => vec!['l', 'i', 's', 't'],
        Builtin::ListQ => vec!['l', 'i', 's', 't', '?'],
        Builtin::EmptyQ => vec!['e', 'm', 'p', 't', 'y', '?'],
        Builtin::Count => vec!['c', 'o', 'u', 'n', 't'],
        Builtin::Add => vec!['+'],
        Builtin::Sub => vec!['-'],
        Builtin::Mul => vec!['*'],
        Builtin::Div => vec!['/'],
        Builtin::Lt => vec!['<'],
        Builtin::Lte => vec!['<', '='],
        Builtin::Gt => vec!['>'],
        Builtin::Gte => vec!['>', '='],
        Builtin::Prn => vec!['p', 'r', 'n'],
    };
    assert(v@ =~= builtin_name(b));
    crate::text::string_from_chars(&v)
}

/// The number of arguments a host function takes.
pub fn builtin_arity_of(b: Builtin) -> (r: Option<usize>)
    ensures
        crate::types::opt_nat(r) == builtin_arity(b),
{
    match b {
        Builtin::List => None,
        Builtin::ListQ | Builtin::EmptyQ | Builtin::Count | Builtin::Prn => Some(1),
        _ => Some(2),
    }
}

/// Integer arithmetic on two integers.
fn int_op(b: Builtin, x: i32, y: i32) -> (r: MalResult)
    requires
        is_arith(b),
    ensures
        res_view(r) == arith(b, x as int, y as int),
{
    let a = x as i64;
    let c = y as i64;
    let r: i64 = match b {
        Builtin::Add => a + c,
        Builtin::Sub => a - c,
        Builtin::Mul => {
            assert(-2147483648 * 2147483648 <= a * c <= 2147483648 * 2147483648) by (nonlinear_arith)
                requires
                    -2147483648 <= a <= 2147483647,
                    -2147483648 <= c <= 2147483647,
            ;
            a * c
        },
        _ => {
            if c == 0 {
                return Err(MalError::DivByZero);
            }
            let p: i64 = if a < 0 { -a } else { a };
            let q: i64 = if c < 0 { -c } else { c };
            let d = p / q;
            if (a < 0) != (c < 0) {
                -d
            } else {
                d
            }
        },
    };
    if r < i32::MIN as i64 || r > i32::MAX as i64 {
        Err(MalError::Overflow)
    } else {
        Ok(new_integer(r as i32))
    }
}

/// Integer comparison of two integers.
fn int_cmp(b: Builtin, x: i32, y: i32) -> (r: bool)
    requires
        is_compare(b),
    ensures
        r == compare(b, x as int, y as int),
{
    match b {
        Builtin::Lt => x < y,
        Builtin::Lte => x <= y,
        Builtin::Gt => x > y,
        _ => x >= y,
    }
}

/// Length of a list or vector as an integer value.
fn count_value(s: &Vec<MalValue>) -> (r: MalResult)
    ensures
        res_view(r) == count_of(views(s@)),
{
    proof {
        crate::types::lemma_views(s@);
    }
    if s.len() <= i32::MAX as usize {
        Ok(new_integer(s.len() as i32))
    } else {
        Err(MalError::Overflow)
    }
}

/// Call host function `b` on `args`.
pub fn call_builtin(b: Builtin, args: &Vec<MalValue>, envs: &mut EnvData) -> (r: MalResult)
    ensures
        (res_view(r), final(envs)@) == builtin_call(b, views(args@), old(envs)@),
{
    proof {
        crate::types::lemma_views(args@);
    }
    match builtin_arity_of(b) {
        Some(n) => {
            if args.len() != n {
                return Err(MalError::WrongArity(builtin_name_string(b), n, args.len()));
            }
        },
        None => {},
    }
    match b {
        Builtin::Prn => {
            let line = args[0].pr_str(true);
            envs.write_line(line);
            Ok(new_nil())
        },
        Builtin::Equal => Ok(new_bool(values_equal(&args[0], &args[1]))),
        Builtin::List => {
            let items = crate::types::tail_from(args, 0);
            assert(views(args@).subrange(0, args@.len() as int) =~= views(args@));
            Ok(new_list(items))
        },
        Builtin::ListQ => Ok(new_bool(matches!(&*args[0], MalType::List(_)))),
        Builtin::EmptyQ => match &*args[0] {
            MalType::List(s) => {
                proof { crate::types::lemma_views(s@); }
                Ok(new_bool(s.len() == 0))
            },
            MalType::Vector(s) => {
                proof { crate::types::lemma_views(s@); }
                Ok(new_bool(s.len() == 0))
            },
            _ => Err(MalError::TypeError(b)),
        },
        Builtin::Count => match &*args[0] {
            MalType::List(s) => count_value(s),
            MalType::Vector(s) => count_value(s),
            MalType::Nil => Ok(new_integer(0)),
            _ => Err(MalError::TypeError(b)),
        },
        _ => match (&*args[0], &*args[1]) {
            (MalType::Integer(x), MalType::Integer(y)) => {
                if matches!(b, Builtin::Add | Builtin::Sub | Builtin::Mul | Builtin::Div) {
                    int_op(b, *x, *y)
                } else {
                    Ok(new_bool(int_cmp(b, *x, *y)))
                }
            },
            _ => Err(MalError::TypeError(b)),
        },
    }
}

/// The host functions of the core namespace, in the order `ns` lists them.
pub open spec fn core_builtins() -> Seq<Builtin> {
    seq![
        Builtin::Equal,
        Builtin::List,
        Builtin::ListQ,
        Builtin::EmptyQ,
        Builtin::Count,
        Builtin::Add,
        Builtin::Sub,
        Builtin::Mul,
        Builtin::Div,
        Builtin::Lt,
        Builtin::Lte,
        Builtin::Gt,
        Builtin::Gte,
        Builtin::Prn,
    ]
}

/// The model of the host function value for `b`.
pub open spec fn native_of(b: Builtin) -> Val {
    Val::Native { function: b, arity: builtin_arity(b), name: builtin_name(b) }
}

/// The host function value for `b`.
pub fn native(b: Builtin) -> (r: MalValue)
    ensures
        (*r)@ == native_of(b),
{
    new_function(b, builtin_arity_of(b), builtin_name_string(b))
}

/// The (symbol name, function) pairs of the core namespace.
pub fn ns() -> (r: Vec<(String, MalValue)>)
    ensures
        r@.len() == core_builtins().len(),
        forall|i: int|
            0 <= i < r@.len() ==> #[trigger] r@[i].0@ == builtin_name(core_builtins()[i]) && (
            *r@[i].1)@ == native_of(core_builtins()[i]),
{
    let all = vec![
        Builtin::Equal,
        Builtin::List,
        Builtin::ListQ,
        Builtin::EmptyQ,
        Builtin::Count,
        Builtin::Add,
        Builtin::Sub,
        Builtin::Mul,
        Builtin::Div,
        Builtin::Lt,
        Builtin::Lte,
        Builtin::Gt,
        Builtin::Gte,
        Builtin::Prn,
    ];
    assert(all@ =~= core_builtins());
    let mut r: Vec<(String, MalValue)> = Vec::new();
    let mut i: usize = 0;
    while i < all.len()
        invariant
            all@ == core_builtins(),
            i <= all@.len(),
            r@.len() == i,
            forall|j: int|
                0 <= j < i ==> #[trigger] r@[j].0@ == builtin_name(core_builtins()[j]) && (
                *r@[j].1)@ == native_of(core_builtins()[j]),
        decreases all@.len() - i,
    {
        r.push((builtin_name_string(all[i]), native(all[i])));
        i = i + 1;
    }
    r
}

} // verus!
