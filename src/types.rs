//! The values shared by the reader, the printer, the environments and the
//! evaluator, with their mathematical model.
use std::rc::Rc;
use vstd::prelude::*;

verus! {

/// Handle of an environment: its index in an `EnvData` arena.
pub type Env = usize;

/// The host functions of the core namespace.
#[derive(PartialEq, Eq, Structural, Clone, Copy, Debug)]
pub enum Builtin {
    Equal,
    List,
    ListQ,
    EmptyQ,
    Count,
    Add,
    Sub,
    Mul,
    Div,
    Lt,
    Lte,
    Gt,
    Gte,
    Prn,
}

/// The special forms of the evaluator.
#[derive(PartialEq, Eq, Structural, Clone, Copy, Debug)]
pub enum SpecialForm {
    Def,
    Let,
    Do,
    If,
    Fn,
}

/// The different types a MAL value can take.
#[derive(Debug)]
pub enum MalType {
    Nil,
    True,
    False,
    Integer(i32),
    Str(String),
    Symbol(String),
    List(Vec<MalValue>),
    Vector(Vec<MalValue>),
    /// Entries of a hash map, string key first; keys are unique.
    Hash(Vec<(String, MalValue)>),
    Function(FunctionData),
    MalFunction(MalFunctionData),
}

/// A reference-counted MAL value.
pub type MalValue = Rc<MalType>;

/// Metadata of a host function of the core namespace.
#[derive(Debug)]
pub struct FunctionData {
    /// Which host function runs.
    pub function: Builtin,
    /// The number of arguments it takes; `None` when it takes any number.
    pub arity: Option<usize>,
    /// Its name, used when printing and in error messages.
    pub name: String,
}

/// A function defined in MAL (a closure).
#[derive(Debug)]
pub struct MalFunctionData {
    /// The environment the closure was created in.
    pub env: Env,
    /// The parameter form: a list or vector of symbols, possibly with `&`.
    pub args: MalValue,
    /// The body.
    pub exp: MalValue,
}

/// Mathematical model of a value.
pub enum Val {
    Nil,
    True,
    False,
    Integer(i32),
    Str(Seq<char>),
    Symbol(Seq<char>),
    List(Seq<Val>),
    Vector(Seq<Val>),
    Hash(Seq<(Seq<char>, Val)>),
    Native { function: Builtin, arity: Option<nat>, name: Seq<char> },
    Closure { env: nat, params: Box<Val>, body: Box<Val> },
}

pub open spec fn opt_nat(o: Option<usize>) -> Option<nat> {
    match o {
        Some(n) => Some(n as nat),
        None => None,
    }
}

impl View for MalType {
    type V = Val;

    open spec fn view(&self) -> Val {
        val_of(*self)
    }
}

/// The model of a value.
pub open spec fn val_of(v: MalType) -> Val
    decreases v,
{
        match v {
            MalType::Nil => Val::Nil,
            MalType::True => Val::True,
            MalType::False => Val::False,
            MalType::Integer(i) => Val::Integer(i),
            MalType::Str(s) => Val::Str(s@),
            MalType::Symbol(s) => Val::Symbol(s@),
            MalType::List(items) => Val::List(views(items@)),
            MalType::Vector(items) => Val::Vector(views(items@)),
            MalType::Hash(entries) => Val::Hash(entry_views(entries@)),
            MalType::Function(data) => Val::Native {
                function: data.function,
                arity: opt_nat(data.arity),
                name: data.name@,
            },
            MalType::MalFunction(data) => Val::Closure {
                env: data.env as nat,
                params: Box::new(val_of(*data.args)),
                body: Box::new(val_of(*data.exp)),
            },
        }
}

/// The models of a sequence of values.
pub open spec fn views(s: Seq<MalValue>) -> Seq<Val>
    decreases s,
{
    if s.len() == 0 {
        Seq::empty()
    } else {
        views(s.subrange(0, s.len() - 1)).push(val_of(*s[s.len() - 1]))
    }
}

/// The models of the entries of a hash map.
pub open spec fn entry_views(s: Seq<(String, MalValue)>) -> Seq<(Seq<char>, Val)>
    decreases s,
{
    if s.len() == 0 {
        Seq::empty()
    } else {
        entry_views(s.subrange(0, s.len() - 1)).push(
            (s[s.len() - 1].0@, val_of(*s[s.len() - 1].1)),
        )
    }
}

pub broadcast proof fn lemma_views(s: Seq<MalValue>)
    ensures
        #[trigger] views(s).len() == s.len(),
        forall|i: int| 0 <= i < s.len() ==> #[trigger] views(s)[i] == (*s[i])@,
    decreases s.len(),
{
    if s.len() > 0 {
        lemma_views(s.subrange(0, s.len() - 1));
    }
}

pub broadcast proof fn lemma_entry_views(s: Seq<(String, MalValue)>)
    ensures
        #[trigger] entry_views(s).len() == s.len(),
        forall|i: int| 0 <= i < s.len() ==> #[trigger] entry_views(s)[i] == (s[i].0@, (*s[i].1)@),
    decreases s.len(),
{
    if s.len() > 0 {
        lemma_entry_views(s.subrange(0, s.len() - 1));
    }
}

pub proof fn lemma_views_push(s: Seq<MalValue>, x: MalValue)
    ensures
        views(s.push(x)) == views(s).push((*x)@),
{
    assert(s.push(x).subrange(0, s.len() as int) =~= s);
}

pub proof fn lemma_entry_views_push(s: Seq<(String, MalValue)>, x: (String, MalValue))
    ensures
        entry_views(s.push(x)) == entry_views(s).push((x.0@, (*x.1)@)),
{
    assert(s.push(x).subrange(0, s.len() as int) =~= s);
}

pub proof fn lemma_entry_views_update(s: Seq<(String, MalValue)>, j: int, x: (String, MalValue))
    requires
        0 <= j < s.len(),
    ensures
        entry_views(s.update(j, x)) == entry_views(s).update(j, (x.0@, (*x.1)@)),
{
    lemma_entry_views(s);
    lemma_entry_views(s.update(j, x));
    assert(entry_views(s.update(j, x)) =~= entry_views(s).update(j, (x.0@, (*x.1)@)));
}

/// A copy of `v[from..]`, sharing the elements.
pub fn tail_from(v: &Vec<MalValue>, from: usize) -> (r: Vec<MalValue>)
    requires
        from <= v@.len(),
    ensures
        r@ == v@.subrange(from as int, v@.len() as int),
        views(r@) == views(v@).subrange(from as int, v@.len() as int),
{
    let mut r: Vec<MalValue> = Vec::new();
    let mut i: usize = from;
    while i < v.len()
        invariant
            from <= i <= v@.len(),
            r@ == v@.subrange(from as int, i as int),
        decreases v@.len() - i,
    {
        r.push(v[i].clone());
        i = i + 1;
        assert(r@ =~= v@.subrange(from as int, i as int));
    }
    proof {
        lemma_views(r@);
        lemma_views(v@);
        assert(views(r@) =~= views(v@).subrange(from as int, v@.len() as int));
    }
    r
}

/// No two entries share a key.
pub open spec fn distinct_keys(es: Seq<(Seq<char>, Val)>) -> bool {
    forall|i: int, j: int| 0 <= i < j < es.len() ==> es[i].0 != es[j].0
}

/// The errors of the interpreter.
#[derive(Debug)]
pub enum MalError {
    /// The input holds no token.
    ErrEmptyLine,
    /// A free-form message.
    ErrString(String),
    /// A closing delimiter where a form should start.
    UnexpectedDelimiter(char),
    /// The input ended before the given closing delimiter.
    UnbalancedDelimiter(char),
    /// A string literal without its closing quote.
    UnterminatedString,
    /// An integer literal outside the 32-bit range.
    BadInteger(String),
    /// A hash literal of odd length or with a non-string key.
    BadHash,
    /// Lookup of an unbound symbol.
    SymbolNotFound(String),
    /// Wrong arity or shape of a special form.
    BadSpecialForm(SpecialForm),
    /// A parameter that is not a symbol.
    NonSymbolBinding,
    /// No symbol after `&` in a parameter list.
    MissingVariadic,
    /// Fewer arguments than positional parameters.
    NotEnoughArgs,
    /// A host function called with the wrong number of arguments:
    /// its name, the expected and the given count.
    WrongArity(String, usize, usize),
    /// A host function called on an argument of the wrong type.
    TypeError(Builtin),
    /// Integer division by zero.
    DivByZero,
    /// An integer result outside the 32-bit range.
    Overflow,
    /// Application of a value that is not a function.
    NotCallable,
    /// The nesting of evaluations went past the depth limit.
    DepthExceeded,
}

/// Mathematical model of an error.
pub enum ErrV {
    EmptyLine,
    Message(Seq<char>),
    UnexpectedDelimiter(char),
    UnbalancedDelimiter(char),
    UnterminatedString,
    BadInteger(Seq<char>),
    BadHash,
    SymbolNotFound(Seq<char>),
    BadSpecialForm(SpecialForm),
    NonSymbolBinding,
    MissingVariadic,
    NotEnoughArgs,
    WrongArity(Seq<char>, nat, nat),
    TypeError(Builtin),
    DivByZero,
    Overflow,
    NotCallable,
    DepthExceeded,
}

impl View for MalError {
    type V = ErrV;

    open spec fn view(&self) -> ErrV {
        match self {
            MalError::ErrEmptyLine => ErrV::EmptyLine,
            MalError::ErrString(s) => ErrV::Message(s@),
            MalError::UnexpectedDelimiter(c) => ErrV::UnexpectedDelimiter(*c),
            MalError::UnbalancedDelimiter(c) => ErrV::UnbalancedDelimiter(*c),
            MalError::UnterminatedString => ErrV::UnterminatedString,
            MalError::BadInteger(s) => ErrV::BadInteger(s@),
            MalError::BadHash => ErrV::BadHash,
            MalError::SymbolNotFound(s) => ErrV::SymbolNotFound(s@),
            MalError::BadSpecialForm(f) => ErrV::BadSpecialForm(*f),
            MalError::NonSymbolBinding => ErrV::NonSymbolBinding,
            MalError::MissingVariadic => ErrV::MissingVariadic,
            MalError::NotEnoughArgs => ErrV::NotEnoughArgs,
            MalError::WrongArity(n, e, g) => ErrV::WrongArity(n@, *e as nat, *g as nat),
            MalError::TypeError(b) => ErrV::TypeError(*b),
            MalError::DivByZero => ErrV::DivByZero,
            MalError::Overflow => ErrV::Overflow,
            MalError::NotCallable => ErrV::NotCallable,
            MalError::DepthExceeded => ErrV::DepthExceeded,
        }
    }
}

/// Frequently used return type for functions dealing with MAL values.
pub type MalResult = Result<MalValue, MalError>;

/// Model of a result.
pub open spec fn res_view(r: MalResult) -> Result<Val, ErrV> {
    match r {
        Ok(v) => Ok((*v)@),
        Err(e) => Err(e@),
    }
}

pub fn err_str(error: &str) -> (r: MalResult)
    ensures
        r matches Err(MalError::ErrString(s)) && s@ == error@,
{
    Err(MalError::ErrString(error.to_string()))
}

pub fn err_string(error: String) -> (r: MalResult)
    ensures
        r matches Err(MalError::ErrString(s)) && s@ == error@,
{
    Err(MalError::ErrString(error))
}

pub fn new_nil() -> (r: MalValue)
    ensures
        (*r)@ == Val::Nil,
{
    Rc::new(MalType::Nil)
}

pub fn new_true() -> (r: MalValue)
    ensures
        (*r)@ == Val::True,
{
    Rc::new(MalType::True)
}

pub fn new_false() -> (r: MalValue)
    ensures
        (*r)@ == Val::False,
{
    Rc::new(MalType::False)
}

/// `True` or `False` according to `b`.
pub fn new_bool(b: bool) -> (r: MalValue)
    ensures
        (*r)@ == bool_val(b),
{
    if b {
        new_true()
    } else {
        new_false()
    }
}

pub open spec fn bool_val(b: bool) -> Val {
    if b {
        Val::True
    } else {
        Val::False
    }
}

pub fn new_integer(integer: i32) -> (r: MalValue)
    ensures
        (*r)@ == Val::Integer(integer),
{
    Rc::new(MalType::Integer(integer))
}

pub fn new_str(string: String) -> (r: MalValue)
    ensures
        (*r)@ == Val::Str(string@),
{
    Rc::new(MalType::Str(string))
}

pub fn new_str_from_slice(slice: &str) -> (r: MalValue)
    ensures
        (*r)@ == Val::Str(slice@),
{
    Rc::new(MalType::Str(slice.to_string()))
}

pub fn new_symbol(symbol: String) -> (r: MalValue)
    ensures
        (*r)@ == Val::Symbol(symbol@),
{
    Rc::new(MalType::Symbol(symbol))
}

pub fn new_list(seq: Vec<MalValue>) -> (r: MalValue)
    ensures
        (*r)@ == Val::List(views(seq@)),
{
    Rc::new(MalType::List(seq))
}

pub fn new_vector(seq: Vec<MalValue>) -> (r: MalValue)
    ensures
        (*r)@ == Val::Vector(views(seq@)),
{
    Rc::new(MalType::Vector(seq))
}

pub fn new_hash(entries: Vec<(String, MalValue)>) -> (r: MalValue)
    requires
        distinct_keys(entry_views(entries@)),
    ensures
        (*r)@ == Val::Hash(entry_views(entries@)),
{
    Rc::new(MalType::Hash(entries))
}

pub fn new_function(function: Builtin, arity: Option<usize>, name: String) -> (r: MalValue)
    ensures
        (*r)@ == (Val::Native { function, arity: opt_nat(arity), name: name@ }),
{
    Rc::new(MalType::Function(FunctionData { function, arity, name }))
}

pub fn new_mal_function(env: Env, args: MalValue, exp: MalValue) -> (r: MalValue)
    ensures
        (*r)@ == (Val::Closure {
            env: env as nat,
            params: Box::new((*args)@),
            body: Box::new((*exp)@),
        }),
{
    Rc::new(MalType::MalFunction(MalFunctionData { env, args, exp }))
}

} // verus!
