//! Reading the readable printed form of a data value gives the value back.
use crate::builtins::{entry_pos, hash_sub, items_eq, val_eq};
use crate::printer::{escape, escape_char, pr_entries, pr_entry, pr_items, pr_val, quoted};
use crate::reader::{
    all_digits, atom_end, atom_val, closer, cons_tokens, digits_value, hash_of, hash_pairs,
    int_token_value, is_atom_char, is_int_token, is_special, lex, parse_form, parse_seq, read_spec,
    string_end, unescape,
};
use crate::text::{digit_char, digit_value, int_text, is_digit, nat_text};
use crate::types::{distinct_keys, ErrV, Val};
use vstd::prelude::*;

verus! {

proof fn lemma_nat_text(n: nat)
    ensures
        nat_text(n).len() >= 1,
        all_digits(nat_text(n)),
        digits_value(nat_text(n)) == n,
    decreases n,
{
    if n < 10 {
        let t = seq![digit_char(n as int)];
        assert(t.drop_last() =~= Seq::<char>::empty());
        assert(digit_value(digit_char(n as int)) == n);
        assert(digits_value(t) == digits_value(t.drop_last()) * 10 + digit_value(t.last()));
    } else {
        lemma_nat_text(n / 10);
        let t = nat_text(n / 10);
        let d = digit_char((n % 10) as int);
        assert(nat_text(n) == t.push(d));
        assert(t.push(d).drop_last() =~= t);
        assert(forall|i: int| 0 <= i < t.len() ==> t.push(d)[i] == t[i]);
        assert(n == (n / 10) * 10 + n % 10);
        assert(digit_value(d) == n % 10);
        assert(digits_value(t.push(d)) == digits_value(t) * 10 + digit_value(d));
    }
}

proof fn lemma_int_text(i: int)
    requires
        i32::MIN <= i <= i32::MAX,
    ensures
        is_int_token(int_text(i)),
        int_token_value(int_text(i)) == i,
        int_text(i).len() >= 1,
        forall|j: int| 0 <= j < int_text(i).len() ==> is_atom_char(#[trigger] int_text(i)[j]),
        is_digit(int_text(i)[0]) || int_text(i)[0] == '-',
{
    if i < 0 {
        let t = nat_text((-i) as nat);
        lemma_nat_text((-i) as nat);
        let s = seq!['-'] + t;
        assert(s.subrange(1, s.len() as int) =~= t);
        assert(forall|j: int| 1 <= j < s.len() ==> s[j] == t[j - 1]);
    } else {
        lemma_nat_text(i as nat);
    }
}

/// `escape` taken from the front.
proof fn lemma_escape_front(c: char, s: Seq<char>)
    ensures
        escape(seq![c] + s) == escape_char(c) + escape(s),
    decreases s.len(),
{
    if s.len() == 0 {
        let x = seq![c] + s;
        assert(x =~= seq![c]);
        assert(x.drop_last() =~= Seq::<char>::empty());
        assert(escape(x) == escape(x.drop_last()) + escape_char(x.last()));
        assert(escape(Seq::<char>::empty()) =~= Seq::<char>::empty());
        assert(escape(x) =~= escape_char(c));
        assert(escape_char(c) + escape(s) =~= escape_char(c));
    } else {
        let x = seq![c] + s;
        assert(x.drop_last() =~= seq![c] + s.drop_last());
        assert(x.last() == s.last());
        lemma_escape_front(c, s.drop_last());
        assert(escape_char(c) + escape(s.drop_last()) + escape_char(s.last()) =~= escape_char(c)
            + (escape(s.drop_last()) + escape_char(s.last())));
    }
}

proof fn lemma_unescape_escape(s: Seq<char>)
    ensures
        unescape(escape(s)) == s,
    decreases s.len(),
{
    if s.len() > 0 {
        let c = s[0];
        let r = s.subrange(1, s.len() as int);
        assert(s =~= seq![c] + r);
        lemma_escape_front(c, r);
        lemma_unescape_escape(r);
        let x = escape_char(c) + escape(r);
        if c == '"' || c == '\\' || c == '\n' {
            assert(x.subrange(2, x.len() as int) =~= escape(r));
        } else {
            assert(x.subrange(1, x.len() as int) =~= escape(r));
        }
        assert(seq![c] + r =~= s);
    } else {
        assert(escape(s) =~= Seq::<char>::empty());
    }
}

/// Scanning a string literal from inside its body finds its closing quote.
proof fn lemma_string_scan(a: Seq<char>, s: Seq<char>, r: Seq<char>)
    ensures
        string_end(a + escape(s) + seq!['"'] + r, a.len() as int) == Some(
            (a.len() + escape(s).len() + 1) as int,
        ),
    decreases s.len(),
{
    let x = a + escape(s) + seq!['"'] + r;
    if s.len() == 0 {
        assert(escape(s) =~= Seq::<char>::empty());
        assert(x[a.len() as int] == '"');
    } else {
        let c = s[0];
        let t = s.subrange(1, s.len() as int);
        assert(s =~= seq![c] + t);
        lemma_escape_front(c, t);
        let a2 = a + escape_char(c);
        lemma_string_scan(a2, t, r);
        assert(a2 + escape(t) + seq!['"'] + r =~= x);
        if c == '"' || c == '\\' || c == '\n' {
            assert(x[a.len() as int] == '\\');
            assert(x[a.len() + 1int] == escape_char(c)[1]);
        } else {
            assert(x[a.len() as int] == c);
        }
    }
}


/// Text that reads back as the symbol it names: a run of atom characters
/// that does not start with a special character and is not `nil`, `true`,
/// `false` or an integer literal.
pub open spec fn is_symbol_text(s: Seq<char>) -> bool {
    &&& s.len() >= 1
    &&& !is_special(s[0])
    &&& forall|i: int| 0 <= i < s.len() ==> is_atom_char(#[trigger] s[i])
    &&& s != seq!['n', 'i', 'l']
    &&& s != seq!['t', 'r', 'u', 'e']
    &&& s != seq!['f', 'a', 'l', 's', 'e']
    &&& !is_int_token(s)
}

/// Data values whose readable form reads back: no functions, symbols that
/// read as symbols, hash maps with distinct keys.
pub open spec fn readable(v: Val) -> bool
    decreases v,
{
    match v {
        Val::Nil | Val::True | Val::False | Val::Integer(_) | Val::Str(_) => true,
        Val::Symbol(s) => is_symbol_text(s),
        Val::List(items) => all_readable(items),
        Val::Vector(items) => all_readable(items),
        Val::Hash(es) => distinct_keys(es) && all_readable_entries(es),
        _ => false,
    }
}

/// Every element is `readable`.
pub open spec fn all_readable(items: Seq<Val>) -> bool
    decreases items,
{
    items.len() == 0 || (readable(items[0]) && all_readable(items.subrange(1, items.len() as int)))
}

/// Every value of the entries is `readable`.
pub open spec fn all_readable_entries(es: Seq<(Seq<char>, Val)>) -> bool
    decreases es,
{
    es.len() == 0 || (readable(es[0].1) && all_readable_entries(es.subrange(1, es.len() as int)))
}

/// The tokens of the readable form of a value.
pub open spec fn toks(v: Val) -> Seq<Seq<char>>
    decreases v,
{
    match v {
        Val::Nil => seq![seq!['n', 'i', 'l']],
        Val::True => seq![seq!['t', 'r', 'u', 'e']],
        Val::False => seq![seq!['f', 'a', 'l', 's', 'e']],
        Val::Integer(i) => seq![int_text(i as int)],
        Val::Str(s) => seq![quoted(s)],
        Val::Symbol(s) => seq![s],
        Val::List(items) => seq![seq!['(']] + toks_items(items) + seq![seq![')']],
        Val::Vector(items) => seq![seq!['[']] + toks_items(items) + seq![seq![']']],
        Val::Hash(es) => seq![seq!['{']] + toks_entries(es) + seq![seq!['}']],
        _ => Seq::empty(),
    }
}

pub open spec fn toks_items(items: Seq<Val>) -> Seq<Seq<char>>
    decreases items,
{
    if items.len() == 0 {
        Seq::empty()
    } else {
        toks(items[0]) + toks_items(items.subrange(1, items.len() as int))
    }
}

pub open spec fn toks_entries(es: Seq<(Seq<char>, Val)>) -> Seq<Seq<char>>
    decreases es,
{
    if es.len() == 0 {
        Seq::empty()
    } else {
        seq![quoted(es[0].0)] + toks(es[0].1) + toks_entries(es.subrange(1, es.len() as int))
    }
}

/// The keys (as strings) and values of the entries, alternating.
pub open spec fn hash_flat(es: Seq<(Seq<char>, Val)>) -> Seq<Val>
    decreases es.len(),
{
    if es.len() == 0 {
        Seq::empty()
    } else {
        seq![Val::Str(es[0].0), es[0].1] + hash_flat(es.subrange(1, es.len() as int))
    }
}

proof fn lemma_pr_items_front(items: Seq<Val>)
    requires
        items.len() >= 2,
    ensures
        pr_items(items, true) == pr_val(items[0], true) + seq![' '] + pr_items(
            items.subrange(1, items.len() as int),
            true,
        ),
    decreases items.len(),
{
    let n = items.len();
    let init = items.subrange(0, n - 1);
    let rest = items.subrange(1, n as int);
    assert(pr_items(items, true) == pr_items(init, true) + seq![' '] + pr_val(items[n - 1], true));
    if n == 2 {
        assert(init.len() == 1 && init[0] == items[0]);
        assert(rest.len() == 1 && rest[0] == items[1]);
        assert(pr_items(init, true) == pr_val(items[0], true));
        assert(pr_items(rest, true) == pr_val(items[1], true));
    } else {
        lemma_pr_items_front(init);
        assert(init.subrange(1, init.len() as int) =~= rest.subrange(0, rest.len() - 1));
        assert(rest[rest.len() - 1] == items[n - 1]);
        assert(pr_items(rest, true) == pr_items(rest.subrange(0, rest.len() - 1), true) + seq![' ']
            + pr_val(rest[rest.len() - 1], true));
        let a = pr_val(items[0], true);
        let b = pr_items(rest.subrange(0, rest.len() - 1), true);
        let c = pr_val(items[n - 1], true);
        assert(a + seq![' '] + b + seq![' '] + c =~= a + seq![' '] + (b + seq![' '] + c));
    }
}

proof fn lemma_pr_entries_front(es: Seq<(Seq<char>, Val)>)
    requires
        es.len() >= 2,
    ensures
        pr_entries(es, true) == pr_entry(es[0], true) + seq![' '] + pr_entries(
            es.subrange(1, es.len() as int),
            true,
        ),
    decreases es.len(),
{
    let n = es.len();
    let init = es.subrange(0, n - 1);
    let rest = es.subrange(1, n as int);
    assert(pr_entries(es, true) == pr_entries(init, true) + seq![' '] + pr_entry(es[n - 1], true));
    if n == 2 {
        assert(init.len() == 1 && init[0] == es[0]);
        assert(rest.len() == 1 && rest[0] == es[1]);
        assert(pr_entries(init, true) == pr_entry(es[0], true));
        assert(pr_entries(rest, true) == pr_entry(es[1], true));
    } else {
        lemma_pr_entries_front(init);
        assert(init.subrange(1, init.len() as int) =~= rest.subrange(0, rest.len() - 1));
        assert(rest[rest.len() - 1] == es[n - 1]);
        assert(pr_entries(rest, true) == pr_entries(rest.subrange(0, rest.len() - 1), true) + seq![
            ' ',
        ] + pr_entry(rest[rest.len() - 1], true));
        let a = pr_entry(es[0], true);
        let b = pr_entries(rest.subrange(0, rest.len() - 1), true);
        let c = pr_entry(es[n - 1], true);
        assert(a + seq![' '] + b + seq![' '] + c =~= a + seq![' '] + (b + seq![' '] + c));
    }
}

proof fn lemma_cons_assoc(a: Seq<Seq<char>>, b: Seq<Seq<char>>, x: Option<Seq<Seq<char>>>)
    ensures
        cons_tokens(a, cons_tokens(b, x)) == cons_tokens(a + b, x),
{
    match x {
        Some(q) => assert(a + (b + q) =~= a + b + q),
        None => {},
    }
}

proof fn lemma_cons_empty(x: Option<Seq<Seq<char>>>)
    ensures
        cons_tokens(Seq::empty(), x) == x,
{
    match x {
        Some(q) => assert(Seq::<Seq<char>>::empty() + q =~= q),
        None => {},
    }
}

/// Text that does not continue an atom.
pub open spec fn boundary(r: Seq<char>) -> bool {
    r.len() == 0 || !is_atom_char(r[0])
}

proof fn lemma_atom_end_of(t: Seq<char>, r: Seq<char>, i: int)
    requires
        1 <= i <= t.len(),
        forall|j: int| 0 <= j < t.len() ==> is_atom_char(#[trigger] t[j]),
        boundary(r),
    ensures
        atom_end(t + r, i) == t.len(),
    decreases t.len() - i,
{
    if i < t.len() {
        assert((t + r)[i] == t[i]);
        lemma_atom_end_of(t, r, i + 1);
    } else if r.len() > 0 {
        assert((t + r)[i] == r[0]);
    }
}

proof fn lemma_lex_atom(t: Seq<char>, r: Seq<char>)
    requires
        t.len() >= 1,
        !is_special(t[0]),
        forall|j: int| 0 <= j < t.len() ==> is_atom_char(#[trigger] t[j]),
        boundary(r),
    ensures
        lex(t + r) == cons_tokens(seq![t], lex(r)),
{
    let x = t + r;
    assert(x[0] == t[0]);
    assert(is_atom_char(t[0]));
    lemma_atom_end_of(t, r, 1);
    assert(x.subrange(0, t.len() as int) =~= t);
    assert(x.subrange(t.len() as int, x.len() as int) =~= r);
}

proof fn lemma_lex_special(c: char, r: Seq<char>)
    requires
        is_special(c),
        c != '~',
    ensures
        lex(seq![c] + r) == cons_tokens(seq![seq![c]], lex(r)),
{
    let x = seq![c] + r;
    assert(x[0] == c);
    assert(x.subrange(1, x.len() as int) =~= r);
}

proof fn lemma_lex_space(r: Seq<char>)
    ensures
        lex(seq![' '] + r) == lex(r),
{
    let x = seq![' '] + r;
    assert(x[0] == ' ');
    assert(x.subrange(1, x.len() as int) =~= r);
}

proof fn lemma_lex_string(s: Seq<char>, r: Seq<char>)
    ensures
        lex(quoted(s) + r) == cons_tokens(seq![quoted(s)], lex(r)),
{
    let x = quoted(s) + r;
    assert(x =~= seq!['"'] + escape(s) + seq!['"'] + r);
    lemma_string_scan(seq!['"'], s, r);
    assert(x[0] == '"');
    let e = quoted(s).len() as int;
    assert(x.subrange(0, e) =~= quoted(s));
    assert(x.subrange(e, x.len() as int) =~= r);
}

proof fn lemma_lex_val(v: Val, r: Seq<char>)
    requires
        readable(v),
        boundary(r),
    ensures
        lex(pr_val(v, true) + r) == cons_tokens(toks(v), lex(r)),
    decreases v, 0nat,
{
    match v {
        Val::Nil => {
            assert(pr_val(v, true) =~= seq!['n', 'i', 'l']);
            lemma_lex_atom(seq!['n', 'i', 'l'], r);
        },
        Val::True => {
            lemma_lex_atom(seq!['t', 'r', 'u', 'e'], r);
        },
        Val::False => {
            lemma_lex_atom(seq!['f', 'a', 'l', 's', 'e'], r);
        },
        Val::Integer(i) => {
            lemma_int_text(i as int);
            lemma_lex_atom(int_text(i as int), r);
        },
        Val::Str(s) => {
            lemma_lex_string(s, r);
        },
        Val::Symbol(s) => {
            lemma_lex_atom(s, r);
        },
        Val::List(items) => {
            lemma_lex_delimited(items, '(', ')', r);
        },
        Val::Vector(items) => {
            lemma_lex_delimited(items, '[', ']', r);
        },
        Val::Hash(es) => {
            let inner = pr_entries(es, true);
            let r2 = seq!['}'] + r;
            assert(pr_val(v, true) + r =~= seq!['{'] + (inner + r2));
            lemma_lex_special('{', inner + r2);
            lemma_lex_entries(es, r2);
            lemma_lex_special('}', r);
            lemma_cons_assoc(toks_entries(es), seq![seq!['}']], lex(r));
            lemma_cons_assoc(seq![seq!['{']], toks_entries(es) + seq![seq!['}']], lex(r));
            assert(seq![seq!['{']] + (toks_entries(es) + seq![seq!['}']]) =~= toks(v));
        },
        _ => {},
    }
}

proof fn lemma_lex_delimited(items: Seq<Val>, open: char, close: char, r: Seq<char>)
    requires
        all_readable(items),
        boundary(r),
        (open == '(' && close == ')') || (open == '[' && close == ']'),
    ensures
        lex(seq![open] + pr_items(items, true) + seq![close] + r) == cons_tokens(
            seq![seq![open]] + toks_items(items) + seq![seq![close]],
            lex(r),
        ),
    decreases items, 1nat,
{
    let inner = pr_items(items, true);
    let r2 = seq![close] + r;
    assert(seq![open] + inner + seq![close] + r =~= seq![open] + (inner + r2));
    lemma_lex_special(open, inner + r2);
    lemma_lex_items(items, r2);
    lemma_lex_special(close, r);
    lemma_cons_assoc(toks_items(items), seq![seq![close]], lex(r));
    lemma_cons_assoc(seq![seq![open]], toks_items(items) + seq![seq![close]], lex(r));
    assert(seq![seq![open]] + (toks_items(items) + seq![seq![close]]) =~= seq![seq![open]]
        + toks_items(items) + seq![seq![close]]);
}

proof fn lemma_lex_items(items: Seq<Val>, r: Seq<char>)
    requires
        all_readable(items),
        boundary(r),
    ensures
        lex(pr_items(items, true) + r) == cons_tokens(toks_items(items), lex(r)),
    decreases items, 0nat,
{
    let n = items.len();
    if n == 0 {
        assert(pr_items(items, true) + r =~= r);
        lemma_cons_empty(lex(r));
    } else {
        let rest = items.subrange(1, n as int);
        if n == 1 {
            assert(rest =~= Seq::<Val>::empty());
            assert(toks_items(rest) =~= Seq::<Seq<char>>::empty());
            assert(toks_items(items) =~= toks(items[0]));
            lemma_lex_val(items[0], r);
        } else {
            lemma_pr_items_front(items);
            let a = pr_val(items[0], true);
            let b = pr_items(rest, true);
            assert(pr_items(items, true) + r =~= a + (seq![' '] + (b + r)));
            lemma_lex_val(items[0], seq![' '] + (b + r));
            lemma_lex_space(b + r);
            lemma_lex_items(rest, r);
            lemma_cons_assoc(toks(items[0]), toks_items(rest), lex(r));
        }
    }
}

proof fn lemma_lex_entries(es: Seq<(Seq<char>, Val)>, r: Seq<char>)
    requires
        all_readable_entries(es),
        boundary(r),
    ensures
        lex(pr_entries(es, true) + r) == cons_tokens(toks_entries(es), lex(r)),
    decreases es, 0nat,
{
    let n = es.len();
    if n == 0 {
        assert(pr_entries(es, true) + r =~= r);
        lemma_cons_empty(lex(r));
    } else {
        let rest = es.subrange(1, n as int);
        let k = quoted(es[0].0);
        let v = es[0].1;
        let tail: Seq<char> = if n == 1 {
            r
        } else {
            seq![' '] + (pr_entries(rest, true) + r)
        };
        if n == 1 {
            assert(rest =~= Seq::<(Seq<char>, Val)>::empty());
            assert(pr_entries(es, true) == pr_entry(es[0], true));
        } else {
            lemma_pr_entries_front(es);
        }
        assert(pr_entries(es, true) + r =~= k + (seq![' '] + (pr_val(v, true) + tail)));
        lemma_lex_string(es[0].0, seq![' '] + (pr_val(v, true) + tail));
        lemma_lex_space(pr_val(v, true) + tail);
        lemma_lex_val(v, tail);
        if n == 1 {
            lemma_cons_empty(lex(r));
            assert(toks_entries(rest) =~= Seq::<Seq<char>>::empty());
            assert(toks(v) + Seq::<Seq<char>>::empty() =~= toks(v));
        } else {
            lemma_lex_space(pr_entries(rest, true) + r);
            lemma_lex_entries(rest, r);
            lemma_cons_assoc(toks(v), toks_entries(rest), lex(r));
        }
        lemma_cons_assoc(seq![k], toks(v) + toks_entries(rest), lex(r));
        assert(seq![k] + (toks(v) + toks_entries(rest)) =~= toks_entries(es));
    }
}


proof fn lemma_first_token(v: Val)
    requires
        readable(v),
    ensures
        toks(v).len() >= 1,
        closer(toks(v)[0]) is None,
        v is List ==> toks(v)[0] == seq!['('],
        v is Vector ==> toks(v)[0] == seq!['['],
        v is Hash ==> toks(v)[0] == seq!['{'],
        !(v is List || v is Vector || v is Hash) ==> (toks(v) == seq![toks(v)[0]] && toks(v)[0]
            != seq!['('] && toks(v)[0] != seq!['['] && toks(v)[0] != seq!['{'] && atom_val(toks(v)[0])
            == Ok::<Val, ErrV>(v)),
{
    match v {
        Val::Integer(i) => {
            lemma_int_text(i as int);
            let t = int_text(i as int);
            assert(t[0] != 'n' && t[0] != 't' && t[0] != 'f' && t[0] != '"');
            assert(t != seq!['n', 'i', 'l']);
            assert(t != seq!['t', 'r', 'u', 'e']);
            assert(t != seq!['f', 'a', 'l', 's', 'e']);
            assert(t != seq![')'] && t != seq![']'] && t != seq!['}']);
            assert(t != seq!['('] && t != seq!['['] && t != seq!['{']);
        },
        Val::Str(s) => {
            let t = quoted(s);
            assert(t[0] == '"');
            assert(t != seq!['n', 'i', 'l']);
            assert(t != seq!['t', 'r', 'u', 'e']);
            assert(t != seq!['f', 'a', 'l', 's', 'e']);
            assert(t.subrange(1, t.len() - 1) =~= escape(s));
            lemma_unescape_escape(s);
            assert(t != seq![')'] && t != seq![']'] && t != seq!['}']);
            assert(t != seq!['('] && t != seq!['['] && t != seq!['{']);
        },
        Val::Symbol(s) => {
            assert(is_atom_char(s[0]));
            assert(s != seq![')'] && s != seq![']'] && s != seq!['}']);
            assert(s != seq!['('] && s != seq!['['] && s != seq!['{']);
        },
        Val::List(items) => {},
        Val::Vector(items) => {},
        Val::Hash(es) => {},
        _ => {},
    }
}

proof fn lemma_split(t: Seq<Seq<char>>, p: int, a: Seq<Seq<char>>, b: Seq<Seq<char>>)
    requires
        0 <= p,
        p + a.len() + b.len() <= t.len(),
        t.subrange(p, p + a.len() + b.len()) == a + b,
    ensures
        t.subrange(p, p + a.len()) == a,
        t.subrange(p + a.len(), p + a.len() + b.len()) == b,
        forall|i: int| 0 <= i < a.len() ==> t[p + i] == a[i],
        forall|i: int| 0 <= i < b.len() ==> t[p + a.len() + i] == b[i],
{
    assert forall|i: int| 0 <= i < a.len() implies t[p + i] == a[i] by {
        assert(t.subrange(p, p + a.len() + b.len())[i] == (a + b)[i]);
    }
    assert forall|i: int| 0 <= i < b.len() implies t[p + a.len() + i] == b[i] by {
        assert(t.subrange(p, p + a.len() + b.len())[a.len() + i] == (a + b)[a.len() + i]);
    }
    assert(t.subrange(p, p + a.len()) =~= a);
    assert(t.subrange(p + a.len(), p + a.len() + b.len()) =~= b);
}

proof fn lemma_parse_val(v: Val, t: Seq<Seq<char>>, p: int)
    requires
        readable(v),
        0 <= p,
        p + toks(v).len() <= t.len(),
        t.subrange(p, p + toks(v).len()) == toks(v),
    ensures
        parse_form(t, p) == Ok::<(Val, int), ErrV>((v, p + toks(v).len())),
    decreases v, 0nat,
{
    lemma_first_token(v);
    assert(t[p] == toks(v)[0]);
    match v {
        Val::List(items) => {
            let ti = toks_items(items);
            lemma_split(t, p, seq![seq!['(']] + ti, seq![seq![')']]);
            lemma_split(t, p, seq![seq!['(']], ti);
            assert(t[p + (seq![seq!['(']] + ti).len() + 0] == seq![seq![')']][0]);
            lemma_parse_items(items, t, p + 1, ')');
        },
        Val::Vector(items) => {
            let ti = toks_items(items);
            lemma_split(t, p, seq![seq!['[']] + ti, seq![seq![']']]);
            lemma_split(t, p, seq![seq!['[']], ti);
            assert(t[p + (seq![seq!['[']] + ti).len() + 0] == seq![seq![']']][0]);
            lemma_parse_items(items, t, p + 1, ']');
        },
        Val::Hash(es) => {
            let te = toks_entries(es);
            lemma_split(t, p, seq![seq!['{']] + te, seq![seq!['}']]);
            lemma_split(t, p, seq![seq!['{']], te);
            assert(t[p + (seq![seq!['{']] + te).len() + 0] == seq![seq!['}']][0]);
            lemma_parse_entries(es, t, p + 1);
            lemma_hash_of_flat(es);
        },
        _ => {},
    }
}

proof fn lemma_parse_items(items: Seq<Val>, t: Seq<Seq<char>>, p: int, end: char)
    requires
        all_readable(items),
        0 <= p,
        p + toks_items(items).len() < t.len(),
        t.subrange(p, p + toks_items(items).len()) == toks_items(items),
        t[p + toks_items(items).len()] == seq![end],
        end == ')' || end == ']' || end == '}',
    ensures
        parse_seq(t, p, end) == Ok::<(Seq<Val>, int), ErrV>((items, p + toks_items(items).len() + 1)),
    decreases items, 1nat,
{
    if items.len() == 0 {
        assert(items =~= Seq::<Val>::empty());
    } else {
        let v = items[0];
        let rest = items.subrange(1, items.len() as int);
        let l0 = toks(v).len();
        let l = toks_items(items).len();
        lemma_first_token(v);
        lemma_split(t, p, toks(v), toks_items(rest));
        assert(t[p] == toks(v)[0]);
        assert(t[p] != seq![end]) by {
            if t[p] == seq![end] {
                assert(closer(toks(v)[0]) is Some);
            }
        }
        lemma_parse_val(v, t, p);
        lemma_parse_items(rest, t, p + l0, end);
        assert(seq![v] + rest =~= items);
    }
}

proof fn lemma_parse_entries(es: Seq<(Seq<char>, Val)>, t: Seq<Seq<char>>, p: int)
    requires
        all_readable_entries(es),
        0 <= p,
        p + toks_entries(es).len() < t.len(),
        t.subrange(p, p + toks_entries(es).len()) == toks_entries(es),
        t[p + toks_entries(es).len()] == seq!['}'],
    ensures
        parse_seq(t, p, '}') == Ok::<(Seq<Val>, int), ErrV>(
            (hash_flat(es), p + toks_entries(es).len() + 1),
        ),
    decreases es, 1nat,
{
    if es.len() == 0 {
        assert(hash_flat(es) =~= Seq::<Val>::empty());
    } else {
        let k = Val::Str(es[0].0);
        let v = es[0].1;
        let rest = es.subrange(1, es.len() as int);
        let l0 = toks(v).len();
        let l = toks_entries(es).len();
        lemma_first_token(k);
        lemma_first_token(v);
        assert(toks(k) == seq![quoted(es[0].0)]);
        lemma_split(t, p, seq![quoted(es[0].0)] + toks(v), toks_entries(rest));
        lemma_split(t, p, seq![quoted(es[0].0)], toks(v));
        assert(t[p] == quoted(es[0].0));
        assert(t[p] != seq!['}']) by {
            if t[p] == seq!['}'] {
                assert(closer(toks(k)[0]) is Some);
            }
        }
        assert(parse_form(t, p) == Ok::<(Val, int), ErrV>((k, p + 1)));
        assert(t[p + 1] == toks(v)[0]);
        assert(t[p + 1] != seq!['}']) by {
            if t[p + 1] == seq!['}'] {
                assert(closer(toks(v)[0]) is Some);
            }
        }
        lemma_parse_val(v, t, p + 1);
        lemma_parse_entries(rest, t, p + 1 + l0);
        assert(seq![k] + (seq![v] + hash_flat(rest)) =~= hash_flat(es));
    }
}

proof fn lemma_hash_flat_index(es: Seq<(Seq<char>, Val)>)
    ensures
        hash_flat(es).len() == 2 * es.len(),
        forall|i: int|
            0 <= i < es.len() ==> #[trigger] hash_flat(es)[2 * i] == Val::Str(es[i].0) && hash_flat(
                es,
            )[2 * i + 1] == es[i].1,
    decreases es.len(),
{
    if es.len() > 0 {
        let rest = es.subrange(1, es.len() as int);
        lemma_hash_flat_index(rest);
        assert forall|i: int| 0 <= i < es.len() implies #[trigger] hash_flat(es)[2 * i] == Val::Str(
            es[i].0,
        ) && hash_flat(es)[2 * i + 1] == es[i].1 by {
            if i > 0 {
                assert(hash_flat(rest)[2 * (i - 1)] == Val::Str(rest[i - 1].0));
                assert(hash_flat(rest)[2 * (i - 1) + 1] == rest[i - 1].1);
            }
        }
    }
}

proof fn lemma_hash_pairs_flat(es: Seq<(Seq<char>, Val)>, n: nat)
    requires
        distinct_keys(es),
        n <= es.len(),
    ensures
        hash_pairs(hash_flat(es), n) == Ok::<Seq<(Seq<char>, Val)>, ErrV>(es.subrange(0, n as int)),
    decreases n,
{
    lemma_hash_flat_index(es);
    if n == 0 {
        assert(es.subrange(0, 0) =~= Seq::<(Seq<char>, Val)>::empty());
    } else {
        lemma_hash_pairs_flat(es, (n - 1) as nat);
        let flat = hash_flat(es);
        let pre = es.subrange(0, n - 1);
        let i = n - 1;
        assert(flat[2 * i] == Val::Str(es[i].0));
        assert(flat[2 * i + 1] == es[i].1);
        crate::builtins::lemma_entry_pos(pre, es[i].0);
        assert(entry_pos(pre, es[i].0) is None) by {
            if entry_pos(pre, es[i].0) is Some {
                let j = entry_pos(pre, es[i].0)->0;
                assert(pre[j].0 == es[j].0);
            }
        }
        assert(pre.push((es[i].0, es[i].1)) =~= es.subrange(0, n as int));
    }
}

proof fn lemma_hash_of_flat(es: Seq<(Seq<char>, Val)>)
    requires
        distinct_keys(es),
    ensures
        hash_of(hash_flat(es)) == Ok::<Seq<(Seq<char>, Val)>, ErrV>(es),
{
    lemma_hash_flat_index(es);
    lemma_hash_pairs_flat(es, es.len());
    assert(es.subrange(0, es.len() as int) =~= es);
    assert((2 * es.len()) / 2 == es.len());
}

/// Round trip: reading the readable form of a data value (no functions,
/// symbols that read as symbols, hash maps with distinct keys) gives the
/// value back.
pub proof fn lemma_round_trip(v: Val)
    requires
        readable(v),
    ensures
        read_spec(pr_val(v, true)) == Ok::<Val, ErrV>(v),
{
    let text = pr_val(v, true);
    lemma_lex_val(v, Seq::empty());
    assert(text + Seq::<char>::empty() =~= text);
    assert(lex(Seq::<char>::empty()) == Some(Seq::<Seq<char>>::empty()));
    assert(toks(v) + Seq::<Seq<char>>::empty() =~= toks(v));
    lemma_first_token(v);
    assert(toks(v).subrange(0, toks(v).len() as int) =~= toks(v));
    lemma_parse_val(v, toks(v), 0);
}


proof fn lemma_all_readable_at(items: Seq<Val>, i: int)
    requires
        all_readable(items),
        0 <= i < items.len(),
    ensures
        readable(items[i]),
    decreases items.len(),
{
    if i > 0 {
        let rest = items.subrange(1, items.len() as int);
        lemma_all_readable_at(rest, i - 1);
    }
}

proof fn lemma_all_readable_entries_at(es: Seq<(Seq<char>, Val)>, i: int)
    requires
        all_readable_entries(es),
        0 <= i < es.len(),
    ensures
        readable(es[i].1),
    decreases es.len(),
{
    if i > 0 {
        let rest = es.subrange(1, es.len() as int);
        lemma_all_readable_entries_at(rest, i - 1);
    }
}

proof fn lemma_val_eq_refl(v: Val)
    requires
        readable(v),
    ensures
        val_eq(v, v),
    decreases v, 0nat,
{
    match v {
        Val::List(items) => lemma_items_eq_refl(items, 0),
        Val::Vector(items) => lemma_items_eq_refl(items, 0),
        Val::Hash(es) => {
            lemma_hash_sub_refl(es, 0);
            assert forall|j: int| 0 <= j < es.len() implies (#[trigger] entry_pos(es, es[j].0)) is Some by {
                crate::builtins::lemma_entry_pos(es, es[j].0);
            }
        },
        _ => {},
    }
}

proof fn lemma_items_eq_refl(items: Seq<Val>, i: nat)
    requires
        all_readable(items),
        i <= items.len(),
    ensures
        items_eq(items, items, i),
    decreases items, items.len() - i,
{
    if i < items.len() {
        lemma_all_readable_at(items, i as int);
        lemma_val_eq_refl(items[i as int]);
        lemma_items_eq_refl(items, i + 1);
    }
}

proof fn lemma_hash_sub_refl(es: Seq<(Seq<char>, Val)>, i: nat)
    requires
        all_readable_entries(es),
        i <= es.len(),
    ensures
        hash_sub(es, es, i),
    decreases es, es.len() - i,
{
    if i < es.len() {
        crate::builtins::lemma_entry_pos(es, es[i as int].0);
        let m = entry_pos(es, es[i as int].0)->0;
        lemma_all_readable_entries_at(es, m);
        lemma_val_eq_refl(es[m].1);
        lemma_hash_sub_refl(es, i + 1);
    }
}

/// Round trip, as structural equality: what reading the readable form of a
/// data value gives is structurally equal to the value.
pub proof fn lemma_round_trip_equal(v: Val)
    requires
        readable(v),
    ensures
        read_spec(pr_val(v, true)) is Ok,
        val_eq(read_spec(pr_val(v, true))->Ok_0, v),
{
    lemma_round_trip(v);
    lemma_val_eq_refl(v);
}

} // verus!
