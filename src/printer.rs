//! Textual representation of values.
use crate::text::{int_text, nat_text, push_int, push_nat, push_str, string_from_chars};
use crate::types::{views, entry_views, MalType, MalValue, Val};
use vstd::prelude::*;

verus! {

broadcast use {crate::types::lemma_views, crate::types::lemma_entry_views};

/// How one character of a string is written in readable form.
pub open spec fn escape_char(c: char) -> Seq<char> {
    if c == '"' {
        seq!['\\', '"']
    } else if c == '\\' {
        seq!['\\', '\\']
    } else if c == '\n' {
        seq!['\\', 'n']
    } else {
        seq![c]
    }
}

/// The body of a readable string literal.
pub open spec fn escape(s: Seq<char>) -> Seq<char>
    decreases s.len(),
{
    if s.len() == 0 {
        Seq::empty()
    } else {
        escape(s.drop_last()) + escape_char(s.last())
    }
}

/// A string as a readable literal.
pub open spec fn quoted(s: Seq<char>) -> Seq<char> {
    seq!['"'] + escape(s) + seq!['"']
}

/// Printed form of a value.
pub open spec fn pr_val(v: Val, readable: bool) -> Seq<char>
    decreases v,
{
    match v {
        Val::Nil => seq!['n', 'i', 'l'],
        Val::True => seq!['t', 'r', 'u', 'e'],
        Val::False => seq!['f', 'a', 'l', 's', 'e'],
        Val::Integer(i) => int_text(i as int),
        Val::Str(s) => if readable {
            quoted(s)
        } else {
            s
        },
        Val::Symbol(s) => s,
        Val::List(items) => seq!['('] + pr_items(items, readable) + seq![')'],
        Val::Vector(items) => seq!['['] + pr_items(items, readable) + seq![']'],
        Val::Hash(entries) => seq!['{'] + pr_entries(entries, readable) + seq!['}'],
        Val::Native { function, arity, name } => seq!['#', '<', 'f', 'n', ':'] + name + seq!['/']
            + match arity {
            Some(n) => nat_text(n),
            None => seq!['*'],
        } + seq!['>'],
        Val::Closure { env, params, body } => seq!['#', '<', 'c', 'l', 'o', 's', 'u', 'r', 'e', ' ']
            + pr_val(*params, readable) + seq![' '] + pr_val(*body, readable) + seq!['>'],
    }
}

/// Printed forms of a sequence of values, separated by single spaces.
pub open spec fn pr_items(items: Seq<Val>, readable: bool) -> Seq<char>
    decreases items,
{
    if items.len() == 0 {
        Seq::empty()
    } else if items.len() == 1 {
        pr_val(items[0], readable)
    } else {
        pr_items(items.subrange(0, items.len() - 1), readable) + seq![' '] + pr_val(
            items[items.len() - 1],
            readable,
        )
    }
}

/// One hash entry: its key as a readable string, a space, its value.
pub open spec fn pr_entry(e: (Seq<char>, Val), readable: bool) -> Seq<char>
    decreases e,
{
    quoted(e.0) + seq![' '] + pr_val(e.1, readable)
}

/// Printed entries of a hash map, separated by single spaces.
pub open spec fn pr_entries(entries: Seq<(Seq<char>, Val)>, readable: bool) -> Seq<char>
    decreases entries,
{
    if entries.len() == 0 {
        Seq::empty()
    } else if entries.len() == 1 {
        pr_entry(entries[0], readable)
    } else {
        pr_entries(entries.subrange(0, entries.len() - 1), readable) + seq![' '] + pr_entry(
            entries[entries.len() - 1],
            readable,
        )
    }
}

/// Appends the readable literal of `s`.
fn push_quoted(buf: &mut Vec<char>, s: &String)
    ensures
        final(buf)@ == old(buf)@ + quoted(s@),
{
    let cs = crate::text::chars_of(s.as_str());
    buf.push('"');
    let mut i: usize = 0;
    while i < cs.len()
        invariant
            i <= cs@.len(),
            cs@ == s@,
            buf@ == old(buf)@ + seq!['"'] + escape(cs@.subrange(0, i as int)),
        decreases cs@.len() - i,
    {
        let c = cs[i];
        if c == '"' {
            buf.push('\\');
            buf.push('"');
        } else if c == '\\' {
            buf.push('\\');
            buf.push('\\');
        } else if c == '\n' {
            buf.push('\\');
            buf.push('n');
        } else {
            buf.push(c);
        }
        assert(cs@.subrange(0, i + 1).drop_last() =~= cs@.subrange(0, i as int));
        i = i + 1;
        assert(buf@ =~= old(buf)@ + seq!['"'] + escape(cs@.subrange(0, i as int)));
    }
    buf.push('"');
    assert(cs@.subrange(0, i as int) =~= s@);
    assert(buf@ =~= old(buf)@ + quoted(s@));
}

/// Appends the printed elements of a list or vector, separated by spaces.
fn pr_seq(buf: &mut Vec<char>, seq: &Vec<MalValue>, readable: bool)
    ensures
        final(buf)@ == old(buf)@ + pr_items(views(seq@), readable),
    decreases seq, 0nat,
{
    let ghost vs = views(seq@);
    let mut i: usize = 0;
    while i < seq.len()
        invariant
            i <= seq@.len(),
            vs == views(seq@),
            buf@ == old(buf)@ + pr_items(vs.subrange(0, i as int), readable),
        decreases seq@.len() - i,
    {
        if i > 0 {
            buf.push(' ');
        }
        pr_into(buf, &seq[i], readable);
        proof {
            let p = vs.subrange(0, i + 1);
            assert(p.subrange(0, i as int) =~= vs.subrange(0, i as int));
            crate::types::lemma_views(seq@);
            assert(vs[i as int] == (*seq@[i as int])@);
            assert(p[i as int] == (*seq@[i as int])@);
        }
        i = i + 1;
        assert(buf@ =~= old(buf)@ + pr_items(vs.subrange(0, i as int), readable));
    }
    assert(vs.subrange(0, i as int) =~= vs);
}

/// Appends the printed entries of a hash map.
fn pr_hash(buf: &mut Vec<char>, entries: &Vec<(String, MalValue)>, readable: bool)
    ensures
        final(buf)@ == old(buf)@ + pr_entries(entry_views(entries@), readable),
    decreases entries, 0nat,
{
    let ghost es = entry_views(entries@);
    let mut i: usize = 0;
    while i < entries.len()
        invariant
            i <= entries@.len(),
            es == entry_views(entries@),
            buf@ == old(buf)@ + pr_entries(es.subrange(0, i as int), readable),
        decreases entries@.len() - i,
    {
        if i > 0 {
            buf.push(' ');
        }
        let entry = &entries[i];
        push_quoted(buf, &entry.0);
        buf.push(' ');
        pr_into(buf, &entry.1, readable);
        proof {
            let p = es.subrange(0, i + 1);
            assert(p.subrange(0, i as int) =~= es.subrange(0, i as int));
            crate::types::lemma_entry_views(entries@);
            assert(es[i as int] == (entries@[i as int].0@, (*entries@[i as int].1)@));
            assert(p[i as int] == (entries@[i as int].0@, (*entries@[i as int].1)@));
            assert(pr_entry(p[i as int], readable) == quoted(entries@[i as int].0@) + seq![' ']
                + pr_val((*entries@[i as int].1)@, readable));
        }
        i = i + 1;
        assert(buf@ =~= old(buf)@ + pr_entries(es.subrange(0, i as int), readable));
    }
    assert(es.subrange(0, i as int) =~= es);
}

/// Appends the printed form of `v`.
fn pr_into(buf: &mut Vec<char>, v: &MalType, readable: bool)
    ensures
        final(buf)@ == old(buf)@ + pr_val(v@, readable),
    decreases v, 1nat,
{
    match v {
        MalType::Nil => {
            push_str(buf, "nil");
            proof { reveal_strlit("nil"); }
            assert(buf@ =~= old(buf)@ + pr_val(v@, readable));
        },
        MalType::True => {
            push_str(buf, "true");
            proof { reveal_strlit("true"); }
            assert(buf@ =~= old(buf)@ + pr_val(v@, readable));
        },
        MalType::False => {
            push_str(buf, "false");
            proof { reveal_strlit("false"); }
            assert(buf@ =~= old(buf)@ + pr_val(v@, readable));
        },
        MalType::Integer(i) => {
            push_int(buf, *i as i64);
        },
        MalType::Str(s) => {
            if readable {
                push_quoted(buf, s);
            } else {
                push_str(buf, s.as_str());
            }
        },
        MalType::Symbol(s) => {
            push_str(buf, s.as_str());
        },
        MalType::List(items) => {
            buf.push('(');
            pr_seq(buf, items, readable);
            buf.push(')');
            assert(buf@ =~= old(buf)@ + pr_val(v@, readable));
        },
        MalType::Vector(items) => {
            buf.push('[');
            pr_seq(buf, items, readable);
            buf.push(']');
            assert(buf@ =~= old(buf)@ + pr_val(v@, readable));
        },
        MalType::Hash(entries) => {
            buf.push('{');
            pr_hash(buf, entries, readable);
            buf.push('}');
            assert(buf@ =~= old(buf)@ + pr_val(v@, readable));
        },
        MalType::Function(data) => {
            push_str(buf, "#<fn:");
            push_str(buf, data.name.as_str());
            buf.push('/');
            match data.arity {
                Some(n) => push_nat(buf, n as u64),
                None => buf.push('*'),
            }
            buf.push('>');
            proof { reveal_strlit("#<fn:"); }
            assert(buf@ =~= old(buf)@ + pr_val(v@, readable));
        },
        MalType::MalFunction(data) => {
            push_str(buf, "#<closure ");
            pr_into(buf, &data.args, readable);
            buf.push(' ');
            pr_into(buf, &data.exp, readable);
            buf.push('>');
            proof { reveal_strlit("#<closure "); }
            assert(buf@ =~= old(buf)@ + pr_val(v@, readable));
        },
    }
}

impl MalType {
    /// The printed form of this value; strings are quoted and escaped when
    /// `print_readably` holds.
    pub fn pr_str(&self, print_readably: bool) -> (r: String)
        ensures
            r@ == pr_val(self@, print_readably),
    {
        let mut buf: Vec<char> = Vec::new();
        pr_into(&mut buf, self, print_readably);
        assert(buf@ =~= pr_val(self@, print_readably));
        string_from_chars(&buf)
    }
}

} // verus!
