//! The reader: a scanner that splits text into tokens, and a recursive
//! descent parser that builds values from them.
use crate::builtins::{entry_pos, entry_position};
use crate::text::{chars_of, digit_value, is_digit, string_from_chars};
use crate::types::{
    distinct_keys,
    entry_views, lemma_entry_views, lemma_entry_views_push, lemma_entry_views_update, lemma_views,
    lemma_views_push, new_false, new_hash, new_integer, new_list, new_nil, new_str, new_symbol, new_true,
    new_vector, res_view, views, ErrV, MalError, MalResult, MalType, MalValue, Val,
};
use vstd::prelude::*;

verus! {

/// White space as the scanner counts it (Unicode `White_Space`).
pub open spec fn is_whitespace(c: char) -> bool {
    c == ' ' || c == '\t' || c == '\n' || c == '\r' || c == '\u{0B}' || c == '\u{0C}' || c
        == '\u{85}' || c == '\u{A0}' || c == '\u{1680}' || ('\u{2000}' <= c && c <= '\u{200A}')
        || c == '\u{2028}' || c == '\u{2029}' || c == '\u{202F}' || c == '\u{205F}' || c
        == '\u{3000}'
}

/// Characters skipped between tokens: white space and commas.
pub open spec fn is_blank(c: char) -> bool {
    is_whitespace(c) || c == ','
}

/// Characters that form a token of their own.
pub open spec fn is_special(c: char) -> bool {
    c == '[' || c == ']' || c == '{' || c == '}' || c == '(' || c == ')' || c == '\'' || c == '`'
        || c == '~' || c == '^' || c == '@'
}

/// Characters that may continue an atom.
pub open spec fn is_atom_char(c: char) -> bool {
    !is_whitespace(c) && c != '[' && c != ']' && c != '{' && c != '}' && c != '(' && c != '\''
        && c != '"' && c != '`' && c != ',' && c != ';' && c != ')'
}

/// End (exclusive) of the string literal of `s` whose body is scanned from `i`:
/// `\` escapes the character after it; `None` when no closing quote comes.
pub open spec fn string_end(s: Seq<char>, i: int) -> Option<int>
    decreases s.len() - i,
{
    if i < 0 || i >= s.len() {
        None
    } else if s[i] == '"' {
        Some(i + 1)
    } else if s[i] == '\\' {
        if i + 1 >= s.len() {
            None
        } else {
            string_end(s, i + 2)
        }
    } else {
        string_end(s, i + 1)
    }
}

/// End (exclusive) of the run of atom characters of `s` from `i`.
pub open spec fn atom_end(s: Seq<char>, i: int) -> int
    decreases s.len() - i,
{
    if 0 <= i < s.len() && is_atom_char(s[i]) {
        atom_end(s, i + 1)
    } else {
        i
    }
}

/// Index of the first newline of `s` from `i`, or its length.
pub open spec fn line_end(s: Seq<char>, i: int) -> int
    decreases s.len() - i,
{
    if 0 <= i < s.len() && s[i] != '\n' {
        line_end(s, i + 1)
    } else {
        i
    }
}

pub proof fn lemma_string_end(s: Seq<char>, i: int)
    ensures
        string_end(s, i) matches Some(e) ==> i < e <= s.len() && s[e - 1] == '"',
    decreases s.len() - i,
{
    if 0 <= i < s.len() && s[i] != '"' {
        if s[i] == '\\' {
            if i + 1 < s.len() {
                lemma_string_end(s, i + 2);
            }
        } else {
            lemma_string_end(s, i + 1);
        }
    }
}

pub proof fn lemma_atom_end(s: Seq<char>, i: int)
    requires
        0 <= i <= s.len(),
    ensures
        i <= atom_end(s, i) <= s.len(),
        forall|j: int| i <= j < atom_end(s, i) ==> is_atom_char(#[trigger] s[j]),
        atom_end(s, i) < s.len() ==> !is_atom_char(s[atom_end(s, i)]),
    decreases s.len() - i,
{
    if i < s.len() && is_atom_char(s[i]) {
        lemma_atom_end(s, i + 1);
    }
}

pub proof fn lemma_line_end(s: Seq<char>, i: int)
    requires
        0 <= i <= s.len(),
    ensures
        i <= line_end(s, i) <= s.len(),
    decreases s.len() - i,
{
    if i < s.len() && s[i] != '\n' {
        lemma_line_end(s, i + 1);
    }
}

/// `Some(p + q)` when `r` is `Some(q)`.
pub open spec fn cons_tokens(p: Seq<Seq<char>>, r: Option<Seq<Seq<char>>>) -> Option<Seq<Seq<char>>> {
    match r {
        Some(q) => Some(p + q),
        None => None,
    }
}

/// The tokens of `s`, or `None` when a string literal is not closed.
///
/// Blanks are skipped; `~@` and each special character form a token; a
/// string literal runs to its closing quote; `;` starts a comment that runs
/// to the end of the line and yields no token; anything else is an atom,
/// the longest run of atom characters.
pub open spec fn lex(s: Seq<char>) -> Option<Seq<Seq<char>>>
    decreases s.len(),
{
    if s.len() == 0 {
        Some(Seq::empty())
    } else if is_blank(s[0]) {
        lex(s.subrange(1, s.len() as int))
    } else if s[0] == '~' && s.len() >= 2 && s[1] == '@' {
        cons_tokens(seq![s.subrange(0, 2)], lex(s.subrange(2, s.len() as int)))
    } else if is_special(s[0]) {
        cons_tokens(seq![seq![s[0]]], lex(s.subrange(1, s.len() as int)))
    } else if s[0] == '"' {
        match string_end(s, 1) {
            Some(e) => {
                proof {
                    lemma_string_end(s, 1);
                }
                cons_tokens(seq![s.subrange(0, e)], lex(s.subrange(e, s.len() as int)))
            },
            None => None,
        }
    } else if s[0] == ';' {
        proof {
            lemma_line_end(s, 1);
        }
        lex(s.subrange(line_end(s, 1), s.len() as int))
    } else {
        proof {
            lemma_atom_end(s, 1);
        }
        let e = atom_end(s, 1);
        cons_tokens(seq![s.subrange(0, e)], lex(s.subrange(e, s.len() as int)))
    }
}


/// The character sequences of a sequence of strings.
pub open spec fn token_views(v: Seq<String>) -> Seq<Seq<char>> {
    Seq::new(v.len(), |i: int| v[i]@)
}

/// The suffix of `s` from `i`.
pub open spec fn suffix(s: Seq<char>, i: int) -> Seq<char> {
    s.subrange(i, s.len() as int)
}

fn blank_char(c: char) -> (r: bool)
    ensures
        r == is_blank(c),
{
    c == ' ' || c == '\t' || c == '\n' || c == '\r' || c == '\u{0B}' || c == '\u{0C}' || c
        == '\u{85}' || c == '\u{A0}' || c == '\u{1680}' || ('\u{2000}' <= c && c <= '\u{200A}')
        || c == '\u{2028}' || c == '\u{2029}' || c == '\u{202F}' || c == '\u{205F}' || c
        == '\u{3000}' || c == ','
}

fn special_char(c: char) -> (r: bool)
    ensures
        r == is_special(c),
{
    c == '[' || c == ']' || c == '{' || c == '}' || c == '(' || c == ')' || c == '\'' || c == '`'
        || c == '~' || c == '^' || c == '@'
}

fn atom_char(c: char) -> (r: bool)
    ensures
        r == is_atom_char(c),
{
    !(c == ' ' || c == '\t' || c == '\n' || c == '\r' || c == '\u{0B}' || c == '\u{0C}' || c
        == '\u{85}' || c == '\u{A0}' || c == '\u{1680}' || ('\u{2000}' <= c && c <= '\u{200A}')
        || c == '\u{2028}' || c == '\u{2029}' || c == '\u{202F}' || c == '\u{205F}' || c
        == '\u{3000}') && c != '[' && c != ']' && c != '{' && c != '}' && c != '(' && c != '\''
        && c != '"' && c != '`' && c != ',' && c != ';' && c != ')'
}

/// The string made of `cs[from..to]`.
fn slice_string(cs: &Vec<char>, from: usize, to: usize) -> (r: String)
    requires
        from <= to <= cs@.len(),
    ensures
        r@ == cs@.subrange(from as int, to as int),
{
    let mut v: Vec<char> = Vec::new();
    let mut i: usize = from;
    while i < to
        invariant
            from <= i <= to,
            to <= cs@.len(),
            v@ == cs@.subrange(from as int, i as int),
        decreases to - i,
    {
        v.push(cs[i]);
        i = i + 1;
        assert(v@ =~= cs@.subrange(from as int, i as int));
    }
    string_from_chars(&v)
}

/// End of the string literal that starts at `start`.
fn scan_string(cs: &Vec<char>, start: usize) -> (r: Option<usize>)
    requires
        start < cs@.len(),
    ensures
        match string_end(suffix(cs@, start as int), 1) {
            Some(e) => r == Some((start + e) as usize),
            None => r is None,
        },
{
    let ghost t = suffix(cs@, start as int);
    let n = cs.len();
    let mut k: usize = start + 1;
    while k < n
        invariant
            n == cs@.len(),
            start < k,
            t == suffix(cs@, start as int),
            k <= cs@.len() + 1,
            string_end(t, k - start) == string_end(t, 1),
        decreases cs@.len() + 1 - k,
    {
        assert(t[k - start] == cs@[k as int]);
        if cs[k] == '"' {
            return Some(k + 1);
        } else if cs[k] == '\\' {
            if k + 1 >= n {
                return None;
            }
            k = k + 2;
        } else {
            k = k + 1;
        }
    }
    None
}

/// End of the atom that starts at `start`.
fn scan_atom(cs: &Vec<char>, start: usize) -> (r: usize)
    requires
        start < cs@.len(),
    ensures
        r == start + atom_end(suffix(cs@, start as int), 1),
{
    let ghost t = suffix(cs@, start as int);
    let n = cs.len();
    let mut k: usize = start + 1;
    while k < n && atom_char(cs[k])
        invariant
            n == cs@.len(),
            start < k <= cs@.len(),
            t == suffix(cs@, start as int),
            atom_end(t, k - start) == atom_end(t, 1),
        decreases cs@.len() - k,
    {
        assert(t[k - start] == cs@[k as int]);
        k = k + 1;
    }
    proof {
        if k < cs@.len() {
            assert(t[k - start] == cs@[k as int]);
        }
    }
    k
}

/// End of the comment that starts at `start`.
fn scan_line(cs: &Vec<char>, start: usize) -> (r: usize)
    requires
        start < cs@.len(),
    ensures
        r == start + line_end(suffix(cs@, start as int), 1),
{
    let ghost t = suffix(cs@, start as int);
    let n = cs.len();
    let mut k: usize = start + 1;
    while k < n && cs[k] != '\n'
        invariant
            n == cs@.len(),
            start < k <= cs@.len(),
            t == suffix(cs@, start as int),
            line_end(t, k - start) == line_end(t, 1),
        decreases cs@.len() - k,
    {
        assert(t[k - start] == cs@[k as int]);
        k = k + 1;
    }
    proof {
        if k < cs@.len() {
            assert(t[k - start] == cs@[k as int]);
        }
    }
    k
}

proof fn lemma_cons_push(p: Seq<Seq<char>>, x: Seq<char>, r: Option<Seq<Seq<char>>>)
    ensures
        cons_tokens(p, cons_tokens(seq![x], r)) == cons_tokens(p.push(x), r),
{
    match r {
        Some(q) => {
            assert(p + (seq![x] + q) =~= p.push(x) + q);
        },
        None => {},
    }
}

/// The tokens of `string` (see `lex`), or `UnterminatedString`.
pub fn tokenize(string: &str) -> (r: Result<Vec<String>, MalError>)
    ensures
        match lex(string@) {
            Some(t) => r matches Ok(v) && token_views(v@) == t,
            None => r matches Err(e) && e@ == ErrV::UnterminatedString,
        },
{
    let cs = chars_of(string);
    let mut tokens: Vec<String> = Vec::new();
    let mut i: usize = 0;
    proof {
        assert(suffix(cs@, 0) =~= cs@);
        assert(token_views(tokens@) =~= Seq::empty());
        match lex(cs@) {
            Some(q) => assert(Seq::<Seq<char>>::empty() + q =~= q),
            None => {},
        }
    }
    while i < cs.len()
        invariant
            cs@ == string@,
            i <= cs@.len(),
            lex(cs@) == cons_tokens(token_views(tokens@), lex(suffix(cs@, i as int))),
        decreases cs@.len() - i,
    {
        let ghost t = suffix(cs@, i as int);
        let ghost before = token_views(tokens@);
        assert(t[0] == cs@[i as int]);
        let c = cs[i];
        if blank_char(c) {
            assert(suffix(t, 1) =~= suffix(cs@, i + 1));
            i = i + 1;
        } else if c == '~' && i + 1 < cs.len() && cs[i + 1] == '@' {
            assert(t[1] == cs@[i + 1]);
            let tok = slice_string(&cs, i, i + 2);
            assert(tok@ =~= t.subrange(0, 2));
            assert(suffix(t, 2) =~= suffix(cs@, i + 2));
            tokens.push(tok);
            proof {
                lemma_cons_push(before, tok@, lex(suffix(cs@, i + 2)));
                assert(token_views(tokens@) =~= before.push(tok@));
            }
            i = i + 2;
        } else if special_char(c) {
            let tok = slice_string(&cs, i, i + 1);
            assert(tok@ =~= seq![t[0]]);
            assert(suffix(t, 1) =~= suffix(cs@, i + 1));
            tokens.push(tok);
            proof {
                lemma_cons_push(before, tok@, lex(suffix(cs@, i + 1)));
                assert(token_views(tokens@) =~= before.push(tok@));
            }
            i = i + 1;
        } else if c == '"' {
            match scan_string(&cs, i) {
                Some(e) => {
                    proof {
                        lemma_string_end(t, 1);
                    }
                    let tok = slice_string(&cs, i, e);
                    assert(tok@ =~= t.subrange(0, e - i));
                    assert(suffix(t, e - i) =~= suffix(cs@, e as int));
                    tokens.push(tok);
                    proof {
                        lemma_cons_push(before, tok@, lex(suffix(cs@, e as int)));
                        assert(token_views(tokens@) =~= before.push(tok@));
                    }
                    i = e;
                },
                None => {
                    return Err(MalError::UnterminatedString);
                },
            }
        } else if c == ';' {
            let e = scan_line(&cs, i);
            proof {
                lemma_line_end(t, 1);
            }
            assert(suffix(t, e - i) =~= suffix(cs@, e as int));
            i = e;
        } else {
            let e = scan_atom(&cs, i);
            proof {
                lemma_atom_end(t, 1);
            }
            let tok = slice_string(&cs, i, e);
            assert(tok@ =~= t.subrange(0, e - i));
            assert(suffix(t, e - i) =~= suffix(cs@, e as int));
            tokens.push(tok);
            proof {
                lemma_cons_push(before, tok@, lex(suffix(cs@, e as int)));
                assert(token_views(tokens@) =~= before.push(tok@));
            }
            i = e;
        }
    }
    proof {
        assert(suffix(cs@, i as int) =~= Seq::empty());
        assert(token_views(tokens@) + Seq::<Seq<char>>::empty() =~= token_views(tokens@));
    }
    Ok(tokens)
}


/// The body of a string literal with its escapes resolved: `\n` is a
/// newline, and `\` followed by any other character is that character.
pub open spec fn unescape(s: Seq<char>) -> Seq<char>
    decreases s.len(),
{
    if s.len() == 0 {
        Seq::empty()
    } else if s[0] == '\\' && s.len() >= 2 {
        seq![if s[1] == 'n' { '\n' } else { s[1] }] + unescape(s.subrange(2, s.len() as int))
    } else {
        seq![s[0]] + unescape(s.subrange(1, s.len() as int))
    }
}

/// Whether every character of `s` is a decimal digit.
pub open spec fn all_digits(s: Seq<char>) -> bool {
    forall|i: int| 0 <= i < s.len() ==> is_digit(#[trigger] s[i])
}

/// Whether a token is an integer literal: `[+-]?[0-9]+`.
pub open spec fn is_int_token(tok: Seq<char>) -> bool {
    (tok.len() >= 1 && all_digits(tok)) || (tok.len() >= 2 && (tok[0] == '+' || tok[0] == '-')
        && all_digits(tok.subrange(1, tok.len() as int)))
}

/// The value of a sequence of decimal digits.
pub open spec fn digits_value(d: Seq<char>) -> int
    decreases d.len(),
{
    if d.len() == 0 {
        0
    } else {
        digits_value(d.drop_last()) * 10 + digit_value(d.last())
    }
}

/// The value of an integer literal.
pub open spec fn int_token_value(tok: Seq<char>) -> int {
    if tok[0] == '-' {
        -digits_value(tok.subrange(1, tok.len() as int))
    } else if tok[0] == '+' {
        digits_value(tok.subrange(1, tok.len() as int))
    } else {
        digits_value(tok)
    }
}

/// The value of an atom token: `nil`, `true`, `false`, a string literal, an
/// integer literal, or else a symbol.
pub open spec fn atom_val(tok: Seq<char>) -> Result<Val, ErrV> {
    if tok == seq!['n', 'i', 'l'] {
        Ok(Val::Nil)
    } else if tok == seq!['t', 'r', 'u', 'e'] {
        Ok(Val::True)
    } else if tok == seq!['f', 'a', 'l', 's', 'e'] {
        Ok(Val::False)
    } else if tok.len() >= 2 && tok[0] == '"' {
        Ok(Val::Str(unescape(tok.subrange(1, tok.len() - 1))))
    } else if is_int_token(tok) {
        if i32::MIN <= int_token_value(tok) <= i32::MAX {
            Ok(Val::Integer(int_token_value(tok) as i32))
        } else {
            Err(ErrV::BadInteger(tok))
        }
    } else {
        Ok(Val::Symbol(tok))
    }
}

/// The hash map entries after setting `k` to `v`: in place when `k` is a key.
pub open spec fn hash_insert(es: Seq<(Seq<char>, Val)>, k: Seq<char>, v: Val) -> Seq<(Seq<char>, Val)> {
    match entry_pos(es, k) {
        Some(j) => es.update(j, (k, v)),
        None => es.push((k, v)),
    }
}

/// The entries from the first `n` (key, value) pairs of `items`, in order.
pub open spec fn hash_pairs(items: Seq<Val>, n: nat) -> Result<Seq<(Seq<char>, Val)>, ErrV>
    decreases n,
{
    if n == 0 || 2 * n > items.len() {
        Ok(Seq::empty())
    } else {
        match hash_pairs(items, (n - 1) as nat) {
            Ok(es) => match items[2 * n - 2] {
                Val::Str(k) => Ok(hash_insert(es, k, items[2 * n - 1])),
                _ => Err(ErrV::BadHash),
            },
            Err(e) => Err(e),
        }
    }
}

/// The hash map read from the forms between `{` and `}`.
pub open spec fn hash_of(items: Seq<Val>) -> Result<Seq<(Seq<char>, Val)>, ErrV> {
    if items.len() % 2 != 0 {
        Err(ErrV::BadHash)
    } else {
        hash_pairs(items, items.len() / 2)
    }
}

/// The closing delimiter at `t[p]`, if it is one.
pub open spec fn closer(tok: Seq<char>) -> Option<char> {
    if tok == seq![')'] {
        Some(')')
    } else if tok == seq![']'] {
        Some(']')
    } else if tok == seq!['}'] {
        Some('}')
    } else {
        None
    }
}

/// Reading one form from token `p` on: the value and the position after it.
pub open spec fn parse_form(t: Seq<Seq<char>>, p: int) -> Result<(Val, int), ErrV>
    decreases t.len() - p, 0int,
{
    if p < 0 || p >= t.len() {
        Err(ErrV::EmptyLine)
    } else if closer(t[p]) is Some {
        Err(ErrV::UnexpectedDelimiter(closer(t[p])->0))
    } else if t[p] == seq!['('] {
        match parse_seq(t, p + 1, ')') {
            Ok((items, q)) => Ok((Val::List(items), q)),
            Err(e) => Err(e),
        }
    } else if t[p] == seq!['['] {
        match parse_seq(t, p + 1, ']') {
            Ok((items, q)) => Ok((Val::Vector(items), q)),
            Err(e) => Err(e),
        }
    } else if t[p] == seq!['{'] {
        match parse_seq(t, p + 1, '}') {
            Ok((items, q)) => match hash_of(items) {
                Ok(es) => Ok((Val::Hash(es), q)),
                Err(e) => Err(e),
            },
            Err(e) => Err(e),
        }
    } else {
        match atom_val(t[p]) {
            Ok(v) => Ok((v, p + 1)),
            Err(e) => Err(e),
        }
    }
}

/// Reading forms from token `p` on up to the closing `end`: the values and
/// the position after `end`.
pub open spec fn parse_seq(t: Seq<Seq<char>>, p: int, end: char) -> Result<(Seq<Val>, int), ErrV>
    decreases t.len() - p, 1int,
{
    if p < 0 || p >= t.len() {
        Err(ErrV::UnbalancedDelimiter(end))
    } else if t[p] == seq![end] {
        Ok((Seq::empty(), p + 1))
    } else {
        match parse_form(t, p) {
            Ok((v, q)) => if p < q <= t.len() {
                match parse_seq(t, q, end) {
                    Ok((vs, r)) => Ok((seq![v] + vs, r)),
                    Err(e) => Err(e),
                }
            } else {
                Err(ErrV::EmptyLine)
            },
            Err(e) => Err(e),
        }
    }
}

/// Reading text: the first form of its tokens.
pub open spec fn read_spec(s: Seq<char>) -> Result<Val, ErrV> {
    match lex(s) {
        None => Err(ErrV::UnterminatedString),
        Some(t) => if t.len() == 0 {
            Err(ErrV::EmptyLine)
        } else {
            match parse_form(t, 0) {
                Ok((v, _)) => Ok(v),
                Err(e) => Err(e),
            }
        },
    }
}


pub proof fn lemma_digits_value_nonneg(d: Seq<char>)
    ensures
        digits_value(d) >= 0,
    decreases d.len(),
{
    if d.len() > 0 {
        lemma_digits_value_nonneg(d.drop_last());
    }
}

/// A reader over a sequence of tokens.
pub struct MalReader {
    tokens: Vec<String>,
    position: usize,
}

impl MalReader {
    /// The tokens, as character sequences.
    pub closed spec fn toks(&self) -> Seq<Seq<char>> {
        token_views(self.tokens@)
    }

    /// The position of the current token.
    pub closed spec fn pos(&self) -> int {
        self.position as int
    }

    /// The position never exceeds what a `usize` holds.
    pub proof fn lemma_pos_bound(&self)
        ensures
            0 <= self.pos() <= usize::MAX,
            self.toks().len() <= usize::MAX,
    {
        assert(self.tokens.len() == self.tokens@.len());
    }

    /// A reader at the first of `tokens`.
    pub fn new(tokens: Vec<String>) -> (r: MalReader)
        ensures
            r.toks() == token_views(tokens@),
            r.pos() == 0,
    {
        MalReader { tokens, position: 0 }
    }

    /// Get the token at the current position, then move past it.
    pub fn next(&mut self) -> (r: Option<String>)
        requires
            old(self).pos() < usize::MAX,
        ensures
            final(self).toks() == old(self).toks(),
            final(self).pos() == old(self).pos() + 1,
            old(self).pos() < old(self).toks().len() ==> (r matches Some(t) && t@ == old(
                self,
            ).toks()[old(self).pos()]),
            old(self).pos() >= old(self).toks().len() ==> r is None,
    {
        let token = if self.position < self.tokens.len() {
            Some(self.tokens[self.position].clone())
        } else {
            None
        };
        self.position = self.position + 1;
        token
    }

    /// Get the token at the current position.
    pub fn peek(&self) -> (r: Option<&String>)
        ensures
            self.pos() < self.toks().len() ==> (r matches Some(t) && t@ == self.toks()[self.pos()]),
            self.pos() >= self.toks().len() ==> r is None,
    {
        if self.position < self.tokens.len() {
            Some(&self.tokens[self.position])
        } else {
            None
        }
    }
}

/// Whether a token is the single character `c`.
fn is_token(tok: &String, c: char) -> (r: bool)
    ensures
        r == (tok@ == seq![c]),
{
    let cs = chars_of(tok.as_str());
    let r = cs.len() == 1 && cs[0] == c;
    proof {
        if cs@.len() == 1 && cs@[0] == c {
            assert(cs@ =~= seq![c]);
        }
    }
    r
}

/// `Ok((p + vs, q))` when `r` is `Ok((vs, q))`.
pub open spec fn prepend_vals(p: Seq<Val>, r: Result<(Seq<Val>, int), ErrV>) -> Result<(Seq<Val>, int), ErrV> {
    match r {
        Ok((vs, q)) => Ok((p + vs, q)),
        Err(e) => Err(e),
    }
}

/// Read forms up to the closing `end`, consuming it.
fn read_seq(reader: &mut MalReader, end: char) -> (r: Result<Vec<MalValue>, MalError>)
    ensures
        final(reader).toks() == old(reader).toks(),
        match parse_seq(old(reader).toks(), old(reader).pos(), end) {
            Ok((vs, q)) => r matches Ok(v) && views(v@) == vs && final(reader).pos() == q && old(
                reader,
            ).pos() < q <= old(reader).toks().len(),
            Err(e) => r matches Err(x) && x@ == e,
        },
    decreases old(reader).toks().len() - old(reader).pos(), 3int,
{
    let ghost t = reader.toks();
    let ghost start_pos = reader.pos();
    let mut items: Vec<MalValue> = Vec::new();
    assert(t == old(reader).toks());
    proof {
        assert(views(items@) =~= Seq::<Val>::empty());
        match parse_seq(t, start_pos, end) {
            Ok((vs, q)) => assert(Seq::<Val>::empty() + vs =~= vs),
            Err(_) => {},
        }
    }
    loop
        invariant
            reader.toks() == t,
            t == old(reader).toks(),
            start_pos == old(reader).pos(),
            start_pos <= reader.pos(),
            0 <= start_pos,
            parse_seq(t, start_pos, end) == prepend_vals(views(items@), parse_seq(t, reader.pos(), end)),
        decreases t.len() - reader.pos(),
    {
        let tok = match reader.peek() {
            Some(tok) => tok.clone(),
            None => {
                return Err(MalError::UnbalancedDelimiter(end));
            },
        };
        if is_token(&tok, end) {
            proof {
                reader.lemma_pos_bound();
            }
            reader.next();
            proof {
                assert(views(items@) + Seq::<Val>::empty() =~= views(items@));
            }
            return Ok(items);
        }
        match read_form(reader) {
            Ok(v) => {
                proof {
                    lemma_views_push(items@, v);
                    let q = reader.pos();
                    match parse_seq(t, q, end) {
                        Ok((vs, r)) => {
                            assert(views(items@) + (seq![(*v)@] + vs) =~= views(items@).push((*v)@) + vs);
                        },
                        Err(_) => {},
                    }
                }
                items.push(v);
            },
            Err(e) => {
                return Err(e);
            },
        }
    }
}

fn read_list(reader: &mut MalReader) -> (r: MalResult)
    requires
        old(reader).pos() < old(reader).toks().len(),
        old(reader).toks()[old(reader).pos()] == seq!['('],
    ensures
        final(reader).toks() == old(reader).toks(),
        match parse_seq(old(reader).toks(), old(reader).pos() + 1, ')') {
            Ok((vs, q)) => r matches Ok(v) && (*v)@ == Val::List(vs) && final(reader).pos() == q
                && old(reader).pos() < q <= old(reader).toks().len(),
            Err(e) => r matches Err(x) && x@ == e,
        },
    decreases old(reader).toks().len() - old(reader).pos(), 1int,
{
    proof {
        reader.lemma_pos_bound();
    }
    reader.next();
    match read_seq(reader, ')') {
        Ok(items) => Ok(new_list(items)),
        Err(e) => Err(e),
    }
}

fn read_vector(reader: &mut MalReader) -> (r: MalResult)
    requires
        old(reader).pos() < old(reader).toks().len(),
        old(reader).toks()[old(reader).pos()] == seq!['['],
    ensures
        final(reader).toks() == old(reader).toks(),
        match parse_seq(old(reader).toks(), old(reader).pos() + 1, ']') {
            Ok((vs, q)) => r matches Ok(v) && (*v)@ == Val::Vector(vs) && final(reader).pos() == q
                && old(reader).pos() < q <= old(reader).toks().len(),
            Err(e) => r matches Err(x) && x@ == e,
        },
    decreases old(reader).toks().len() - old(reader).pos(), 1int,
{
    proof {
        reader.lemma_pos_bound();
    }
    reader.next();
    match read_seq(reader, ']') {
        Ok(items) => Ok(new_vector(items)),
        Err(e) => Err(e),
    }
}

/// The entries of the hash map whose keys and values alternate in `items`.
fn hash_from(items: &Vec<MalValue>) -> (r: Result<Vec<(String, MalValue)>, MalError>)
    ensures
        r matches Ok(v) ==> distinct_keys(entry_views(v@)),
        match hash_of(views(items@)) {
            Ok(es) => r matches Ok(v) && entry_views(v@) == es,
            Err(e) => r matches Err(x) && x@ == e,
        },
{
    let ghost vi = views(items@);
    proof {
        lemma_views(items@);
    }
    if items.len() % 2 != 0 {
        return Err(MalError::BadHash);
    }
    let mut es: Vec<(String, MalValue)> = Vec::new();
    let mut k: usize = 0;
    assert(entry_views(es@) =~= Seq::<(Seq<char>, Val)>::empty());
    while k < items.len() / 2
        invariant
            items@.len() % 2 == 0,
            k <= items@.len() / 2,
            vi == views(items@),
            vi.len() == items@.len(),
            forall|m: int| 0 <= m < items@.len() ==> #[trigger] vi[m] == (*items@[m])@,
            hash_pairs(vi, k as nat) == Ok::<Seq<(Seq<char>, Val)>, ErrV>(entry_views(es@)),
            distinct_keys(entry_views(es@)),
        decreases items@.len() / 2 - k,
    {
        let key = match &*items[2 * k] {
            MalType::Str(s) => s,
            _ => {
                proof {
                    lemma_hash_err(vi, (k + 1) as nat, items@.len() / 2);
                }
                return Err(MalError::BadHash);
            },
        };
        let value = items[2 * k + 1].clone();
        proof {
            lemma_entry_views(es@);
        }
        proof {
            lemma_hash_insert_distinct(entry_views(es@), key@, (*items@[2 * k + 1])@);
        }
        match entry_position(&es, key) {
            Some(j) => {
                let entry = (key.clone(), value);
                proof {
                    lemma_entry_views_update(es@, j as int, entry);
                }
                es.set(j, entry);
            },
            None => {
                let entry = (key.clone(), value);
                proof {
                    lemma_entry_views_push(es@, entry);
                }
                es.push(entry);
            },
        }
        k = k + 1;
    }
    Ok(es)
}

/// Setting a key keeps the keys distinct.
proof fn lemma_hash_insert_distinct(es: Seq<(Seq<char>, Val)>, k: Seq<char>, v: Val)
    requires
        distinct_keys(es),
    ensures
        distinct_keys(hash_insert(es, k, v)),
{
    crate::builtins::lemma_entry_pos(es, k);
}

proof fn lemma_hash_err(items: Seq<Val>, k: nat, m: nat)
    requires
        k <= m,
        2 * m <= items.len(),
        hash_pairs(items, k) is Err,
    ensures
        hash_pairs(items, m) == hash_pairs(items, k),
    decreases m,
{
    if m > k {
        lemma_hash_err(items, k, (m - 1) as nat);
    }
}

fn read_hash(reader: &mut MalReader) -> (r: MalResult)
    requires
        old(reader).pos() < old(reader).toks().len(),
        old(reader).toks()[old(reader).pos()] == seq!['{'],
    ensures
        final(reader).toks() == old(reader).toks(),
        match parse_seq(old(reader).toks(), old(reader).pos() + 1, '}') {
            Ok((vs, q)) => match hash_of(vs) {
                Ok(es) => r matches Ok(v) && (*v)@ == Val::Hash(es) && final(reader).pos() == q
                    && old(reader).pos() < q <= old(reader).toks().len(),
                Err(e) => r matches Err(x) && x@ == e,
            },
            Err(e) => r matches Err(x) && x@ == e,
        },
    decreases old(reader).toks().len() - old(reader).pos(), 1int,
{
    proof {
        reader.lemma_pos_bound();
    }
    reader.next();
    let items = match read_seq(reader, '}') {
        Ok(items) => items,
        Err(e) => {
            return Err(e);
        },
    };
    match hash_from(&items) {
        Ok(es) => Ok(new_hash(es)),
        Err(e) => Err(e),
    }
}

fn char_digit(c: char) -> (d: u64)
    requires
        is_digit(c),
    ensures
        d == digit_value(c),
        d < 10,
{
    if c == '0' {
        0
    } else if c == '1' {
        1
    } else if c == '2' {
        2
    } else if c == '3' {
        3
    } else if c == '4' {
        4
    } else if c == '5' {
        5
    } else if c == '6' {
        6
    } else if c == '7' {
        7
    } else if c == '8' {
        8
    } else {
        9
    }
}

/// A bound above the magnitude of every 32-bit integer.
const DIGITS_CAP: u64 = 2147483649;

/// Whether `cs` is an integer literal, and then its value when it is a
/// 32-bit integer.
fn parse_int_token(cs: &Vec<char>) -> (r: Option<Option<i32>>)
    ensures
        r is Some <==> is_int_token(cs@),
        r matches Some(Some(v)) ==> int_token_value(cs@) == v as int,
        r matches Some(None) ==> !(i32::MIN <= int_token_value(cs@) <= i32::MAX),
{
    let n = cs.len();
    if n == 0 {
        return None;
    }
    let signed = cs[0] == '+' || cs[0] == '-';
    let start: usize = if signed { 1 } else { 0 };
    if start >= n {
        return None;
    }
    let ghost d = cs@.subrange(start as int, n as int);
    let mut acc: u64 = 0;
    let mut i: usize = start;
    proof {
        assert(cs@.subrange(start as int, start as int) =~= Seq::<char>::empty());
    }
    while i < n
        invariant
            n == cs@.len(),
            start <= i <= n,
            n >= 1,
            signed == (cs@[0] == '+' || cs@[0] == '-'),
            start == (if signed { 1usize } else { 0usize }),
            d == cs@.subrange(start as int, n as int),
            all_digits(cs@.subrange(start as int, i as int)),
            acc as int == if digits_value(cs@.subrange(start as int, i as int)) < DIGITS_CAP {
                digits_value(cs@.subrange(start as int, i as int))
            } else {
                DIGITS_CAP as int
            },
        decreases n - i,
    {
        let c = cs[i];
        if !('0' <= c && c <= '9') {
            proof {
                assert(d[i - start] == c);
                assert(!is_digit(cs@[i as int]));
                if signed {
                    assert(!is_digit(cs@[0]));
                    assert(!all_digits(cs@));
                    assert(!all_digits(d));
                } else {
                    assert(!all_digits(cs@));
                }
            }
            return None;
        }
        let dv = char_digit(c);
        proof {
            let pre = cs@.subrange(start as int, i as int);
            let post = cs@.subrange(start as int, i + 1);
            assert(post.drop_last() =~= pre);
            lemma_digits_value_nonneg(pre);
            assert(all_digits(post));
        }
        acc = if acc >= DIGITS_CAP {
            DIGITS_CAP
        } else {
            let x = acc * 10 + dv;
            if x >= DIGITS_CAP {
                DIGITS_CAP
            } else {
                x
            }
        };
        i = i + 1;
    }
    proof {
        assert(cs@.subrange(start as int, i as int) =~= d);
        if !signed {
            assert(d =~= cs@);
        }
    }
    let value: i64 = if cs[0] == '-' {
        -(acc as i64)
    } else {
        acc as i64
    };
    if value < i32::MIN as i64 || value > i32::MAX as i64 {
        Some(None)
    } else {
        Some(Some(value as i32))
    }
}

/// The characters of `cs[from..to]` with escapes resolved (see `unescape`).
fn unescape_chars(cs: &Vec<char>, from: usize, to: usize) -> (r: Vec<char>)
    requires
        from <= to <= cs@.len(),
    ensures
        r@ == unescape(cs@.subrange(from as int, to as int)),
{
    let ghost s = cs@.subrange(from as int, to as int);
    let mut out: Vec<char> = Vec::new();
    let mut i: usize = from;
    proof {
        assert(s.subrange(0, s.len() as int) =~= s);
        assert(out@ + unescape(s) =~= unescape(s));
    }
    while i < to
        invariant
            from <= i <= to,
            to <= cs@.len(),
            s == cs@.subrange(from as int, to as int),
            unescape(s) == out@ + unescape(s.subrange(i - from, s.len() as int)),
        decreases to - i,
    {
        let ghost rest = s.subrange(i - from, s.len() as int);
        assert(rest[0] == cs@[i as int]);
        if cs[i] == '\\' && i + 1 < to {
            assert(rest[1] == cs@[i + 1]);
            let c = if cs[i + 1] == 'n' {
                '\n'
            } else {
                cs[i + 1]
            };
            assert(rest.subrange(2, rest.len() as int) =~= s.subrange(i + 2 - from, s.len() as int));
            proof {
                let u = unescape(rest.subrange(2, rest.len() as int));
                assert(out@ + (seq![c] + u) =~= out@.push(c) + u);
            }
            out.push(c);
            i = i + 2;
        } else {
            assert(rest.subrange(1, rest.len() as int) =~= s.subrange(i + 1 - from, s.len() as int));
            proof {
                let u = unescape(rest.subrange(1, rest.len() as int));
                assert(out@ + (seq![cs@[i as int]] + u) =~= out@.push(cs@[i as int]) + u);
            }
            out.push(cs[i]);
            i = i + 1;
        }
    }
    proof {
        assert(s.subrange(i - from, s.len() as int) =~= Seq::<char>::empty());
        assert(out@ + Seq::<char>::empty() =~= out@);
    }
    out
}

/// Build a scalar value from the token at the current position, consuming it.
fn read_atom(reader: &mut MalReader) -> (r: MalResult)
    requires
        old(reader).pos() < old(reader).toks().len(),
    ensures
        final(reader).toks() == old(reader).toks(),
        final(reader).pos() == old(reader).pos() + 1,
        res_view(r) == atom_val(old(reader).toks()[old(reader).pos()]),
{
    proof {
        reader.lemma_pos_bound();
    }
    let token = match reader.next() {
        Some(t) => t,
        None => {
            return Err(MalError::ErrEmptyLine);
        },
    };
    proof {
        reveal_strlit("nil");
        reveal_strlit("true");
        reveal_strlit("false");
        assert("nil"@ =~= seq!['n', 'i', 'l']);
        assert("true"@ =~= seq!['t', 'r', 'u', 'e']);
        assert("false"@ =~= seq!['f', 'a', 'l', 's', 'e']);
    }
    if crate::text::str_eq(token.as_str(), "nil") {
        return Ok(new_nil());
    }
    if crate::text::str_eq(token.as_str(), "true") {
        return Ok(new_true());
    }
    if crate::text::str_eq(token.as_str(), "false") {
        return Ok(new_false());
    }
    let cs = chars_of(token.as_str());
    if cs.len() >= 2 && cs[0] == '"' {
        let body = unescape_chars(&cs, 1, cs.len() - 1);
        return Ok(new_str(string_from_chars(&body)));
    }
    match parse_int_token(&cs) {
        Some(Some(v)) => Ok(new_integer(v)),
        Some(None) => Err(MalError::BadInteger(token)),
        None => Ok(new_symbol(token)),
    }
}

/// Read the form that starts at the current position.
fn read_form(reader: &mut MalReader) -> (r: MalResult)
    ensures
        final(reader).toks() == old(reader).toks(),
        match parse_form(old(reader).toks(), old(reader).pos()) {
            Ok((v, q)) => r matches Ok(x) && (*x)@ == v && final(reader).pos() == q && old(
                reader,
            ).pos() < q <= old(reader).toks().len(),
            Err(e) => r matches Err(x) && x@ == e,
        },
    decreases old(reader).toks().len() - old(reader).pos(), 2int,
{
    let tok = match reader.peek() {
        Some(t) => t.clone(),
        None => {
            return Err(MalError::ErrEmptyLine);
        },
    };
    if is_token(&tok, ')') {
        Err(MalError::UnexpectedDelimiter(')'))
    } else if is_token(&tok, ']') {
        Err(MalError::UnexpectedDelimiter(']'))
    } else if is_token(&tok, '}') {
        Err(MalError::UnexpectedDelimiter('}'))
    } else if is_token(&tok, '(') {
        read_list(reader)
    } else if is_token(&tok, '[') {
        read_vector(reader)
    } else if is_token(&tok, '{') {
        read_hash(reader)
    } else {
        read_atom(reader)
    }
}

/// Read the first form of `string`.
pub fn read_str(string: &str) -> (r: MalResult)
    ensures
        res_view(r) == read_spec(string@),
{
    let tokens = match tokenize(string) {
        Ok(t) => t,
        Err(e) => {
            return Err(e);
        },
    };
    if tokens.len() == 0 {
        return Err(MalError::ErrEmptyLine);
    }
    let mut reader = MalReader::new(tokens);
    read_form(&mut reader)
}

} // verus!
