//! The grammar of the language, as a function on the characters of the
//! source text, and the lexer that implements it.
//!
//! A program is a sequence of values separated by runs of white space
//! (spaces, tabs, line ends); white space may also lead and trail.  The
//! lexer tries, in this order: an operator, a quoted list, a capture
//! `(a b)`, a word (a built-in command or a variable), a variable read
//! `$x`, a boolean `#t` or `#f`, a string, a quoted tuple `'(a b)`, a
//! symbol `'x`, and last a number.  A number is the
//! fallback: where no digit stands, the lexer stops with
//! [`Fault::EmptyNumber`].
use vstd::prelude::*;
use vstd::string::StrSliceExecFns;
use vstd::string::StringExecFns;
use crate::value::{AoKeyword, AoType, Fault, Val, values, lemma_values_push};

verus! {

/// The outcome of reading one piece of the grammar at a position.
pub ghost enum Scan<T> {
    /// The piece ends at the given position and has the given value.
    Found(int, T),
    /// The piece does not start here.
    Miss,
    /// Reading stops the program.
    Stop(Fault),
}

/// The classes of characters that the grammar reads in runs.
#[derive(Clone, Copy)]
pub enum CharClass {
    /// ASCII letters.
    Alpha,
    /// ASCII letters and digits.
    Alnum,
    /// ASCII digits.
    Digit,
    /// Space, tab, carriage return and line feed.
    Space,
    /// Anything but a double quote.
    NotQuote,
    /// A character that may continue a symbol: not a space, and
    /// alphanumeric in the Unicode sense.
    SymbolChar,
    /// Anything but a space.
    NotSpace,
    /// ASCII letters, digits and `-`.
    AlnumHyphen,
    /// ASCII letters, digits, `-` and `.`.
    UrlChar,
    /// The characters of a word or a name: ASCII letters, digits, `_`
    /// and `-`.
    Word,
}

/// The Unicode "alphanumeric" property of a character, as
/// `char::is_alphanumeric` computes it.
pub uninterp spec fn unicode_alphanumeric(c: char) -> bool;

/// Calls `char::is_alphanumeric`. Claimed: the result is the Unicode
/// alphanumeric property of `c`, a function of `c` alone; for an ASCII
/// character it holds exactly of the letters and the digits, as the
/// documentation (alphabetic or numeric) gives it. The property of other
/// characters is left unnamed.
#[verifier::external_body]
fn char_is_alphanumeric(c: char) -> (b: bool)
    ensures
        b == unicode_alphanumeric(c),
        (c as u32) < 128 ==> (b <==> (is_ascii_alpha(c) || is_ascii_digit(c))),
{
    c.is_alphanumeric()
}

pub open spec fn is_ascii_alpha(c: char) -> bool {
    ('a' <= c && c <= 'z') || ('A' <= c && c <= 'Z')
}

pub open spec fn is_ascii_digit(c: char) -> bool {
    '0' <= c && c <= '9'
}

pub open spec fn in_class(k: CharClass, c: char) -> bool {
    match k {
        CharClass::Alpha => is_ascii_alpha(c),
        CharClass::Alnum => is_ascii_alpha(c) || is_ascii_digit(c),
        CharClass::Digit => is_ascii_digit(c),
        CharClass::Space => c == ' ' || c == '\t' || c == '\r' || c == '\n',
        CharClass::NotQuote => c != '"',
        CharClass::SymbolChar => c != ' ' && unicode_alphanumeric(c),
        CharClass::NotSpace => c != ' ',
        CharClass::AlnumHyphen => is_ascii_alpha(c) || is_ascii_digit(c) || c == '-',
        CharClass::UrlChar => is_ascii_alpha(c) || is_ascii_digit(c) || c == '-' || c == '.',
        CharClass::Word => is_ascii_alpha(c) || is_ascii_digit(c) || c == '_' || c == '-',
    }
}

/// The end of the longest run of characters of class `k` that starts at `p`.
pub open spec fn span(s: Seq<char>, p: int, k: CharClass) -> int
    decreases s.len() - p,
{
    if 0 <= p < s.len() && in_class(k, s[p]) {
        span(s, p + 1, k)
    } else {
        p
    }
}

pub proof fn lemma_span(s: Seq<char>, p: int, k: CharClass)
    requires
        0 <= p <= s.len(),
    ensures
        p <= span(s, p, k) <= s.len(),
        p < s.len() && in_class(k, s[p]) ==> p < span(s, p, k),
        forall|i: int| p <= i < span(s, p, k) ==> in_class(k, #[trigger] s[i]),
        span(s, p, k) < s.len() ==> !in_class(k, s[span(s, p, k)]),
    decreases s.len() - p,
{
    if 0 <= p < s.len() && in_class(k, s[p]) {
        lemma_span(s, p + 1, k);
    }
}

/// The value of a run of decimal digits.
pub open spec fn digits_value(d: Seq<char>) -> int
    decreases d.len(),
{
    if d.len() == 0 {
        0
    } else {
        digits_value(d.drop_last()) * 10 + (d.last() as int - '0' as int)
    }
}

/// A prefix of a run of digits is worth no more than the whole run.
pub proof fn lemma_digits_prefix(d: Seq<char>, k: int)
    requires
        0 <= k <= d.len(),
        forall|i: int| 0 <= i < d.len() ==> is_ascii_digit(#[trigger] d[i]),
    ensures
        0 <= digits_value(d.subrange(0, k)) <= digits_value(d),
    decreases d.len(),
{
    if d.len() > 0 {
        if k == d.len() {
            assert(d.subrange(0, k) =~= d);
            lemma_digits_prefix(d.drop_last(), k - 1);
            assert(d.drop_last().subrange(0, k - 1) =~= d.drop_last());
        } else {
            lemma_digits_prefix(d.drop_last(), k);
            assert(d.drop_last().subrange(0, k) =~= d.subrange(0, k));
        }
    }
}

pub open spec fn is_operator_char(c: char) -> bool {
    c == '+' || c == '-' || c == '*' || c == '/' || c == '>' || c == '<'
}

/// Whether the word `w` stands at position `p`.
pub open spec fn has_word(s: Seq<char>, p: int, w: Seq<char>) -> bool {
    0 <= p && p + w.len() <= s.len() && s.subrange(p, p + w.len()) == w
}

/// The first of two readings that does not miss.
pub open spec fn or_else<T>(a: Scan<T>, b: Scan<T>) -> Scan<T> {
    if a is Miss {
        b
    } else {
        a
    }
}

/// The second character of a two-character operator `<= >= == !=`.
pub open spec fn is_two_char_operator(a: char, b: char) -> bool {
    b == '=' && (a == '<' || a == '>' || a == '=' || a == '!')
}

/// An operator: one of `<= >= == !=`, or else one of `+ - * / > <`.
pub open spec fn lex_operator(s: Seq<char>, p: int) -> Scan<Val> {
    if 0 <= p && p + 1 < s.len() && is_two_char_operator(s[p], s[p + 1]) {
        Scan::Found(p + 2, Val::Opr(seq![s[p], s[p + 1]]))
    } else if 0 <= p < s.len() && is_operator_char(s[p]) {
        Scan::Found(p + 1, Val::Opr(seq![s[p]]))
    } else {
        Scan::Miss
    }
}

/// The built-in command that a whole word names, if any.
pub open spec fn keyword_of(w: Seq<char>) -> Option<AoKeyword> {
    if w == seq!['e', 'v', 'a', 'l'] {
        Some(AoKeyword::Eval)
    } else if w == seq!['i', 'f'] {
        Some(AoKeyword::If)
    } else if w == seq!['w', 'h', 'i', 'l', 'e'] {
        Some(AoKeyword::While)
    } else if w == seq!['d', 'e', 'f'] {
        Some(AoKeyword::Def)
    } else if w == seq!['i', 'f', 'e', 'l', 's', 'e'] {
        Some(AoKeyword::IfElse)
    } else if w == seq!['d', 'u', 'p'] {
        Some(AoKeyword::Dup)
    } else if w == seq!['s', 'w', 'a', 'p'] {
        Some(AoKeyword::Swap)
    } else if w == seq!['f', 'i', 'r', 's', 't'] {
        Some(AoKeyword::First)
    } else if w == seq!['r', 'e', 's', 't'] {
        Some(AoKeyword::Rest)
    } else if w == seq!['c', 'a', 't'] {
        Some(AoKeyword::Cat)
    } else if w == seq!['l', 'e', 'n'] {
        Some(AoKeyword::Len)
    } else if w == seq!['m', 'a', 'p'] {
        Some(AoKeyword::MapOver)
    } else if w == seq!['p', 'r', 'i', 'n', 't', 'n', 'l'] {
        Some(AoKeyword::PrintNl)
    } else {
        None
    }
}

/// What a bare word stands for: the built-in command it names, or else a
/// variable of that name.
pub open spec fn word_value(w: Seq<char>) -> Val {
    match keyword_of(w) {
        Some(k) => Val::Cmd(k),
        None => Val::Var(w),
    }
}

/// The names of a capture that are each followed by one space, from `q` on;
/// with the position after the last of them.
pub open spec fn spaced_names(s: Seq<char>, q: int) -> (int, Seq<Seq<char>>)
    decreases s.len() - q,
{
    if 0 <= q < s.len() && in_class(CharClass::Word, s[q]) {
        let e = span(s, q, CharClass::Word);
        if q < e < s.len() && s[e] == ' ' {
            let (r, ns) = spaced_names(s, e + 1);
            (r, seq![s.subrange(q, e)] + ns)
        } else {
            (q, Seq::empty())
        }
    } else {
        (q, Seq::empty())
    }
}

/// A capture: `(`, names each followed by one space, perhaps a last name,
/// then `)`.
pub open spec fn lex_var(s: Seq<char>, p: int) -> Scan<Val> {
    if 0 <= p < s.len() && s[p] == '(' {
        let (q, ns) = spaced_names(s, p + 1);
        let (q2, ns2) = if 0 <= q < s.len() && in_class(CharClass::Word, s[q]) {
            let e = span(s, q, CharClass::Word);
            (e, ns.push(s.subrange(q, e)))
        } else {
            (q, ns)
        };
        if 0 <= q2 < s.len() && s[q2] == ')' {
            Scan::Found(q2 + 1, Val::Ass(ns2))
        } else {
            Scan::Miss
        }
    } else {
        Scan::Miss
    }
}

/// A word or a variable read.  A word is an ASCII letter or `_` followed
/// by word characters; it stands for what [`word_value`] says.  A variable
/// read is `$` followed by word characters.
pub open spec fn lex_val(s: Seq<char>, p: int) -> Scan<Val> {
    if 0 <= p < s.len() && (is_ascii_alpha(s[p]) || s[p] == '_') {
        let e = span(s, p, CharClass::Word);
        Scan::Found(e, word_value(s.subrange(p, e)))
    } else if 0 <= p && p + 1 < s.len() && s[p] == '$' && in_class(CharClass::Word, s[p + 1]) {
        let e = span(s, p + 1, CharClass::Word);
        Scan::Found(e, Val::Var(s.subrange(p + 1, e)))
    } else {
        Scan::Miss
    }
}

/// A boolean: `#t` or `#f`.
pub open spec fn lex_bool(s: Seq<char>, p: int) -> Scan<Val> {
    if 0 <= p && p + 1 < s.len() && s[p] == '#' && (s[p + 1] == 't' || s[p + 1] == 'f') {
        Scan::Found(p + 2, Val::Bool(s[p + 1] == 't'))
    } else {
        Scan::Miss
    }
}

/// A quoted tuple: `'` followed by a capture `(a b ...)`.
pub open spec fn lex_tuple(s: Seq<char>, p: int) -> Scan<Val> {
    if 0 <= p < s.len() && s[p] == '\'' {
        match lex_var(s, p + 1) {
            Scan::Found(q, v) => match v {
                Val::Ass(ns) => Scan::Found(q, Val::Tup(ns)),
                _ => Scan::Miss,
            },
            _ => Scan::Miss,
        }
    } else {
        Scan::Miss
    }
}

/// A string: `"`, anything but `"`, then `"`.
pub open spec fn lex_string(s: Seq<char>, p: int) -> Scan<Val> {
    if 0 <= p < s.len() && s[p] == '"' {
        let e = span(s, p + 1, CharClass::NotQuote);
        if e < s.len() {
            Scan::Found(e + 1, Val::Str(s.subrange(p + 1, e)))
        } else {
            Scan::Miss
        }
    } else {
        Scan::Miss
    }
}

/// A symbol: `'` then a run of symbol characters (perhaps empty).
pub open spec fn lex_token(s: Seq<char>, p: int) -> Scan<Val> {
    if 0 <= p < s.len() && s[p] == '\'' {
        let e = span(s, p + 1, CharClass::SymbolChar);
        Scan::Found(e, Val::Tkn(s.subrange(p + 1, e)))
    } else {
        Scan::Miss
    }
}

/// A number: a run of ASCII digits.  No digit, or a value past `i32::MAX`,
/// stops the program.
pub open spec fn lex_int(s: Seq<char>, p: int) -> Scan<Val> {
    let e = span(s, p, CharClass::Digit);
    if e == p {
        Scan::Stop(Fault::EmptyNumber)
    } else if digits_value(s.subrange(p, e)) > i32::MAX {
        Scan::Stop(Fault::NumberTooLarge)
    } else {
        Scan::Found(e, Val::Int(digits_value(s.subrange(p, e)) as i32))
    }
}

/// One value, the alternatives tried in order.
pub open spec fn lex_all(s: Seq<char>, p: int) -> Scan<Val>
    decreases s.len() - p, 1nat,
{
    or_else(
        lex_operator(s, p),
        or_else(
            lex_list(s, p),
            or_else(
                lex_var(s, p),
                or_else(
                    lex_val(s, p),
                    or_else(
                        lex_bool(s, p),
                        or_else(
                            lex_string(s, p),
                            or_else(lex_tuple(s, p), or_else(lex_token(s, p), lex_int(s, p))),
                        ),
                    ),
                ),
            ),
        ),
    )
}

/// A quoted list: `[`, a sequence of values, `]`.
pub open spec fn lex_list(s: Seq<char>, p: int) -> Scan<Val>
    decreases s.len() - p, 0nat,
{
    if 0 <= p < s.len() && s[p] == '[' {
        match lex_seq(s, p + 1, Seq::empty()) {
            Scan::Found(q, (items, _last)) => if 0 <= q < s.len() && s[q] == ']' {
                Scan::Found(q + 1, Val::Lst(items))
            } else {
                Scan::Miss
            },
            Scan::Miss => Scan::Miss,
            Scan::Stop(e) => Scan::Stop(e),
        }
    } else {
        Scan::Miss
    }
}

/// A sequence of values, read from `p` on after the values `acc`: the
/// values read, and the last of them when no white space follows it.
/// White space before, between and after the values is skipped; the
/// sequence ends at the end of the text, at a `]`, or after a value that
/// white space does not follow.
pub open spec fn lex_seq(s: Seq<char>, p: int, acc: Seq<Val>) -> Scan<(Seq<Val>, Option<Val>)>
    decreases s.len() - p, 2nat,
{
    if p < 0 || p > s.len() {
        Scan::Miss
    } else if p < s.len() && in_class(CharClass::Space, s[p]) {
        let q = span(s, p, CharClass::Space);
        if p < q <= s.len() {
            lex_seq(s, q, acc)
        } else {
            Scan::Miss
        }
    } else if p == s.len() || s[p] == ']' {
        Scan::Found(p, (acc, None))
    } else {
        match lex_all(s, p) {
            Scan::Stop(e) => Scan::Stop(e),
            Scan::Miss => Scan::Found(p, (acc, None)),
            Scan::Found(q, v) => if p < q <= s.len() {
                if q < s.len() && in_class(CharClass::Space, s[q]) {
                    lex_seq(s, q, acc.push(v))
                } else {
                    Scan::Found(q, (acc.push(v), Some(v)))
                }
            } else {
                Scan::Miss
            },
        }
    }
}

/// The reading of a whole program text.
pub open spec fn lex_program(s: Seq<char>) -> Scan<(Seq<Val>, Option<Val>)> {
    lex_seq(s, 0, Seq::empty())
}

/// How an executable reading relates to the grammar.
pub open spec fn scanned(r: Result<Option<(usize, AoType)>, Fault>, sp: Scan<Val>) -> bool {
    match r {
        Ok(Some((q, t))) => sp == Scan::Found(q as int, t.value()),
        Ok(None) => sp is Miss,
        Err(e) => sp == Scan::<Val>::Stop(e),
    }
}

/// The model of an optional value.
pub open spec fn opt_value(o: Option<AoType>) -> Option<Val> {
    match o {
        Some(t) => Some(t.value()),
        None => None,
    }
}

/// The characters of a text.
pub fn chars_of(s: &str) -> (v: Vec<char>)
    ensures
        v@ == s@,
{
    let n = s.unicode_len();
    let mut v: Vec<char> = Vec::new();
    let mut i: usize = 0;
    while i < n
        invariant
            n == s@.len(),
            i <= n,
            v@ == s@.subrange(0, i as int),
        decreases n - i,
    {
        let c = s.get_char(i);
        v.push(c);
        i += 1;
        assert(v@ =~= s@.subrange(0, i as int));
    }
    assert(v@ =~= s@);
    v
}

/// The text between two positions, as a string.
pub(crate) fn text(s: &str, a: usize, b: usize) -> (r: Box<String>)
    requires
        a <= b <= s@.len(),
    ensures
        r@ == s@.subrange(a as int, b as int),
{
    Box::new(String::from_str(s.substring_char(a, b)))
}

fn in_class_exec(k: CharClass, c: char) -> (b: bool)
    ensures
        b == in_class(k, c),
{
    match k {
        CharClass::Alpha => ('a' <= c && c <= 'z') || ('A' <= c && c <= 'Z'),
        CharClass::Alnum => ('a' <= c && c <= 'z') || ('A' <= c && c <= 'Z') || ('0' <= c && c
            <= '9'),
        CharClass::Digit => '0' <= c && c <= '9',
        CharClass::Space => c == ' ' || c == '\t' || c == '\r' || c == '\n',
        CharClass::NotQuote => c != '"',
        CharClass::SymbolChar => c != ' ' && char_is_alphanumeric(c),
        CharClass::NotSpace => c != ' ',
        CharClass::AlnumHyphen => ('a' <= c && c <= 'z') || ('A' <= c && c <= 'Z') || ('0' <= c && c
            <= '9') || c == '-',
        CharClass::UrlChar => ('a' <= c && c <= 'z') || ('A' <= c && c <= 'Z') || ('0' <= c && c
            <= '9') || c == '-' || c == '.',
        CharClass::Word => ('a' <= c && c <= 'z') || ('A' <= c && c <= 'Z') || ('0' <= c && c
            <= '9') || c == '_' || c == '-',
    }
}

pub(crate) fn span_exec(cs: &Vec<char>, p: usize, k: CharClass) -> (e: usize)
    requires
        p <= cs@.len(),
    ensures
        e == span(cs@, p as int, k),
        p <= e <= cs@.len(),
{
    let mut i = p;
    while i < cs.len() && in_class_exec(k, cs[i])
        invariant
            p <= i <= cs@.len(),
            span(cs@, i as int, k) == span(cs@, p as int, k),
        decreases cs@.len() - i,
    {
        i += 1;
    }
    i
}

fn has_word_exec(cs: &Vec<char>, p: usize, w: &Vec<char>) -> (b: bool)
    requires
        p <= cs@.len(),
    ensures
        b == has_word(cs@, p as int, w@),
{
    if w.len() > cs.len() - p {
        return false;
    }
    assert(p + w@.len() <= cs@.len());
    let n = cs.len();
    let mut i: usize = 0;
    while i < w.len()
        invariant
            n == cs@.len(),
            p + w@.len() <= cs@.len(),
            i <= w@.len(),
            forall|j: int| 0 <= j < i ==> cs@[p + j] == w@[j],
        decreases w@.len() - i,
    {
        if cs[p + i] != w[i] {
            assert(cs@.subrange(p as int, p + w@.len())[i as int] != w@[i as int]);
            return false;
        }
        i += 1;
    }
    assert(cs@.subrange(p as int, p + w@.len()) =~= w@);
    true
}

/// Whether a reading that found something moved forward and stayed inside
/// the text.
pub open spec fn advances(r: Result<Option<(usize, AoType)>, Fault>, p: int, len: int) -> bool {
    r matches Ok(Some((q, _))) ==> p < q <= len
}

fn ao_operator(s: &str, cs: &Vec<char>, p: usize) -> (r: Result<Option<(usize, AoType)>, Fault>)
    requires
        cs@ == s@,
        p <= cs@.len(),
    ensures
        scanned(r, lex_operator(cs@, p as int)),
        advances(r, p as int, cs@.len() as int),
{
    if p < cs.len() && p + 1 < cs.len() {
        let a = cs[p];
        if cs[p + 1] == '=' && (a == '<' || a == '>' || a == '=' || a == '!') {
            let t = text(s, p, p + 2);
            assert(t@ =~= seq![cs@[p as int], cs@[p + 1]]);
            return Ok(Some((p + 2, AoType::Opr(t))));
        }
    }
    if p < cs.len() {
        let c = cs[p];
        if c == '+' || c == '-' || c == '*' || c == '/' || c == '>' || c == '<' {
            let t = text(s, p, p + 1);
            assert(t@ =~= seq![cs@[p as int]]);
            return Ok(Some((p + 1, AoType::Opr(t))));
        }
    }
    Ok(None)
}

/// Whether the characters from `p` to `e` are the word `w`.
fn word_is(cs: &Vec<char>, p: usize, e: usize, w: &Vec<char>) -> (b: bool)
    requires
        p <= e <= cs@.len(),
    ensures
        b == (cs@.subrange(p as int, e as int) == w@),
{
    if e - p != w.len() {
        proof {
            if cs@.subrange(p as int, e as int) == w@ {
                assert(cs@.subrange(p as int, e as int).len() == e - p);
            }
        }
        return false;
    }
    let b = has_word_exec(cs, p, w);
    b
}

/// The built-in command that the word from `p` to `e` names, if any.
fn ao_command(cs: &Vec<char>, p: usize, e: usize) -> (r: Option<AoKeyword>)
    requires
        p <= e <= cs@.len(),
    ensures
        r == keyword_of(cs@.subrange(p as int, e as int)),
{
    let words: Vec<(Vec<char>, AoKeyword)> = vec![
        (vec!['e', 'v', 'a', 'l'], AoKeyword::Eval),
        (vec!['i', 'f'], AoKeyword::If),
        (vec!['w', 'h', 'i', 'l', 'e'], AoKeyword::While),
        (vec!['d', 'e', 'f'], AoKeyword::Def),
        (vec!['i', 'f', 'e', 'l', 's', 'e'], AoKeyword::IfElse),
        (vec!['d', 'u', 'p'], AoKeyword::Dup),
        (vec!['s', 'w', 'a', 'p'], AoKeyword::Swap),
        (vec!['f', 'i', 'r', 's', 't'], AoKeyword::First),
        (vec!['r', 'e', 's', 't'], AoKeyword::Rest),
        (vec!['c', 'a', 't'], AoKeyword::Cat),
        (vec!['l', 'e', 'n'], AoKeyword::Len),
        (vec!['m', 'a', 'p'], AoKeyword::MapOver),
        (vec!['p', 'r', 'i', 'n', 't', 'n', 'l'], AoKeyword::PrintNl),
    ];
    proof {
        assert(words@[0].0@ =~= seq!['e', 'v', 'a', 'l']);
        assert(words@[1].0@ =~= seq!['i', 'f']);
        assert(words@[2].0@ =~= seq!['w', 'h', 'i', 'l', 'e']);
        assert(words@[3].0@ =~= seq!['d', 'e', 'f']);
        assert(words@[4].0@ =~= seq!['i', 'f', 'e', 'l', 's', 'e']);
        assert(words@[5].0@ =~= seq!['d', 'u', 'p']);
        assert(words@[6].0@ =~= seq!['s', 'w', 'a', 'p']);
        assert(words@[7].0@ =~= seq!['f', 'i', 'r', 's', 't']);
        assert(words@[8].0@ =~= seq!['r', 'e', 's', 't']);
        assert(words@[9].0@ =~= seq!['c', 'a', 't']);
        assert(words@[10].0@ =~= seq!['l', 'e', 'n']);
        assert(words@[11].0@ =~= seq!['m', 'a', 'p']);
        assert(words@[12].0@ =~= seq!['p', 'r', 'i', 'n', 't', 'n', 'l']);
    }
    let ghost w = cs@.subrange(p as int, e as int);
    let mut i: usize = 0;
    while i < words.len()
        invariant
            words@.len() == 13,
            p <= e <= cs@.len(),
            w == cs@.subrange(p as int, e as int),
            i <= 13,
            words@[0].0@ == seq!['e', 'v', 'a', 'l'] && words@[0].1 == AoKeyword::Eval,
            words@[1].0@ == seq!['i', 'f'] && words@[1].1 == AoKeyword::If,
            words@[2].0@ == seq!['w', 'h', 'i', 'l', 'e'] && words@[2].1 == AoKeyword::While,
            words@[3].0@ == seq!['d', 'e', 'f'] && words@[3].1 == AoKeyword::Def,
            words@[4].0@ == seq!['i', 'f', 'e', 'l', 's', 'e'] && words@[4].1 == AoKeyword::IfElse,
            words@[5].0@ == seq!['d', 'u', 'p'] && words@[5].1 == AoKeyword::Dup,
            words@[6].0@ == seq!['s', 'w', 'a', 'p'] && words@[6].1 == AoKeyword::Swap,
            words@[7].0@ == seq!['f', 'i', 'r', 's', 't'] && words@[7].1 == AoKeyword::First,
            words@[8].0@ == seq!['r', 'e', 's', 't'] && words@[8].1 == AoKeyword::Rest,
            words@[9].0@ == seq!['c', 'a', 't'] && words@[9].1 == AoKeyword::Cat,
            words@[10].0@ == seq!['l', 'e', 'n'] && words@[10].1 == AoKeyword::Len,
            words@[11].0@ == seq!['m', 'a', 'p'] && words@[11].1 == AoKeyword::MapOver,
            words@[12].0@ == seq!['p', 'r', 'i', 'n', 't', 'n', 'l'] && words@[12].1
                == AoKeyword::PrintNl,
            forall|j: int| 0 <= j < i ==> w != #[trigger] words@[j].0@,
        decreases 13 - i,
    {
        if word_is(cs, p, e, &words[i].0) {
            return Some(words[i].1);
        }
        i += 1;
    }
    None
}

/// The names of a capture that are each followed by one space.
fn spaced_names_exec(s: &str, cs: &Vec<char>, q0: usize) -> (r: (usize, Vec<Box<String>>))
    requires
        cs@ == s@,
        q0 <= cs@.len(),
    ensures
        (r.0 as int, r.1.deep_view()) == spaced_names(cs@, q0 as int),
        q0 <= r.0 <= cs@.len(),
{
    let mut names: Vec<Box<String>> = Vec::new();
    let mut q = q0;
    loop
        invariant
            cs@ == s@,
            q0 <= q <= cs@.len(),
            spaced_names(cs@, q0 as int).0 == spaced_names(cs@, q as int).0,
            spaced_names(cs@, q0 as int).1 == names.deep_view() + spaced_names(cs@, q as int).1,
        decreases cs@.len() - q,
    {
        if q < cs.len() && in_class_exec(CharClass::Word, cs[q]) {
            let e = span_exec(cs, q, CharClass::Word);
            proof {
                lemma_span(cs@, q as int, CharClass::Word);
            }
            if e < cs.len() && cs[e] == ' ' {
                let name = text(s, q, e);
                let ghost old_names = names.deep_view();
                let ghost rest = spaced_names(cs@, e + 1);
                names.push(name);
                proof {
                    assert(names.deep_view() =~= old_names.push(cs@.subrange(q as int, e as int)));
                    assert(names.deep_view() + rest.1 =~= old_names + (seq![
                        cs@.subrange(q as int, e as int),
                    ] + rest.1));
                }
                q = e + 1;
            } else {
                assert(names.deep_view() + Seq::<Seq<char>>::empty() =~= names.deep_view());
                return (q, names);
            }
        } else {
            assert(names.deep_view() + Seq::<Seq<char>>::empty() =~= names.deep_view());
            return (q, names);
        }
    }
}

fn ao_var(s: &str, cs: &Vec<char>, p: usize) -> (r: Result<Option<(usize, AoType)>, Fault>)
    requires
        cs@ == s@,
        p <= cs@.len(),
    ensures
        scanned(r, lex_var(cs@, p as int)),
        advances(r, p as int, cs@.len() as int),
{
    if p < cs.len() && cs[p] == '(' {
        let (q, mut names) = spaced_names_exec(s, cs, p + 1);
        let q2 = if q < cs.len() && in_class_exec(CharClass::Word, cs[q]) {
            let e = span_exec(cs, q, CharClass::Word);
            let ghost old_names = names.deep_view();
            names.push(text(s, q, e));
            assert(names.deep_view() =~= old_names.push(cs@.subrange(q as int, e as int)));
            e
        } else {
            q
        };
        if q2 < cs.len() && cs[q2] == ')' {
            return Ok(Some((q2 + 1, AoType::Ass(names))));
        }
    }
    Ok(None)
}

fn ao_val(s: &str, cs: &Vec<char>, p: usize) -> (r: Result<Option<(usize, AoType)>, Fault>)
    requires
        cs@ == s@,
        p <= cs@.len(),
    ensures
        scanned(r, lex_val(cs@, p as int)),
        advances(r, p as int, cs@.len() as int),
{
    if p < cs.len() && (in_class_exec(CharClass::Alpha, cs[p]) || cs[p] == '_') {
        let e = span_exec(cs, p, CharClass::Word);
        proof {
            lemma_span(cs@, p as int, CharClass::Word);
        }
        match ao_command(cs, p, e) {
            Some(k) => Ok(Some((e, AoType::Cmd(k)))),
            None => Ok(Some((e, AoType::Var(text(s, p, e))))),
        }
    } else if p < cs.len() && p + 1 < cs.len() && cs[p] == '$' && in_class_exec(CharClass::Word, cs[p + 1]) {
        let e = span_exec(cs, p + 1, CharClass::Word);
        proof {
            lemma_span(cs@, p + 1, CharClass::Word);
        }
        Ok(Some((e, AoType::Var(text(s, p + 1, e)))))
    } else {
        Ok(None)
    }
}

fn ao_bool(cs: &Vec<char>, p: usize) -> (r: Result<Option<(usize, AoType)>, Fault>)
    requires
        p <= cs@.len(),
    ensures
        scanned(r, lex_bool(cs@, p as int)),
        advances(r, p as int, cs@.len() as int),
{
    if p < cs.len() && p + 1 < cs.len() && cs[p] == '#' && (cs[p + 1] == 't' || cs[p + 1] == 'f') {
        Ok(Some((p + 2, AoType::Bool(cs[p + 1] == 't'))))
    } else {
        Ok(None)
    }
}

fn ao_tuple(s: &str, cs: &Vec<char>, p: usize) -> (r: Result<Option<(usize, AoType)>, Fault>)
    requires
        cs@ == s@,
        p <= cs@.len(),
    ensures
        scanned(r, lex_tuple(cs@, p as int)),
        advances(r, p as int, cs@.len() as int),
{
    if p < cs.len() && cs[p] == '\'' {
        match ao_var(s, cs, p + 1) {
            Ok(Some((q, AoType::Ass(names)))) => Ok(Some((q, AoType::Tup(names)))),
            _ => Ok(None),
        }
    } else {
        Ok(None)
    }
}

fn typ_string(s: &str, cs: &Vec<char>, p: usize) -> (r: Result<Option<(usize, AoType)>, Fault>)
    requires
        cs@ == s@,
        p <= cs@.len(),
    ensures
        scanned(r, lex_string(cs@, p as int)),
        advances(r, p as int, cs@.len() as int),
{
    if p < cs.len() && cs[p] == '"' {
        let e = span_exec(cs, p + 1, CharClass::NotQuote);
        if e < cs.len() {
            return Ok(Some((e + 1, AoType::Str(text(s, p + 1, e)))));
        }
    }
    Ok(None)
}

fn typ_token(s: &str, cs: &Vec<char>, p: usize) -> (r: Result<Option<(usize, AoType)>, Fault>)
    requires
        cs@ == s@,
        p <= cs@.len(),
    ensures
        scanned(r, lex_token(cs@, p as int)),
        advances(r, p as int, cs@.len() as int),
{
    if p < cs.len() && cs[p] == '\'' {
        let e = span_exec(cs, p + 1, CharClass::SymbolChar);
        Ok(Some((e, AoType::Tkn(text(s, p + 1, e)))))
    } else {
        Ok(None)
    }
}

pub(crate) fn typ_int(cs: &Vec<char>, p: usize) -> (r: Result<Option<(usize, AoType)>, Fault>)
    requires
        p <= cs@.len(),
    ensures
        scanned(r, lex_int(cs@, p as int)),
        advances(r, p as int, cs@.len() as int),
{
    let e = span_exec(cs, p, CharClass::Digit);
    proof {
        lemma_span(cs@, p as int, CharClass::Digit);
    }
    if e == p {
        return Err(Fault::EmptyNumber);
    }
    let ghost d = cs@.subrange(p as int, e as int);
    let mut acc: i32 = 0;
    let mut i = p;
    assert(cs@.subrange(p as int, p as int) =~= Seq::<char>::empty());
    while i < e
        invariant
            p <= i <= e <= cs@.len(),
            p < e,
            e as int == span(cs@, p as int, CharClass::Digit),
            d == cs@.subrange(p as int, e as int),
            forall|j: int| p <= j < e ==> is_ascii_digit(#[trigger] cs@[j]),
            acc as int == digits_value(cs@.subrange(p as int, i as int)),
        decreases e - i,
    {
        let c = cs[i];
        let digit: i32 = (c as u32 - '0' as u32) as i32;
        let ghost pre = cs@.subrange(p as int, i + 1);
        proof {
            assert(pre.drop_last() =~= cs@.subrange(p as int, i as int));
            assert(pre.last() == c);
            assert(d.subrange(0, i + 1 - p) =~= pre);
            assert forall|j: int| 0 <= j < d.len() implies is_ascii_digit(#[trigger] d[j]) by {
                assert(d[j] == cs@[p + j]);
            }
            lemma_digits_prefix(d, i + 1 - p);
            assert(is_ascii_digit(c));
            assert(digits_value(pre) == digits_value(pre.drop_last()) * 10 + (c as int - '0' as int));
            assert(digits_value(pre) == acc * 10 + digit);
        }
        match acc.checked_mul(10) {
            Some(m) => match m.checked_add(digit) {
                Some(a) => {
                    acc = a;
                },
                None => {
                    return Err(Fault::NumberTooLarge);
                },
            },
            None => {
                return Err(Fault::NumberTooLarge);
            },
        }
        i += 1;
    }
    Ok(Some((e, AoType::Int(Box::new(acc)))))
}

/// How an executable reading of a sequence relates to the grammar.
pub open spec fn seq_scanned(
    r: Result<Option<(usize, (Vec<AoType>, Option<AoType>))>, Fault>,
    sp: Scan<(Seq<Val>, Option<Val>)>,
) -> bool {
    match r {
        Ok(Some((q, (items, last)))) => sp == Scan::Found(
            q as int,
            (values(items@), opt_value(last)),
        ),
        Ok(None) => sp is Miss,
        Err(e) => sp == Scan::<(Seq<Val>, Option<Val>)>::Stop(e),
    }
}

fn ao_lst(s: &str, cs: &Vec<char>, p: usize) -> (r: Result<Option<(usize, AoType)>, Fault>)
    requires
        cs@ == s@,
        p <= cs@.len(),
    ensures
        scanned(r, lex_list(cs@, p as int)),
        advances(r, p as int, cs@.len() as int),
    decreases cs@.len() - p, 0nat,
{
    if p < cs.len() && cs[p] == '[' {
        match ao_seq(s, cs, p + 1) {
            Err(e) => Err(e),
            Ok(None) => Ok(None),
            Ok(Some((q, (items, _last)))) => {
                if q < cs.len() && cs[q] == ']' {
                    Ok(Some((q + 1, AoType::Lst(items))))
                } else {
                    Ok(None)
                }
            },
        }
    } else {
        Ok(None)
    }
}

fn ao_all(s: &str, cs: &Vec<char>, p: usize) -> (r: Result<Option<(usize, AoType)>, Fault>)
    requires
        cs@ == s@,
        p <= cs@.len(),
    ensures
        scanned(r, lex_all(cs@, p as int)),
        advances(r, p as int, cs@.len() as int),
    decreases cs@.len() - p, 1nat,
{
    let r = ao_operator(s, cs, p);
    if !matches!(r, Ok(None)) {
        return r;
    }
    let r = ao_lst(s, cs, p);
    if !matches!(r, Ok(None)) {
        return r;
    }
    let r = ao_var(s, cs, p);
    if !matches!(r, Ok(None)) {
        return r;
    }
    let r = ao_val(s, cs, p);
    if !matches!(r, Ok(None)) {
        return r;
    }
    let r = ao_bool(cs, p);
    if !matches!(r, Ok(None)) {
        return r;
    }
    let r = typ_string(s, cs, p);
    if !matches!(r, Ok(None)) {
        return r;
    }
    let r = ao_tuple(s, cs, p);
    if !matches!(r, Ok(None)) {
        return r;
    }
    let r = typ_token(s, cs, p);
    if !matches!(r, Ok(None)) {
        return r;
    }
    typ_int(cs, p)
}

/// Reads values separated by white space from `p0` on.
pub(crate) fn ao_seq(s: &str, cs: &Vec<char>, p0: usize) -> (r: Result<
    Option<(usize, (Vec<AoType>, Option<AoType>))>,
    Fault,
>)
    requires
        cs@ == s@,
        p0 <= cs@.len(),
    ensures
        seq_scanned(r, lex_seq(cs@, p0 as int, Seq::empty())),
        r matches Ok(Some((q, _))) ==> p0 <= q <= cs@.len(),
    decreases cs@.len() - p0, 2nat,
{
    let mut acc: Vec<AoType> = Vec::new();
    let mut p = p0;
    assert(values(acc@) =~= Seq::<Val>::empty());
    loop
        invariant
            cs@ == s@,
            p0 <= p <= cs@.len(),
            lex_seq(cs@, p as int, values(acc@)) == lex_seq(cs@, p0 as int, Seq::empty()),
        decreases cs@.len() - p,
    {
        if p < cs.len() && in_class_exec(CharClass::Space, cs[p]) {
            proof {
                lemma_span(cs@, p as int, CharClass::Space);
            }
            p = span_exec(cs, p, CharClass::Space);
        } else if p == cs.len() || cs[p] == ']' {
            return Ok(Some((p, (acc, None))));
        } else {
            let r = ao_all(s, cs, p);
            match r {
                Err(e) => {
                    return Err(e);
                },
                Ok(None) => {
                    return Ok(Some((p, (acc, None))));
                },
                Ok(Some((q, v))) => {
                    proof {
                        lemma_values_push(acc@, v);
                    }
                    if q < cs.len() && in_class_exec(CharClass::Space, cs[q]) {
                        acc.push(v);
                        p = q;
                    } else {
                        let last = v.duplicate();
                        acc.push(v);
                        return Ok(Some((q, (acc, Some(last)))));
                    }
                },
            }
        }
    }
}

/// Reads a whole program: the values separated by white space, the last of
/// them, and the text that was left unread.
pub fn l_ao_all(input: &str) -> (r: Result<(&str, (Vec<AoType>, Option<AoType>)), Fault>)
    ensures
        match lex_program(input@) {
            Scan::Found(q, (items, last)) => r matches Ok((rest, (v, l))) && rest@
                == input@.subrange(q, input@.len() as int) && values(v@) == items && opt_value(l)
                == last,
            Scan::Miss => r matches Err(e) && e == Fault::Syntax,
            Scan::Stop(f) => r matches Err(e) && e == f,
        },
{
    let cs = chars_of(input);
    match ao_seq(input, &cs, 0) {
        Ok(Some((q, items))) => Ok((input.substring_char(q, cs.len()), items)),
        Ok(None) => Err(Fault::Syntax),
        Err(e) => Err(e),
    }
}

} // verus!
