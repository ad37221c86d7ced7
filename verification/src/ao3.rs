//! An early reader of the language: symbols (any run of characters without
//! a space) and strings, separated by single spaces.
use vstd::prelude::*;
use vstd::string::StrSliceExecFns;
use crate::lexer::{CharClass, span, chars_of, span_exec};

verus! {

/// A value read by the early reader; it borrows the text it was read from.
#[derive(Debug)]
pub enum AoType<'a> {
    Str(Box<&'a str>),
    Tkn(Box<&'a str>),
}

/// The model of a value of the early reader.
pub ghost enum Piece {
    Str(Seq<char>),
    Tkn(Seq<char>),
}

impl<'a> AoType<'a> {
    pub open spec fn piece(self) -> Piece {
        match self {
            AoType::Str(s) => Piece::Str(s@),
            AoType::Tkn(s) => Piece::Tkn(s@),
        }
    }
}

/// The models of a sequence of values.
pub open spec fn pieces(v: Seq<AoType>) -> Seq<Piece> {
    v.map_values(|t: AoType| t.piece())
}

/// Texts as symbols.
pub open spec fn as_tokens(ts: Seq<Seq<char>>) -> Seq<Piece> {
    ts.map_values(|t: Seq<char>| Piece::Tkn(t))
}

/// Texts as strings.
pub open spec fn as_strings(ts: Seq<Seq<char>>) -> Seq<Piece> {
    ts.map_values(|t: Seq<char>| Piece::Str(t))
}

/// A string at `p`: `"`, anything but `"`, `"`; its end and contents.
pub open spec fn string_at(s: Seq<char>, p: int) -> Option<(int, Seq<char>)> {
    if 0 <= p < s.len() && s[p] == '"' {
        let e = span(s, p + 1, CharClass::NotQuote);
        if e < s.len() {
            Some((e + 1, s.subrange(p + 1, e)))
        } else {
            None
        }
    } else {
        None
    }
}

/// Symbols, each but the last followed by one space, from `p` on after
/// `acc`: where the reading ends and the symbols.
pub open spec fn token_list(s: Seq<char>, p: int, acc: Seq<Seq<char>>) -> (int, Seq<Seq<char>>)
    decreases s.len() - p,
{
    let e = span(s, p, CharClass::NotSpace);
    if 0 <= p <= e < s.len() {
        token_list(s, e + 1, acc.push(s.subrange(p, e)))
    } else {
        (e, acc.push(s.subrange(p, e)))
    }
}

/// Strings, each but the last followed by one space, from `p` on after
/// `acc`.
pub open spec fn string_list(s: Seq<char>, p: int, acc: Seq<Seq<char>>) -> (int, Seq<Seq<char>>)
    decreases s.len() - p,
{
    match string_at(s, p) {
        Some((q, v)) => if p < q < s.len() && s[q] == ' ' {
            string_list(s, q + 1, acc.push(v))
        } else {
            (q, acc.push(v))
        },
        None => (p, acc),
    }
}

/// One value: a string if one starts here, else a symbol.
pub open spec fn item_at(s: Seq<char>, p: int) -> (int, Piece) {
    match string_at(s, p) {
        Some((q, v)) => (q, Piece::Str(v)),
        None => {
            let e = span(s, p, CharClass::NotSpace);
            (e, Piece::Tkn(s.subrange(p, e)))
        },
    }
}

/// Values, each but the last followed by one space: the values before the
/// last, and the last.
pub open spec fn item_list(s: Seq<char>, p: int, acc: Seq<Piece>) -> (int, (Seq<Piece>, Option<Piece>))
    decreases s.len() - p,
{
    let (q, v) = item_at(s, p);
    if 0 <= p <= q < s.len() && s[q] == ' ' {
        item_list(s, q + 1, acc.push(v))
    } else {
        (q, (acc, Some(v)))
    }
}

/// The symbol at the start of the text (all up to the first space) and the
/// rest of the text.
pub fn test_parser_token<'a>(input: &'a str) -> (r: (&'a str, &'a str))
    ensures
        r.1@ == input@.subrange(0, span(input@, 0, CharClass::NotSpace)),
        r.0@ == input@.subrange(span(input@, 0, CharClass::NotSpace), input@.len() as int),
{
    token(input)
}

/// The symbol at the start of the text (all up to the first space) and the
/// rest of the text.
pub fn token<'a>(input: &'a str) -> (r: (&'a str, &'a str))
    ensures
        r.1@ == input@.subrange(0, span(input@, 0, CharClass::NotSpace)),
        r.0@ == input@.subrange(span(input@, 0, CharClass::NotSpace), input@.len() as int),
{
    let cs = chars_of(input);
    let e = span_exec(&cs, 0, CharClass::NotSpace);
    (input.substring_char(e, cs.len()), input.substring_char(0, e))
}

/// The symbol at the start of the text, as a value.
pub fn typ_token<'a>(input: &'a str) -> (r: (&'a str, AoType<'a>))
    ensures
        r.1.piece() == Piece::Tkn(input@.subrange(0, span(input@, 0, CharClass::NotSpace))),
        r.0@ == input@.subrange(span(input@, 0, CharClass::NotSpace), input@.len() as int),
{
    let (rest, t) = token(input);
    (rest, AoType::Tkn(Box::new(t)))
}

fn string_exec<'a>(s: &'a str, cs: &Vec<char>, p: usize) -> (r: Option<(usize, &'a str)>)
    requires
        cs@ == s@,
        p <= cs@.len(),
    ensures
        match string_at(cs@, p as int) {
            Some((q, v)) => r matches Some((q2, t)) && q2 == q && t@ == v && p < q2 <= cs@.len(),
            None => r is None,
        },
{
    if p < cs.len() && cs[p] == '"' {
        let e = span_exec(cs, p + 1, CharClass::NotQuote);
        if e < cs.len() {
            return Some((e + 1, s.substring_char(p + 1, e)));
        }
    }
    None
}

/// A string at the start of the text: its contents and the rest of the
/// text; nothing where no string starts.
pub fn ao_string<'a>(input: &'a str) -> (r: Option<(&'a str, &'a str)>)
    ensures
        match string_at(input@, 0) {
            Some((q, v)) => r matches Some((rest, t)) && t@ == v && rest@ == input@.subrange(
                q,
                input@.len() as int,
            ),
            None => r is None,
        },
{
    let cs = chars_of(input);
    match string_exec(input, &cs, 0) {
        Some((q, t)) => Some((input.substring_char(q, cs.len()), t)),
        None => None,
    }
}

/// A string at the start of the text, as a value.
pub fn typ_string<'a>(input: &'a str) -> (r: Option<(&'a str, AoType<'a>)>)
    ensures
        match string_at(input@, 0) {
            Some((q, v)) => r matches Some((rest, t)) && t.piece() == Piece::Str(v) && rest@
                == input@.subrange(q, input@.len() as int),
            None => r is None,
        },
{
    match ao_string(input) {
        Some((rest, t)) => Some((rest, AoType::Str(Box::new(t)))),
        None => None,
    }
}

/// Symbols separated by single spaces, as values, and the rest of the
/// text.
#[allow(non_snake_case)]
pub fn lToken<'a>(input: &'a str) -> (r: (&'a str, Vec<AoType<'a>>))
    ensures
        ({
            let (q, toks) = token_list(input@, 0, Seq::empty());
            &&& r.0@ == input@.subrange(q, input@.len() as int)
            &&& pieces(r.1@) == as_tokens(toks)
        }),
{
    let cs = chars_of(input);
    let mut res: Vec<AoType<'a>> = Vec::new();
    let mut p: usize = 0;
    let ghost target = token_list(cs@, 0, Seq::empty());
    let ghost mut acc: Seq<Seq<char>> = Seq::empty();
    assert(pieces(res@) =~= as_tokens(acc));
    loop
        invariant
            cs@ == input@,
            p <= cs@.len(),
            token_list(cs@, p as int, acc) == target,
            target == token_list(input@, 0, Seq::empty()),
            pieces(res@) == as_tokens(acc),
            res@.len() == acc.len(),
        decreases cs@.len() - p,
    {
        let e = span_exec(&cs, p, CharClass::NotSpace);
        let t = input.substring_char(p, e);
        let ghost old_res = res@;
        let ghost old_acc = acc;
        res.push(AoType::Tkn(Box::new(t)));
        proof {
            assert(forall|i: int| 0 <= i < old_res.len() ==> #[trigger] res@[i] == old_res[i]);
            acc = acc.push(cs@.subrange(p as int, e as int));
            assert forall|i: int| 0 <= i < res@.len() implies #[trigger] pieces(res@)[i] == as_tokens(
                acc,
            )[i] by {
                if i < old_res.len() {
                    assert(pieces(old_res)[i] == as_tokens(old_acc)[i]);
                }
            }
            assert(pieces(res@) =~= as_tokens(acc));
        }
        if e < cs.len() {
            p = e + 1;
        } else {
            return (input.substring_char(e, cs.len()), res);
        }
    }
}

/// Strings separated by single spaces, as values, and the rest of the
/// text.
#[allow(non_snake_case)]
pub fn lAoString<'a>(input: &'a str) -> (r: (&'a str, Vec<AoType<'a>>))
    ensures
        ({
            let (q, strs) = string_list(input@, 0, Seq::empty());
            &&& r.0@ == input@.subrange(q, input@.len() as int)
            &&& pieces(r.1@) == as_strings(strs)
        }),
{
    let cs = chars_of(input);
    let mut res: Vec<AoType<'a>> = Vec::new();
    let mut p: usize = 0;
    let ghost target = string_list(cs@, 0, Seq::empty());
    let ghost mut acc: Seq<Seq<char>> = Seq::empty();
    assert(pieces(res@) =~= as_strings(acc));
    loop
        invariant
            cs@ == input@,
            p <= cs@.len(),
            string_list(cs@, p as int, acc) == target,
            target == string_list(input@, 0, Seq::empty()),
            pieces(res@) == as_strings(acc),
            res@.len() == acc.len(),
        decreases cs@.len() - p,
    {
        match string_exec(input, &cs, p) {
            Some((q, t)) => {
                let ghost old_res = res@;
                res.push(AoType::Str(Box::new(t)));
                proof {
                    assert(forall|i: int| 0 <= i < old_res.len() ==> #[trigger] res@[i] == old_res[i]);
                    let old_acc = acc;
                    acc = acc.push(t@);
                    assert forall|i: int| 0 <= i < res@.len() implies #[trigger] pieces(res@)[i]
                        == as_strings(acc)[i] by {
                        if i < old_res.len() {
                            assert(pieces(old_res)[i] == as_strings(old_acc)[i]);
                        }
                    }
                    assert(pieces(res@) =~= as_strings(acc));
                }
                if q < cs.len() && cs[q] == ' ' {
                    p = q + 1;
                } else {
                    return (input.substring_char(q, cs.len()), res);
                }
            },
            None => {
                return (input.substring_char(p, cs.len()), res);
            },
        }
    }
}

fn item_exec<'a>(s: &'a str, cs: &Vec<char>, p: usize) -> (r: (usize, AoType<'a>))
    requires
        cs@ == s@,
        p <= cs@.len(),
    ensures
        item_at(cs@, p as int) == (r.0 as int, r.1.piece()),
        p <= r.0 <= cs@.len(),
{
    match string_exec(s, cs, p) {
        Some((q, t)) => (q, AoType::Str(Box::new(t))),
        None => {
            let e = span_exec(cs, p, CharClass::NotSpace);
            (e, AoType::Tkn(Box::new(s.substring_char(p, e))))
        },
    }
}

/// One value at the start of the text: a string if one starts there, else
/// a symbol; and the rest of the text.
pub fn ao_all<'a>(input: &'a str) -> (r: (&'a str, AoType<'a>))
    ensures
        ({
            let (q, v) = item_at(input@, 0);
            r.1.piece() == v && r.0@ == input@.subrange(q, input@.len() as int)
        }),
{
    let cs = chars_of(input);
    let (q, t) = item_exec(input, &cs, 0);
    (input.substring_char(q, cs.len()), t)
}

/// Values separated by single spaces: the values before the last, the
/// last, and the rest of the text.
pub fn l_ao_all<'a>(input: &'a str) -> (r: (&'a str, (Vec<AoType<'a>>, Option<AoType<'a>>)))
    ensures
        ({
            let (q, (items, last)) = item_list(input@, 0, Seq::empty());
            &&& r.0@ == input@.subrange(q, input@.len() as int)
            &&& pieces(r.1.0@) == items
            &&& match r.1.1 {
                Some(t) => last == Some(t.piece()),
                None => last is None,
            }
        }),
{
    let cs = chars_of(input);
    let mut res: Vec<AoType<'a>> = Vec::new();
    let mut p: usize = 0;
    let ghost target = item_list(cs@, 0, Seq::empty());
    assert(pieces(res@) =~= Seq::<Piece>::empty());
    loop
        invariant
            cs@ == input@,
            p <= cs@.len(),
            item_list(cs@, p as int, pieces(res@)) == target,
            target == item_list(input@, 0, Seq::empty()),
        decreases cs@.len() - p,
    {
        let (q, v) = item_exec(input, &cs, p);
        if q < cs.len() && cs[q] == ' ' {
            let ghost before = pieces(res@);
            res.push(v);
            assert(pieces(res@) =~= before.push(v.piece()));
            p = q + 1;
        } else {
            return (input.substring_char(q, cs.len()), (res, Some(v)));
        }
    }
}

} // verus!
