//! An earlier interpreter of the language: values separated by single
//! spaces, no lists or commands, and operators that take the value below
//! the top of the stack as their left operand (`10 3 -` computes `10 - 3`).
use vstd::prelude::*;
use vstd::hash_map::StringHashMap;
use vstd::string::{StrSliceExecFns, StringExecFns};
use crate::value::{Fault, Val};
use crate::lexer::{CharClass, Scan, span, lemma_span, chars_of, span_exec, in_class, or_else,
    spaced_names, lex_var, lex_string, lex_token, lex_int};
use crate::machine::{Machine, pop, push, spec_assign, op_char, outcome};

verus! {

/// A value of the earlier interpreter; its texts borrow the program text.
#[derive(Debug)]
pub enum AoType<'a> {
    Str(Box<&'a str>),
    Tkn(Box<&'a str>),
    Int(Box<i32>),
    Opr(Box<&'a str>),
    Ass(Box<Vec<&'a str>>),
    Var(Box<&'a str>),
}

/// The variables of a program of the earlier interpreter.
pub type Env<'a> = StringHashMap<AoType<'a>>;

/// The texts of a list of names.
pub open spec fn name_texts(v: Seq<&str>) -> Seq<Seq<char>> {
    v.map_values(|x: &str| x@)
}

impl<'a> AoType<'a> {
    /// The model of the value.
    pub open spec fn value(self) -> Val {
        match self {
            AoType::Str(s) => Val::Str(s@),
            AoType::Tkn(s) => Val::Tkn(s@),
            AoType::Int(i) => Val::Int(*i),
            AoType::Opr(s) => Val::Opr(s@),
            AoType::Ass(v) => Val::Ass(name_texts(v@)),
            AoType::Var(s) => Val::Var(s@),
        }
    }

    /// A copy of the value.
    pub fn duplicate(&self) -> (r: AoType<'a>)
        ensures
            r.value() == self.value(),
    {
        match self {
            AoType::Str(s) => AoType::Str(Box::new(**s)),
            AoType::Tkn(s) => AoType::Tkn(Box::new(**s)),
            AoType::Int(i) => AoType::Int(Box::new(**i)),
            AoType::Opr(s) => AoType::Opr(Box::new(**s)),
            AoType::Ass(v) => {
                let mut w: Vec<&'a str> = Vec::new();
                let mut i: usize = 0;
                while i < v.len()
                    invariant
                        i <= v@.len(),
                        w@ == v@.subrange(0, i as int),
                    decreases v@.len() - i,
                {
                    w.push(v[i]);
                    i += 1;
                    assert(w@ =~= v@.subrange(0, i as int));
                }
                assert(w@ =~= v@);
                AoType::Ass(Box::new(w))
            },
            AoType::Var(s) => AoType::Var(Box::new(**s)),
        }
    }
}

/// The models of a sequence of values.
pub open spec fn values(v: Seq<AoType>) -> Seq<Val> {
    v.map_values(|t: AoType| t.value())
}

/// The model of an environment and a stack.
pub open spec fn model(env: StringHashMap<AoType>, st: Vec<AoType>) -> Machine {
    Machine { env: env@.map_values(|t: AoType| t.value()), stack: values(st@), out: Seq::empty() }
}

/// An operator of the earlier grammar: one of `+ - * /`.
pub open spec fn lex2_operator(s: Seq<char>, p: int) -> Scan<Val> {
    if 0 <= p < s.len() && (s[p] == '+' || s[p] == '-' || s[p] == '*' || s[p] == '/') {
        Scan::Found(p + 1, Val::Opr(seq![s[p]]))
    } else {
        Scan::Miss
    }
}

/// A variable of the earlier grammar: `$` then ASCII letters and digits.
pub open spec fn lex2_val(s: Seq<char>, p: int) -> Scan<Val> {
    if 0 <= p && p + 1 < s.len() && s[p] == '$' && in_class(CharClass::Alnum, s[p + 1]) {
        let e = span(s, p + 1, CharClass::Alnum);
        Scan::Found(e, Val::Var(s.subrange(p + 1, e)))
    } else {
        Scan::Miss
    }
}

/// One value of the earlier grammar, the alternatives tried in order.
pub open spec fn lex2_all(s: Seq<char>, p: int) -> Scan<Val> {
    or_else(
        lex2_operator(s, p),
        or_else(
            lex_var(s, p),
            or_else(
                lex2_val(s, p),
                or_else(lex_string(s, p), or_else(lex_token(s, p), lex_int(s, p))),
            ),
        ),
    )
}

/// Values of the earlier grammar separated by single spaces, after `acc`:
/// all of them, and the last.
pub open spec fn lex2_seq(s: Seq<char>, p: int, acc: Seq<Val>) -> Scan<(Seq<Val>, Option<Val>)>
    decreases s.len() - p,
{
    if p < 0 || p > s.len() {
        Scan::Miss
    } else {
        match lex2_all(s, p) {
            Scan::Stop(e) => Scan::Stop(e),
            Scan::Miss => Scan::Found(p, (acc, None)),
            Scan::Found(q, v) => if 0 <= q < s.len() && s[q] == ' ' {
                if p < q + 1 <= s.len() {
                    lex2_seq(s, q + 1, acc.push(v))
                } else {
                    Scan::Miss
                }
            } else {
                Scan::Found(q, (acc.push(v), Some(v)))
            },
        }
    }
}

/// How an executable reading relates to the grammar.
pub open spec fn scanned2(r: Result<Option<(usize, AoType)>, Fault>, sp: Scan<Val>) -> bool {
    match r {
        Ok(Some((q, t))) => sp == Scan::Found(q as int, t.value()),
        Ok(None) => sp is Miss,
        Err(e) => sp == Scan::<Val>::Stop(e),
    }
}

pub open spec fn advances2(r: Result<Option<(usize, AoType)>, Fault>, p: int, len: int) -> bool {
    r matches Ok(Some((q, _))) ==> p < q <= len
}

fn ao_operator<'a>(s: &'a str, cs: &Vec<char>, p: usize) -> (r: Result<Option<(usize, AoType<'a>)>, Fault>)
    requires
        cs@ == s@,
        p <= cs@.len(),
    ensures
        scanned2(r, lex2_operator(cs@, p as int)),
        advances2(r, p as int, cs@.len() as int),
{
    if p < cs.len() {
        let c = cs[p];
        if c == '+' || c == '-' || c == '*' || c == '/' {
            let t = s.substring_char(p, p + 1);
            assert(t@ =~= seq![cs@[p as int]]);
            return Ok(Some((p + 1, AoType::Opr(Box::new(t)))));
        }
    }
    Ok(None)
}

fn ao_var<'a>(s: &'a str, cs: &Vec<char>, p: usize) -> (r: Result<Option<(usize, AoType<'a>)>, Fault>)
    requires
        cs@ == s@,
        p <= cs@.len(),
    ensures
        scanned2(r, lex_var(cs@, p as int)),
        advances2(r, p as int, cs@.len() as int),
{
    if !(p < cs.len() && cs[p] == '(') {
        return Ok(None);
    }
    let q0 = p + 1;
    let mut names: Vec<&'a str> = Vec::new();
    let mut q = q0;
    assert(name_texts(names@) =~= Seq::<Seq<char>>::empty());
    loop
        invariant
            cs@ == s@,
            q0 == p + 1,
            p < cs@.len(),
            q0 <= q <= cs@.len(),
            spaced_names(cs@, q0 as int).0 == spaced_names(cs@, q as int).0,
            spaced_names(cs@, q0 as int).1 == name_texts(names@) + spaced_names(cs@, q as int).1,
        ensures
            q0 <= q <= cs@.len(),
            spaced_names(cs@, q0 as int).0 == q,
            spaced_names(cs@, q0 as int).1 == name_texts(names@),
        decreases cs@.len() - q,
    {
        if q < cs.len() && ('a' <= cs[q] && cs[q] <= 'z' || 'A' <= cs[q] && cs[q] <= 'Z' || '0'
            <= cs[q] && cs[q] <= '9' || cs[q] == '_' || cs[q] == '-') {
            let e = span_exec(cs, q, CharClass::Word);
            proof {
                lemma_span(cs@, q as int, CharClass::Word);
            }
            if e < cs.len() && cs[e] == ' ' {
                let name = s.substring_char(q, e);
                let ghost old_names = name_texts(names@);
                let ghost rest = spaced_names(cs@, e + 1);
                names.push(name);
                proof {
                    assert(name_texts(names@) =~= old_names.push(cs@.subrange(q as int, e as int)));
                    assert(name_texts(names@) + rest.1 =~= old_names + (seq![
                        cs@.subrange(q as int, e as int),
                    ] + rest.1));
                }
                q = e + 1;
            } else {
                assert(name_texts(names@) + Seq::<Seq<char>>::empty() =~= name_texts(names@));
                break ;
            }
        } else {
            assert(name_texts(names@) + Seq::<Seq<char>>::empty() =~= name_texts(names@));
            break ;
        }
    }
    let q2 = if q < cs.len() && ('a' <= cs[q] && cs[q] <= 'z' || 'A' <= cs[q] && cs[q] <= 'Z' || '0'
        <= cs[q] && cs[q] <= '9' || cs[q] == '_' || cs[q] == '-') {
        let e = span_exec(cs, q, CharClass::Word);
        let ghost old_names = name_texts(names@);
        names.push(s.substring_char(q, e));
        assert(name_texts(names@) =~= old_names.push(cs@.subrange(q as int, e as int)));
        e
    } else {
        q
    };
    if q2 < cs.len() && cs[q2] == ')' {
        Ok(Some((q2 + 1, AoType::Ass(Box::new(names)))))
    } else {
        Ok(None)
    }
}

fn ao_val<'a>(s: &'a str, cs: &Vec<char>, p: usize) -> (r: Result<Option<(usize, AoType<'a>)>, Fault>)
    requires
        cs@ == s@,
        p <= cs@.len(),
    ensures
        scanned2(r, lex2_val(cs@, p as int)),
        advances2(r, p as int, cs@.len() as int),
{
    if p < cs.len() && p + 1 < cs.len() && cs[p] == '$' && ('a' <= cs[p + 1] && cs[p + 1] <= 'z'
        || 'A' <= cs[p + 1] && cs[p + 1] <= 'Z' || '0' <= cs[p + 1] && cs[p + 1] <= '9') {
        let e = span_exec(cs, p + 1, CharClass::Alnum);
        proof {
            lemma_span(cs@, p + 1, CharClass::Alnum);
        }
        Ok(Some((e, AoType::Var(Box::new(s.substring_char(p + 1, e))))))
    } else {
        Ok(None)
    }
}

fn typ_string<'a>(s: &'a str, cs: &Vec<char>, p: usize) -> (r: Result<Option<(usize, AoType<'a>)>, Fault>)
    requires
        cs@ == s@,
        p <= cs@.len(),
    ensures
        scanned2(r, lex_string(cs@, p as int)),
        advances2(r, p as int, cs@.len() as int),
{
    if p < cs.len() && cs[p] == '"' {
        let e = span_exec(cs, p + 1, CharClass::NotQuote);
        if e < cs.len() {
            return Ok(Some((e + 1, AoType::Str(Box::new(s.substring_char(p + 1, e))))));
        }
    }
    Ok(None)
}

fn typ_token<'a>(s: &'a str, cs: &Vec<char>, p: usize) -> (r: Result<Option<(usize, AoType<'a>)>, Fault>)
    requires
        cs@ == s@,
        p <= cs@.len(),
    ensures
        scanned2(r, lex_token(cs@, p as int)),
        advances2(r, p as int, cs@.len() as int),
{
    if p < cs.len() && cs[p] == '\'' {
        let e = span_exec(cs, p + 1, CharClass::SymbolChar);
        Ok(Some((e, AoType::Tkn(Box::new(s.substring_char(p + 1, e))))))
    } else {
        Ok(None)
    }
}

fn typ_int<'a>(cs: &Vec<char>, p: usize) -> (r: Result<Option<(usize, AoType<'a>)>, Fault>)
    requires
        p <= cs@.len(),
    ensures
        scanned2(r, lex_int(cs@, p as int)),
        advances2(r, p as int, cs@.len() as int),
{
    match crate::lexer::typ_int(cs, p) {
        Ok(Some((q, crate::value::AoType::Int(i)))) => Ok(Some((q, AoType::Int(i)))),
        Ok(Some(_)) => Ok(None),
        Ok(None) => Ok(None),
        Err(e) => Err(e),
    }
}

fn ao_all<'a>(s: &'a str, cs: &Vec<char>, p: usize) -> (r: Result<Option<(usize, AoType<'a>)>, Fault>)
    requires
        cs@ == s@,
        p <= cs@.len(),
    ensures
        scanned2(r, lex2_all(cs@, p as int)),
        advances2(r, p as int, cs@.len() as int),
{
    let r = ao_operator(s, cs, p);
    if !matches!(r, Ok(None)) {
        return r;
    }
    let r = ao_var(s, cs, p);
    if !matches!(r, Ok(None)) {
        return r;
    }
    let r = ao_val(s, cs, p);
    if !matches!(r, Ok(None)) {
        return r;
    }
    let r = typ_string(s, cs, p);
    if !matches!(r, Ok(None)) {
        return r;
    }
    let r = typ_token(s, cs, p);
    if !matches!(r, Ok(None)) {
        return r;
    }
    typ_int(cs, p)
}

/// The models of an optional value.
pub open spec fn opt_value(o: Option<AoType>) -> Option<Val> {
    match o {
        Some(t) => Some(t.value()),
        None => None,
    }
}

/// Reads values separated by single spaces: all the values, the last of
/// them, and the text left unread.
pub fn l_ao_all<'a>(input: &'a str) -> (r: Result<(&'a str, (Vec<AoType<'a>>, Option<AoType<'a>>)), Fault>)
    ensures
        match lex2_seq(input@, 0, Seq::empty()) {
            Scan::Found(q, (items, last)) => r matches Ok((rest, (v, l))) && rest@
                == input@.subrange(q, input@.len() as int) && values(v@) == items && opt_value(l)
                == last,
            Scan::Miss => r matches Err(e) && e == Fault::Syntax,
            Scan::Stop(f) => r matches Err(e) && e == f,
        },
{
    let cs = chars_of(input);
    let mut acc: Vec<AoType<'a>> = Vec::new();
    let mut p: usize = 0;
    assert(values(acc@) =~= Seq::<Val>::empty());
    loop
        invariant
            cs@ == input@,
            p <= cs@.len(),
            lex2_seq(cs@, p as int, values(acc@)) == lex2_seq(cs@, 0, Seq::empty()),
        decreases cs@.len() - p,
    {
        match ao_all(input, &cs, p) {
            Err(e) => {
                return Err(e);
            },
            Ok(None) => {
                return Ok((input.substring_char(p, cs.len()), (acc, None)));
            },
            Ok(Some((q, v))) => {
                let ghost before = values(acc@);
                if q < cs.len() && cs[q] == ' ' {
                    acc.push(v);
                    assert(values(acc@) =~= before.push(v.value()));
                    p = q + 1;
                } else {
                    let last = v.duplicate();
                    acc.push(v);
                    assert(values(acc@) =~= before.push(last.value()));
                    return Ok((input.substring_char(q, cs.len()), (acc, Some(last))));
                }
            },
        }
    }
}

/// The integer held by a value (0 for a value that is not an integer).
pub open spec fn operand(t: AoType) -> i32 {
    match t.value() {
        Val::Int(i) => i,
        _ => 0,
    }
}

/// `op1 + op2`.
pub fn add<'b>(op1: AoType<'b>, op2: AoType<'b>) -> (r: AoType<'b>)
    requires
        op1.value() is Int,
        op2.value() is Int,
        i32::MIN <= operand(op1) + operand(op2) <= i32::MAX,
    ensures
        r.value() == Val::Int((operand(op1) + operand(op2)) as i32),
{
    let (AoType::Int(i_op1), AoType::Int(i_op2)) = (op1, op2) else { unreached() };
    AoType::Int(Box::new(*i_op1 + *i_op2))
}

/// `op1 - op2`.
pub fn sub<'b>(op1: AoType<'b>, op2: AoType<'b>) -> (r: AoType<'b>)
    requires
        op1.value() is Int,
        op2.value() is Int,
        i32::MIN <= operand(op1) - operand(op2) <= i32::MAX,
    ensures
        r.value() == Val::Int((operand(op1) - operand(op2)) as i32),
{
    let (AoType::Int(i_op1), AoType::Int(i_op2)) = (op1, op2) else { unreached() };
    AoType::Int(Box::new(*i_op1 - *i_op2))
}

/// `op1 * op2`.
pub fn mul<'b>(op1: AoType<'b>, op2: AoType<'b>) -> (r: AoType<'b>)
    requires
        op1.value() is Int,
        op2.value() is Int,
        i32::MIN <= operand(op1) * operand(op2) <= i32::MAX,
    ensures
        r.value() == Val::Int((operand(op1) * operand(op2)) as i32),
{
    let (AoType::Int(i_op1), AoType::Int(i_op2)) = (op1, op2) else { unreached() };
    AoType::Int(Box::new(*i_op1 * *i_op2))
}

/// `op1 / op2`, rounded toward zero.
pub fn div<'b>(op1: AoType<'b>, op2: AoType<'b>) -> (r: AoType<'b>)
    requires
        op1.value() is Int,
        op2.value() is Int,
        operand(op1).checked_div(operand(op2)) is Some,
    ensures
        r.value() == Val::Int(operand(op1).checked_div(operand(op2))->Some_0),
{
    let (AoType::Int(i_op1), AoType::Int(i_op2)) = (op1, op2) else { unreached() };
    match (*i_op1).checked_div(*i_op2) {
        Some(q) => AoType::Int(Box::new(q)),
        None => unreached(),
    }
}

/// What an operator of the earlier interpreter computes from `op1` (the
/// former top of the stack) and `op2` (the value below it): `op2 + op1`,
/// `op2 - op1`, `op2 * op1` or `op2 / op1`, so that `10 3 -` gives 7.
pub open spec fn spec_operate2(op: Seq<char>, op1: Val, op2: Val) -> Result<Option<Val>, Fault> {
    match op_char(op) {
        Some(c) => if c == '+' || c == '-' || c == '*' || c == '/' {
            match (op1, op2) {
                (Val::Int(a), Val::Int(b)) => {
                    let x = if c == '+' {
                        a.checked_add(b)
                    } else if c == '-' {
                        b.checked_sub(a)
                    } else if c == '*' {
                        a.checked_mul(b)
                    } else {
                        b.checked_div(a)
                    };
                    if c == '/' && a == 0 {
                        Err(Fault::DivisionByZero)
                    } else {
                        match x {
                            Some(v) => Ok(Some(Val::Int(v))),
                            None => Err(Fault::Overflow),
                        }
                    }
                },
                _ => Err(Fault::NotAnInteger),
            }
        } else {
            Ok(None)
        },
        None => Ok(None),
    }
}

/// What the earlier interpreter does with one value.
pub open spec fn spec_eval2(item: Val, m: Machine) -> Result<Machine, Fault> {
    match item {
        Val::Str(_) => Ok(push(m, item)),
        Val::Tkn(_) => Ok(push(m, item)),
        Val::Int(_) => Ok(push(m, item)),
        Val::Opr(op) => match pop(m) {
            Err(e) => Err(e),
            Ok((op1, m1)) => match pop(m1) {
                Err(e) => Err(e),
                Ok((op2, m2)) => match spec_operate2(op, op1, op2) {
                    Err(e) => Err(e),
                    Ok(Some(v)) => Ok(push(m2, v)),
                    Ok(None) => Ok(m2),
                },
            },
        },
        Val::Ass(names) => spec_assign(names, m),
        Val::Var(k) => if m.env.contains_key(k) {
            Ok(push(m, m.env[k]))
        } else {
            Ok(m)
        },
        _ => Ok(m),
    }
}

fn pop2<'a>(env: &StringHashMap<AoType<'a>>, st: &mut Vec<AoType<'a>>) -> (r: Result<AoType<'a>, Fault>)
    ensures
        match pop(model(*env, *old(st))) {
            Err(e) => r matches Err(e2) && e2 == e && final(st)@ == old(st)@,
            Ok((v, m1)) => r matches Ok(t) && t.value() == v && model(*env, *final(st)) == m1,
        },
{
    proof {
        if old(st)@.len() > 0 {
            assert(values(old(st)@.drop_last()) =~= values(old(st)@).drop_last());
        }
    }
    match st.pop() {
        Some(t) => Ok(t),
        None => Err(Fault::StackUnderflow),
    }
}

fn push2<'a>(env: &StringHashMap<AoType<'a>>, st: &mut Vec<AoType<'a>>, t: AoType<'a>)
    ensures
        model(*env, *final(st)) == push(model(*env, *old(st)), t.value()),
{
    proof {
        assert(values(old(st)@.push(t)) =~= values(old(st)@).push(t.value()));
    }
    st.push(t);
}

fn single_char(op: &str) -> (r: Option<char>)
    ensures
        r == op_char(op@),
{
    if op.unicode_len() == 1 {
        Some(op.get_char(0))
    } else {
        None
    }
}

/// Evaluates one value of the earlier interpreter.
pub fn eval<'a>(lex: AoType<'a>, env: &mut StringHashMap<AoType<'a>>, st: &mut Vec<AoType<'a>>) -> (r:
    Result<(), Fault>)
    ensures
        outcome(r, model(*final(env), *final(st)), spec_eval2(lex.value(), model(*old(env), *old(st)))),
{
    let ghost v = lex.value();
    match lex {
        AoType::Opr(op) => {
            let op1 = match pop2(env, st) {
                Ok(v) => v,
                Err(e) => return Err(e),
            };
            let op2 = match pop2(env, st) {
                Ok(v) => v,
                Err(e) => return Err(e),
            };
            let c = match single_char(*op) {
                Some(c) => c,
                None => return Ok(()),
            };
            if !(c == '+' || c == '-' || c == '*' || c == '/') {
                return Ok(());
            }
            let (a, b) = match (&op1, &op2) {
                (AoType::Int(a), AoType::Int(b)) => (**a, **b),
                _ => return Err(Fault::NotAnInteger),
            };
            let r = if c == '+' {
                if a.checked_add(b).is_none() {
                    return Err(Fault::Overflow);
                }
                self::add(op1, op2)
            } else if c == '-' {
                if b.checked_sub(a).is_none() {
                    return Err(Fault::Overflow);
                }
                self::sub(op2, op1)
            } else if c == '*' {
                if a.checked_mul(b).is_none() {
                    return Err(Fault::Overflow);
                }
                self::mul(op1, op2)
            } else {
                if a == 0 {
                    return Err(Fault::DivisionByZero);
                }
                if b.checked_div(a).is_none() {
                    return Err(Fault::Overflow);
                }
                div(op2, op1)
            };
            push2(env, st, r);
            Ok(())
        },
        AoType::Ass(names) => {
            let ghost all = name_texts(names@);
            let ghost target = spec_assign(all, model(*env, *st));
            let mut i: usize = names.len();
            assert(all.take(i as int) =~= all);
            while i > 0
                invariant
                    i <= names@.len(),
                    all == name_texts(names@),
                    spec_assign(all.take(i as int), model(*env, *st)) == target,
                    target == spec_assign(all, model(*old(env), *old(st))),
                    v == lex.value(),
                    v == Val::Ass(all),
                decreases i,
            {
                let t = match pop2(env, st) {
                    Ok(t) => t,
                    Err(e) => return Err(e),
                };
                let k = String::from_str(names[i - 1]);
                let ghost old_env = env@;
                env.insert(k, t);
                proof {
                    assert(all.take(i as int).last() == k@);
                    assert(all.take(i as int).drop_last() =~= all.take(i - 1));
                    assert(env@.map_values(|t: AoType| t.value()) =~= old_env.map_values(
                        |t: AoType| t.value(),
                    ).insert(k@, t.value()));
                }
                i -= 1;
            }
            Ok(())
        },
        AoType::Var(k) => {
            let found: Option<AoType<'a>> = match env.get(*k) {
                Some(t) => Some(t.duplicate()),
                None => None,
            };
            match found {
                Some(t) => {
                    push2(env, st, t);
                    Ok(())
                },
                None => Ok(()),
            }
        },
        other => {
            push2(env, st, other);
            Ok(())
        },
    }
}

/// Pushes the string "test".
pub fn test<'a>(s: &mut Vec<AoType<'a>>)
    ensures
        final(s)@.len() == old(s)@.len() + 1,
        final(s)@.subrange(0, old(s)@.len() as int) == old(s)@,
        final(s)@.last().value() == Val::Str(seq!['t', 'e', 's', 't']),
{
    proof {
        reveal_strlit("test");
    }
    let t: &str = "test";
    assert(t@ =~= seq!['t', 'e', 's', 't']);
    s.push(AoType::Str(Box::new(t)));
    assert(s@.subrange(0, old(s)@.len() as int) =~= old(s)@);
}

} // verus!
