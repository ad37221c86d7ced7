//! The evaluator: what each value does to the stack and the environment.
//!
//! Where the evaluator cannot go on (an empty stack, an operand that is not
//! an integer, an overflow, ...) it stops with a [`Fault`].  Running code
//! (a procedure, the branches of `if`, the rounds of `while`) spends one
//! unit of a depth budget; the public entry points start from [`DEPTH`],
//! so that only a program that runs for ever meets the end of the budget.
use vstd::prelude::*;
use vstd::hash_map::StringHashMap;
use vstd::string::StrSliceExecFns;
use vstd::string::StringExecFns;
use crate::value::{AoKeyword, AoType, Fault, Val, values, lemma_values_push,
    lemma_values_drop_last};
use crate::lexer::{lex_program, Scan, chars_of, ao_seq};
use crate::arith::{div, sup, inf};
use crate::display::{printed, print_line};

verus! {

/// The variables of a running program, by name.
pub type Env = StringHashMap<AoType>;

/// The depth budget of a program run from the public entry points.
pub const DEPTH: u64 = 0xffff_ffff_ffff_ffffu64;

/// The state of the interpreter: the variables, the stack (its top is the
/// last element) and the lines printed so far.
pub ghost struct Machine {
    pub env: Map<Seq<char>, Val>,
    pub stack: Seq<Val>,
    pub out: Seq<Seq<char>>,
}

/// The model of an environment.
pub open spec fn env_model(env: StringHashMap<AoType>) -> Map<Seq<char>, Val> {
    env@.map_values(|t: AoType| t.value())
}

/// The model of an environment, a stack and the lines printed.
pub open spec fn model(env: StringHashMap<AoType>, st: Vec<AoType>, out: Vec<String>) -> Machine {
    Machine { env: env_model(env), stack: values(st@), out: out.deep_view() }
}

/// The model of an environment and a stack, with no line printed yet.
pub open spec fn fresh(env: StringHashMap<AoType>, st: Vec<AoType>) -> Machine {
    Machine { env: env_model(env), stack: values(st@), out: Seq::empty() }
}

/// Adds a printed line.
pub open spec fn emit(m: Machine, line: Seq<char>) -> Machine {
    Machine { env: m.env, stack: m.stack, out: m.out.push(line) }
}

/// Pushes a value.
pub open spec fn push(m: Machine, v: Val) -> Machine {
    Machine { env: m.env, stack: m.stack.push(v), out: m.out }
}

/// Pops the top of the stack.
pub open spec fn pop(m: Machine) -> Result<(Val, Machine), Fault> {
    if m.stack.len() == 0 {
        Err(Fault::StackUnderflow)
    } else {
        Ok((m.stack.last(), Machine { env: m.env, stack: m.stack.drop_last(), out: m.out }))
    }
}

/// Binds a name.
pub open spec fn bind(m: Machine, k: Seq<char>, v: Val) -> Machine {
    Machine { env: m.env.insert(k, v), stack: m.stack, out: m.out }
}

/// The single character of an operator's text, if it has exactly one.
pub open spec fn op_char(op: Seq<char>) -> Option<char> {
    if op.len() == 1 {
        Some(op[0])
    } else {
        None
    }
}

/// The two characters of an operator's text, if it has exactly two.
pub open spec fn op_pair(op: Seq<char>) -> Option<(char, char)> {
    if op.len() == 2 {
        Some((op[0], op[1]))
    } else {
        None
    }
}

/// The comparison `b x= a` of a two-character operator: 1 when it holds,
/// else 0.
pub open spec fn compare2(x: char, a: i32, b: i32) -> i32 {
    let holds = if x == '<' {
        b <= a
    } else if x == '>' {
        b >= a
    } else if x == '=' {
        b == a
    } else {
        b != a
    };
    if holds { 1 } else { 0 }
}

/// What an operator computes from `op1` (the former top of the stack) and
/// `op2` (the value below it): the value to push, or nothing for an
/// operator text that is none of the ten.
pub open spec fn spec_operate(op: Seq<char>, op1: Val, op2: Val) -> Result<Option<Val>, Fault> {
    match op_pair(op) {
        Some((x, y)) => if crate::lexer::is_two_char_operator(x, y) {
            match (op1, op2) {
                (Val::Int(a), Val::Int(b)) => Ok(Some(Val::Int(compare2(x, a, b)))),
                _ => Err(Fault::NotAnInteger),
            }
        } else {
            Ok(None)
        },
        None => spec_operate1(op, op1, op2),
    }
}

/// What a one-character operator computes.
pub open spec fn spec_operate1(op: Seq<char>, op1: Val, op2: Val) -> Result<Option<Val>, Fault> {
    match op_char(op) {
        Some(c) => if c == '+' || c == '-' || c == '*' || c == '/' || c == '>' || c == '<' {
            match (op1, op2) {
                (Val::Int(a), Val::Int(b)) => if c == '+' {
                    match a.checked_add(b) {
                        Some(x) => Ok(Some(Val::Int(x))),
                        None => Err(Fault::Overflow),
                    }
                } else if c == '-' {
                    match b.checked_sub(a) {
                        Some(x) => Ok(Some(Val::Int(x))),
                        None => Err(Fault::Overflow),
                    }
                } else if c == '*' {
                    match a.checked_mul(b) {
                        Some(x) => Ok(Some(Val::Int(x))),
                        None => Err(Fault::Overflow),
                    }
                } else if c == '/' {
                    if a == 0 {
                        Err(Fault::DivisionByZero)
                    } else {
                        match b.checked_div(a) {
                            Some(x) => Ok(Some(Val::Int(x))),
                            None => Err(Fault::Overflow),
                        }
                    }
                } else if c == '>' {
                    Ok(Some(Val::Int(if b > a { 1 } else { 0 })))
                } else {
                    Ok(Some(Val::Int(if b < a { 1 } else { 0 })))
                },
                _ => Err(Fault::NotAnInteger),
            }
        } else {
            Ok(None)
        },
        None => Ok(None),
    }
}

/// An operator: pops two values and pushes what the operator computes.
pub open spec fn spec_opr(op: Seq<char>, m: Machine) -> Result<Machine, Fault> {
    match pop(m) {
        Err(e) => Err(e),
        Ok((op1, m1)) => match pop(m1) {
            Err(e) => Err(e),
            Ok((op2, m2)) => match spec_operate(op, op1, op2) {
                Err(e) => Err(e),
                Ok(Some(v)) => Ok(push(m2, v)),
                Ok(None) => Ok(m2),
            },
        },
    }
}

/// A capture `(a b ...)`: pops one value per name, the last name taking
/// the top of the stack, so that the names take the values in the order in
/// which they were pushed.
pub open spec fn spec_assign(names: Seq<Seq<char>>, m: Machine) -> Result<Machine, Fault>
    decreases names.len(),
{
    if names.len() == 0 {
        Ok(m)
    } else {
        match pop(m) {
            Err(e) => Err(e),
            Ok((v, m1)) => spec_assign(names.drop_last(), bind(m1, names.last(), v)),
        }
    }
}

/// Evaluates one value.
pub open spec fn spec_eval(item: Val, m: Machine, fuel: nat) -> Result<Machine, Fault>
    decreases fuel, 4nat,
{
    match item {
        Val::Str(_) => Ok(push(m, item)),
        Val::Tkn(_) => Ok(push(m, item)),
        Val::Int(_) => Ok(push(m, item)),
        Val::Lst(_) => Ok(push(m, item)),
        Val::Opr(op) => spec_opr(op, m),
        Val::Ass(names) => spec_assign(names, m),
        Val::Var(k) => spec_var(k, m, fuel),
        Val::Cmd(c) => spec_cmd(c, m, fuel),
        Val::Fct(code) => spec_call(code, m, fuel),
        Val::Spc => Ok(m),
        Val::Bool(_) => Ok(push(m, item)),
        Val::Tup(_) => Ok(push(m, item)),
    }
}

/// A variable: pushes its value, or runs it when it is a procedure; an
/// unbound name does nothing.
pub open spec fn spec_var(k: Seq<char>, m: Machine, fuel: nat) -> Result<Machine, Fault>
    decreases fuel, 3nat,
{
    if m.env.contains_key(k) {
        match m.env[k] {
            Val::Fct(code) => spec_call(code, m, fuel),
            v => Ok(push(m, v)),
        }
    } else {
        Ok(m)
    }
}

/// Runs code with one unit less of the depth budget.
pub open spec fn spec_call(code: Seq<Val>, m: Machine, fuel: nat) -> Result<Machine, Fault>
    decreases fuel, 0nat,
{
    if fuel == 0 {
        Err(Fault::DepthExhausted)
    } else {
        spec_run(code, m, (fuel - 1) as nat)
    }
}

/// Runs code if it is a list; any other value does nothing.
pub open spec fn spec_call_list(v: Val, m: Machine, fuel: nat) -> Result<Machine, Fault>
    decreases fuel, 1nat,
{
    match v {
        Val::Lst(code) => spec_call(code, m, fuel),
        _ => Ok(m),
    }
}

/// Evaluates each value of the code in turn.
pub open spec fn spec_run(code: Seq<Val>, m: Machine, fuel: nat) -> Result<Machine, Fault>
    decreases fuel, code.len() + 5,
{
    if code.len() == 0 {
        Ok(m)
    } else {
        match spec_eval(code[0], m, fuel) {
            Err(e) => Err(e),
            Ok(m1) => spec_run(code.drop_first(), m1, fuel),
        }
    }
}

/// Whether a test's result counts as true: the integer 1 or `#t`.
pub open spec fn is_true(v: Val) -> bool {
    v == Val::Int(1) || v == Val::Bool(true)
}

/// `if`: pops the branch, then the test; runs the test, pops its result,
/// and runs the branch when the result is true (the integer 1 or `#t`).
pub open spec fn spec_if(m: Machine, fuel: nat) -> Result<Machine, Fault>
    decreases fuel, 2nat,
{
    match pop(m) {
        Err(e) => Err(e),
        Ok((then, m1)) => match pop(m1) {
            Err(e) => Err(e),
            Ok((test, m2)) => match spec_call_list(test, m2, fuel) {
                Err(e) => Err(e),
                Ok(m3) => match pop(m3) {
                    Err(e) => Err(e),
                    Ok((res, m4)) => if is_true(res) {
                        spec_call_list(then, m4, fuel)
                    } else {
                        Ok(m4)
                    },
                },
            },
        },
    }
}

/// `ifelse`: pops the else branch, the then branch and the test; runs the
/// test, pops its result, and runs the then branch when the result is true
/// (the integer 1 or `#t`), else the else branch.
pub open spec fn spec_ifelse(m: Machine, fuel: nat) -> Result<Machine, Fault>
    decreases fuel, 2nat,
{
    match pop(m) {
        Err(e) => Err(e),
        Ok((other, m0)) => match pop(m0) {
            Err(e) => Err(e),
            Ok((then, m1)) => match pop(m1) {
                Err(e) => Err(e),
                Ok((test, m2)) => match spec_call_list(test, m2, fuel) {
                    Err(e) => Err(e),
                    Ok(m3) => match pop(m3) {
                        Err(e) => Err(e),
                        Ok((res, m4)) => if is_true(res) {
                            spec_call_list(then, m4, fuel)
                        } else {
                            spec_call_list(other, m4, fuel)
                        },
                    },
                },
            },
        },
    }
}

/// The rounds of `map` from the state `m` on, with the results `acc` so
/// far: each round pushes the next element, runs the procedure `f` (when
/// it is a list), and pops the result into `acc`; after the last element
/// the list of results is pushed.  Each round spends one unit of the
/// budget.
pub open spec fn spec_map(f: Val, items: Seq<Val>, acc: Seq<Val>, m: Machine, fuel: nat) -> Result<
    Machine,
    Fault,
>
    decreases fuel, 0nat,
{
    if items.len() == 0 {
        Ok(push(m, Val::Lst(acc)))
    } else if fuel == 0 {
        Err(Fault::DepthExhausted)
    } else {
        let g = (fuel - 1) as nat;
        let r1 = match f {
            Val::Lst(code) => spec_run(code, push(m, items[0]), g),
            _ => Ok(push(m, items[0])),
        };
        match r1 {
            Err(e) => Err(e),
            Ok(m1) => match pop(m1) {
                Err(e) => Err(e),
                Ok((res, m2)) => spec_map(f, items.drop_first(), acc.push(res), m2, g),
            },
        }
    }
}

/// The number of elements of a list, or of characters of a string, as a
/// value.
pub open spec fn spec_len(v: Val) -> Result<Val, Fault> {
    let n = match v {
        Val::Lst(items) => Some(items.len()),
        Val::Str(t) => Some(t.len()),
        _ => None,
    };
    match n {
        Some(k) => if k <= i32::MAX {
            Ok(Val::Int(k as i32))
        } else {
            Err(Fault::Overflow)
        },
        None => Err(Fault::NotAList),
    }
}

/// The join of two lists, two strings or two symbols (`a` first).
pub open spec fn spec_cat(a: Val, b: Val) -> Result<Val, Fault> {
    match (a, b) {
        (Val::Lst(x), Val::Lst(y)) => Ok(Val::Lst(x + y)),
        (Val::Str(x), Val::Str(y)) => Ok(Val::Str(x + y)),
        (Val::Tkn(x), Val::Tkn(y)) => Ok(Val::Tkn(x + y)),
        _ => Err(Fault::NotAList),
    }
}

/// The commands that rearrange the stack or take lists apart, without
/// running code: `dup`, `swap`, `first`, `rest`, `cat`, `len`.
pub open spec fn spec_stack_cmd(c: AoKeyword, m: Machine) -> Result<Machine, Fault> {
    match pop(m) {
        Err(e) => Err(e),
        Ok((a, m1)) => match c {
            AoKeyword::Dup => Ok(push(push(m1, a), a)),
            AoKeyword::First => match a {
                Val::Lst(items) => if items.len() > 0 {
                    Ok(push(m1, items[0]))
                } else {
                    Err(Fault::EmptyList)
                },
                _ => Err(Fault::NotAList),
            },
            AoKeyword::Rest => match a {
                Val::Lst(items) => if items.len() > 0 {
                    Ok(push(m1, Val::Lst(items.drop_first())))
                } else {
                    Ok(push(m1, Val::Lst(items)))
                },
                _ => Err(Fault::NotAList),
            },
            AoKeyword::Len => match spec_len(a) {
                Ok(v) => Ok(push(m1, v)),
                Err(e) => Err(e),
            },
            _ => match pop(m1) {
                Err(e) => Err(e),
                Ok((b, m2)) => if c == AoKeyword::Swap {
                    Ok(push(push(m2, a), b))
                } else {
                    match spec_cat(b, a) {
                        Ok(v) => Ok(push(m2, v)),
                        Err(e) => Err(e),
                    }
                },
            },
        },
    }
}

/// The rounds of `while` from the state `m` on: run the test, pop its
/// result; on the integer 1 or `#t` run the body and go on, on another
/// integer or `#f` stop, on a value of another kind go on.  Each round spends one
/// unit of the budget.
pub open spec fn spec_while(test: Val, body: Val, m: Machine, fuel: nat) -> Result<Machine, Fault>
    decreases fuel, 0nat,
{
    if fuel == 0 {
        Err(Fault::DepthExhausted)
    } else {
        let f = (fuel - 1) as nat;
        let r1 = match test {
            Val::Lst(code) => spec_run(code, m, f),
            _ => Ok(m),
        };
        match r1 {
            Err(e) => Err(e),
            Ok(m1) => match pop(m1) {
                Err(e) => Err(e),
                Ok((res, m2)) => match res {
                    Val::Int(_) | Val::Bool(_) => if is_true(res) {
                        let r2 = match body {
                            Val::Lst(code) => spec_run(code, m2, f),
                            _ => Ok(m2),
                        };
                        match r2 {
                            Err(e) => Err(e),
                            Ok(m3) => spec_while(test, body, m3, f),
                        }
                    } else {
                        Ok(m2)
                    },
                    _ => spec_while(test, body, m2, f),
                },
            },
        }
    }
}

/// `def`: pops a name (a symbol or a variable) and a body; binds the name to
/// the body as a procedure.  A body that is not a list stops the program;
/// a name of another kind does nothing.
pub open spec fn spec_def(m: Machine) -> Result<Machine, Fault> {
    match pop(m) {
        Err(e) => Err(e),
        Ok((lvar, m1)) => match pop(m1) {
            Err(e) => Err(e),
            Ok((lcorps, m2)) => match lvar {
                Val::Tkn(lv) => match lcorps {
                    Val::Lst(body) => Ok(bind(m2, lv, Val::Fct(body))),
                    _ => Err(Fault::NotAList),
                },
                Val::Var(lv) => match lcorps {
                    Val::Lst(body) => Ok(bind(m2, lv, Val::Fct(body))),
                    _ => Err(Fault::NotAList),
                },
                _ => Ok(m2),
            },
        },
    }
}

/// A command.
pub open spec fn spec_cmd(c: AoKeyword, m: Machine, fuel: nat) -> Result<Machine, Fault>
    decreases fuel, 3nat,
{
    match c {
        AoKeyword::Eval => match pop(m) {
            Err(e) => Err(e),
            Ok((v, m1)) => spec_call_list(v, m1, fuel),
        },
        AoKeyword::If => spec_if(m, fuel),
        AoKeyword::While => match pop(m) {
            Err(e) => Err(e),
            Ok((corps, m1)) => match pop(m1) {
                Err(e) => Err(e),
                Ok((test, m2)) => spec_while(test, corps, m2, fuel),
            },
        },
        AoKeyword::Def => spec_def(m),
        AoKeyword::IfElse => spec_ifelse(m, fuel),
        AoKeyword::PrintNl => match pop(m) {
            Err(e) => Err(e),
            Ok((v, m1)) => Ok(emit(m1, printed(v))),
        },
        AoKeyword::MapOver => match pop(m) {
            Err(e) => Err(e),
            Ok((f, m1)) => match pop(m1) {
                Err(e) => Err(e),
                Ok((l, m2)) => match l {
                    Val::Lst(items) => spec_map(f, items, Seq::empty(), m2, fuel),
                    _ => Err(Fault::NotAList),
                },
            },
        },
        _ => spec_stack_cmd(c, m),
    }
}

/// What running a program text does: the text is read first; a text that
/// cannot be read does nothing, a reading that stops stops the program,
/// and otherwise the values read are evaluated in turn.
pub open spec fn spec_interp(code: Seq<char>, m: Machine) -> Result<Machine, Fault> {
    match lex_program(code) {
        Scan::Found(_, (items, _)) => spec_run(items, m, DEPTH as nat),
        Scan::Miss => Ok(m),
        Scan::Stop(e) => Err(e),
    }
}

/// How an executable run relates to the model: on success the new state is
/// the model's, on a fault the fault is the model's.
pub open spec fn outcome(r: Result<(), Fault>, after: Machine, sp: Result<Machine, Fault>) -> bool {
    match r {
        Ok(()) => sp == Ok::<Machine, Fault>(after),
        Err(e) => sp == Err::<Machine, Fault>(e),
    }
}


/// Pops the top of the stack.
fn pop_top(env: &StringHashMap<AoType>, out: &Vec<String>, st: &mut Vec<AoType>) -> (r: Result<AoType, Fault>)
    ensures
        match pop(model(*env, *old(st), *out)) {
            Err(e) => r matches Err(e2) && e2 == e && final(st)@ == old(st)@,
            Ok((v, m1)) => r matches Ok(t) && t.value() == v && model(*env, *final(st), *out) == m1,
        },
{
    proof {
        if old(st)@.len() > 0 {
            lemma_values_drop_last(old(st)@);
        }
        crate::value::lemma_values(old(st)@);
    }
    match st.pop() {
        Some(t) => Ok(t),
        None => Err(Fault::StackUnderflow),
    }
}

/// Pushes a value.
fn push_value(env: &StringHashMap<AoType>, out: &Vec<String>, st: &mut Vec<AoType>, t: AoType)
    ensures
        model(*env, *final(st), *out) == push(model(*env, *old(st), *out), t.value()),
{
    proof {
        lemma_values_push(old(st)@, t);
    }
    st.push(t);
}

/// The single character of a text, if it has exactly one.
fn single_char(op: &String) -> (r: Option<char>)
    ensures
        r == op_char(op@),
{
    let s = op.as_str();
    if s.unicode_len() == 1 {
        Some(s.get_char(0))
    } else {
        None
    }
}

/// The two characters of a text, if it has exactly two.
fn char_pair(op: &String) -> (r: Option<(char, char)>)
    ensures
        r == op_pair(op@),
{
    let s = op.as_str();
    if s.unicode_len() == 2 {
        Some((s.get_char(0), s.get_char(1)))
    } else {
        None
    }
}

fn exec_opr(op: &String, env: &StringHashMap<AoType>, out: &Vec<String>, st: &mut Vec<AoType>) -> (r: Result<(), Fault>)
    ensures
        outcome(r, model(*env, *final(st), *out), spec_opr(op@, model(*env, *old(st), *out))),
{
    let op1 = match pop_top(env, out, st) {
        Ok(v) => v,
        Err(e) => return Err(e),
    };
    let op2 = match pop_top(env, out, st) {
        Ok(v) => v,
        Err(e) => return Err(e),
    };
    match char_pair(op) {
        Some((x, y)) => {
            if y == '=' && (x == '<' || x == '>' || x == '=' || x == '!') {
                let (a, b) = match (&op1, &op2) {
                    (AoType::Int(a), AoType::Int(b)) => (**a, **b),
                    _ => return Err(Fault::NotAnInteger),
                };
                let holds = if x == '<' {
                    b <= a
                } else if x == '>' {
                    b >= a
                } else if x == '=' {
                    b == a
                } else {
                    b != a
                };
                let v: i32 = if holds { 1 } else { 0 };
                push_value(env, out, st, AoType::Int(Box::new(v)));
                return Ok(());
            } else {
                return Ok(());
            }
        },
        None => {},
    }
    let c = match single_char(op) {
        Some(c) => c,
        None => return Ok(()),
    };
    if !(c == '+' || c == '-' || c == '*' || c == '/' || c == '>' || c == '<') {
        return Ok(());
    }
    let (a, b) = match (&op1, &op2) {
        (AoType::Int(a), AoType::Int(b)) => (**a, **b),
        _ => return Err(Fault::NotAnInteger),
    };
    let v = if c == '+' {
        if a.checked_add(b).is_none() {
            return Err(Fault::Overflow);
        }
        crate::arith::add(op1, op2)
    } else if c == '-' {
        if b.checked_sub(a).is_none() {
            return Err(Fault::Overflow);
        }
        crate::arith::sub(op1, op2)
    } else if c == '*' {
        if a.checked_mul(b).is_none() {
            return Err(Fault::Overflow);
        }
        crate::arith::mul(op1, op2)
    } else if c == '/' {
        if a == 0 {
            return Err(Fault::DivisionByZero);
        }
        if b.checked_div(a).is_none() {
            return Err(Fault::Overflow);
        }
        div(op1, op2)
    } else if c == '>' {
        sup(op1, op2)
    } else {
        inf(op1, op2)
    };
    push_value(env, out, st, v);
    Ok(())
}

fn exec_assign(names: &Vec<Box<String>>, env: &mut StringHashMap<AoType>, st: &mut Vec<AoType>, out: &mut Vec<String>) -> (r:
    Result<(), Fault>)
    ensures
        outcome(
            r,
            model(*final(env), *final(st), *final(out)),
            spec_assign(names.deep_view(), model(*old(env), *old(st), *old(out))),
        ),
{
    let ghost all = names.deep_view();
    let ghost target = spec_assign(all, model(*env, *st, *out));
    let mut i: usize = names.len();
    assert(all.take(i as int) =~= all);
    while i > 0
        invariant
            i <= names@.len(),
            all == names.deep_view(),
            spec_assign(all.take(i as int), model(*env, *st, *out)) == target,
            target == spec_assign(names.deep_view(), model(*old(env), *old(st), *old(out))),
        decreases i,
    {
        let v = match pop_top(env, out, st) {
            Ok(v) => v,
            Err(e) => return Err(e),
        };
        let k: String = (*names[i - 1]).clone();
        let ghost old_env = env@;
        env.insert(k, v);
        proof {
            assert(all.take(i as int).last() == k@);
            assert(all.take(i as int).drop_last() =~= all.take(i - 1));
            assert(env_model(*env) =~= old_env.map_values(|t: AoType| t.value()).insert(
                k@,
                v.value(),
            ));
        }
        i -= 1;
    }
    Ok(())
}

/// Evaluates one value, with the depth budget `fuel`.
pub fn eval(lex: AoType, env: &mut StringHashMap<AoType>, st: &mut Vec<AoType>, out: &mut Vec<String>, fuel: u64) -> (r: Result<
    (),
    Fault,
>)
    ensures
        outcome(
            r,
            model(*final(env), *final(st), *final(out)),
            spec_eval(lex.value(), model(*old(env), *old(st), *old(out)), fuel as nat),
        ),
    decreases fuel, 4nat,
{
    let ghost v = lex.value();
    match lex {
        AoType::Opr(op) => exec_opr(&op, env, out, st),
        AoType::Ass(names) => exec_assign(&names, env, st, out),
        AoType::Var(k) => exec_var(&k, env, st, out, fuel),
        AoType::Cmd(c) => exec_cmd(c, env, st, out, fuel),
        AoType::Fct(code) => call_code(&code, env, st, out, fuel),
        AoType::Spc => Ok(()),
        other => {
            push_value(env, out, st, other);
            Ok(())
        },
    }
}

fn exec_var(k: &String, env: &mut StringHashMap<AoType>, st: &mut Vec<AoType>, out: &mut Vec<String>, fuel: u64) -> (r:
    Result<(), Fault>)
    ensures
        outcome(
            r,
            model(*final(env), *final(st), *final(out)),
            spec_var(k@, model(*old(env), *old(st), *old(out)), fuel as nat),
        ),
    decreases fuel, 3nat,
{
    let found: Option<AoType> = match env.get(k.as_str()) {
        Some(v) => Some(v.duplicate()),
        None => None,
    };
    match found {
        Some(t) => match t {
            AoType::Fct(code) => call_code(&code, env, st, out, fuel),
            other => {
                push_value(env, out, st, other);
                Ok(())
            },
        },
        None => Ok(()),
    }
}

/// Runs code with one unit less of the depth budget.
fn call_code(code: &Vec<AoType>, env: &mut StringHashMap<AoType>, st: &mut Vec<AoType>, out: &mut Vec<String>, fuel: u64) -> (r:
    Result<(), Fault>)
    ensures
        outcome(
            r,
            model(*final(env), *final(st), *final(out)),
            spec_call(values(code@), model(*old(env), *old(st), *old(out)), fuel as nat),
        ),
    decreases fuel, 0nat,
{
    if fuel == 0 {
        Err(Fault::DepthExhausted)
    } else {
        run_code(code, env, st, out, fuel - 1)
    }
}

/// Runs a value if it is a list.
fn call_list(v: &AoType, env: &mut StringHashMap<AoType>, st: &mut Vec<AoType>, out: &mut Vec<String>, fuel: u64) -> (r:
    Result<(), Fault>)
    ensures
        outcome(
            r,
            model(*final(env), *final(st), *final(out)),
            spec_call_list(v.value(), model(*old(env), *old(st), *old(out)), fuel as nat),
        ),
    decreases fuel, 1nat,
{
    match v {
        AoType::Lst(code) => call_code(code, env, st, out, fuel),
        _ => Ok(()),
    }
}

/// Evaluates each value of the code in turn.
fn run_code(code: &Vec<AoType>, env: &mut StringHashMap<AoType>, st: &mut Vec<AoType>, out: &mut Vec<String>, fuel: u64) -> (r:
    Result<(), Fault>)
    ensures
        outcome(
            r,
            model(*final(env), *final(st), *final(out)),
            spec_run(values(code@), model(*old(env), *old(st), *old(out)), fuel as nat),
        ),
    decreases fuel, 5nat,
{
    let ghost all = values(code@);
    let ghost target = spec_run(all, model(*env, *st, *out), fuel as nat);
    proof {
        crate::value::lemma_values(code@);
        assert(all.skip(0) =~= all);
    }
    let mut i: usize = 0;
    while i < code.len()
        invariant
            i <= code@.len(),
            all == values(code@),
            all.len() == code@.len(),
            forall|j: int| 0 <= j < code@.len() ==> #[trigger] all[j] == code@[j].value(),
            spec_run(all.skip(i as int), model(*env, *st, *out), fuel as nat) == target,
            target == spec_run(values(code@), model(*old(env), *old(st), *old(out)), fuel as nat),
        decreases code@.len() - i,
    {
        let item = code[i].duplicate();
        let r = eval(item, env, st, out, fuel);
        match r {
            Err(e) => {
                return Err(e);
            },
            Ok(()) => {},
        }
        proof {
            assert(all.skip(i as int)[0] == all[i as int]);
            assert(all.skip(i as int).drop_first() =~= all.skip(i + 1));
        }
        i += 1;
    }
    proof {
        assert(all.skip(i as int) =~= Seq::<Val>::empty());
    }
    Ok(())
}

fn exec_if(env: &mut StringHashMap<AoType>, st: &mut Vec<AoType>, out: &mut Vec<String>, fuel: u64) -> (r: Result<(), Fault>)
    ensures
        outcome(r, model(*final(env), *final(st), *final(out)), spec_if(model(*old(env), *old(st), *old(out)), fuel as nat)),
    decreases fuel, 2nat,
{
    let then = match pop_top(env, out, st) {
        Ok(v) => v,
        Err(e) => return Err(e),
    };
    let test = match pop_top(env, out, st) {
        Ok(v) => v,
        Err(e) => return Err(e),
    };
    match call_list(&test, env, st, out, fuel) {
        Ok(()) => {},
        Err(e) => return Err(e),
    }
    let res = match pop_top(env, out, st) {
        Ok(v) => v,
        Err(e) => return Err(e),
    };
    let is_one = match &res {
        AoType::Int(i) => **i == 1,
        AoType::Bool(b) => *b,
        _ => false,
    };
    if is_one {
        call_list(&then, env, st, out, fuel)
    } else {
        Ok(())
    }
}

fn exec_ifelse(env: &mut StringHashMap<AoType>, st: &mut Vec<AoType>, out: &mut Vec<String>, fuel: u64) -> (r: Result<
    (),
    Fault,
>)
    ensures
        outcome(
            r,
            model(*final(env), *final(st), *final(out)),
            spec_ifelse(model(*old(env), *old(st), *old(out)), fuel as nat),
        ),
    decreases fuel, 2nat,
{
    let other = match pop_top(env, out, st) {
        Ok(v) => v,
        Err(e) => return Err(e),
    };
    let then = match pop_top(env, out, st) {
        Ok(v) => v,
        Err(e) => return Err(e),
    };
    let test = match pop_top(env, out, st) {
        Ok(v) => v,
        Err(e) => return Err(e),
    };
    match call_list(&test, env, st, out, fuel) {
        Ok(()) => {},
        Err(e) => return Err(e),
    }
    let res = match pop_top(env, out, st) {
        Ok(v) => v,
        Err(e) => return Err(e),
    };
    let is_one = match &res {
        AoType::Int(i) => **i == 1,
        AoType::Bool(b) => *b,
        _ => false,
    };
    if is_one {
        call_list(&then, env, st, out, fuel)
    } else {
        call_list(&other, env, st, out, fuel)
    }
}

fn exec_map(
    f: &AoType,
    items: &Vec<AoType>,
    env: &mut StringHashMap<AoType>,
    st: &mut Vec<AoType>,
    out: &mut Vec<String>,
    fuel: u64,
) -> (r: Result<(), Fault>)
    ensures
        outcome(
            r,
            model(*final(env), *final(st), *final(out)),
            spec_map(f.value(), values(items@), Seq::empty(), model(*old(env), *old(st), *old(out)), fuel as nat),
        ),
    decreases fuel, 0nat,
{
    let ghost fv = f.value();
    let ghost all = values(items@);
    let ghost target = spec_map(fv, all, Seq::empty(), model(*env, *st, *out), fuel as nat);
    proof {
        crate::value::lemma_values(items@);
        assert(all.skip(0) =~= all);
    }
    let mut acc: Vec<AoType> = Vec::new();
    assert(values(acc@) =~= Seq::<Val>::empty());
    let mut n = fuel;
    let mut i: usize = 0;
    loop
        invariant
            i <= items@.len(),
            n <= fuel,
            fv == f.value(),
            all == values(items@),
            all.len() == items@.len(),
            forall|j: int| 0 <= j < items@.len() ==> #[trigger] all[j] == items@[j].value(),
            spec_map(fv, all.skip(i as int), values(acc@), model(*env, *st, *out), n as nat) == target,
            target == spec_map(
                f.value(),
                values(items@),
                Seq::empty(),
                model(*old(env), *old(st), *old(out)),
                fuel as nat,
            ),
        decreases items@.len() - i,
    {
        if i == items.len() {
            assert(all.skip(i as int) =~= Seq::<Val>::empty());
            push_value(env, out, st, AoType::Lst(acc));
            return Ok(());
        }
        if n == 0 {
            return Err(Fault::DepthExhausted);
        }
        proof {
            assert(all.skip(i as int)[0] == all[i as int]);
            assert(all.skip(i as int).drop_first() =~= all.skip(i + 1));
        }
        push_value(env, out, st, items[i].duplicate());
        let r1 = match f {
            AoType::Lst(code) => run_code(code, env, st, out, n - 1),
            _ => Ok(()),
        };
        match r1 {
            Ok(()) => {},
            Err(e) => return Err(e),
        }
        let res = match pop_top(env, out, st) {
            Ok(v) => v,
            Err(e) => return Err(e),
        };
        proof {
            lemma_values_push(acc@, res);
        }
        acc.push(res);
        i += 1;
        n -= 1;
    }
}

/// Appends copies of the values of `b` to `a`.
fn append_values(a: &mut Vec<AoType>, b: &Vec<AoType>)
    ensures
        values(final(a)@) == values(old(a)@) + values(b@),
{
    let ghost a0 = values(a@);
    proof {
        crate::value::lemma_values(b@);
        assert(values(b@).subrange(0, 0) =~= Seq::<Val>::empty());
        assert(a0 + Seq::<Val>::empty() =~= a0);
    }
    let mut i: usize = 0;
    while i < b.len()
        invariant
            i <= b@.len(),
            a0 == values(old(a)@),
            values(b@).len() == b@.len(),
            forall|j: int| 0 <= j < b@.len() ==> #[trigger] values(b@)[j] == b@[j].value(),
            values(a@) == a0 + values(b@).subrange(0, i as int),
        decreases b@.len() - i,
    {
        let t = b[i].duplicate();
        proof {
            lemma_values_push(a@, t);
        }
        a.push(t);
        assert(values(b@).subrange(0, i + 1) =~= values(b@).subrange(0, i as int).push(
            values(b@)[i as int],
        ));
        assert(values(a@) =~= a0 + values(b@).subrange(0, i + 1));
        i += 1;
    }
    assert(values(b@).subrange(0, i as int) =~= values(b@));
}

/// The join of two values, as `cat` makes it.
fn exec_cat(a: AoType, b: AoType) -> (r: Result<AoType, Fault>)
    ensures
        match spec_cat(a.value(), b.value()) {
            Ok(v) => r matches Ok(t) && t.value() == v,
            Err(e) => r == Err::<AoType, Fault>(e),
        },
{
    match (a, b) {
        (AoType::Lst(x), AoType::Lst(y)) => {
            let mut x = x;
            append_values(&mut x, &y);
            Ok(AoType::Lst(x))
        },
        (AoType::Str(x), AoType::Str(y)) => {
            let mut t: String = *x;
            t.append(y.as_str());
            Ok(AoType::Str(Box::new(t)))
        },
        (AoType::Tkn(x), AoType::Tkn(y)) => {
            let mut t: String = *x;
            t.append(y.as_str());
            Ok(AoType::Tkn(Box::new(t)))
        },
        _ => Err(Fault::NotAList),
    }
}

/// The length of a list or a string, as `len` gives it.
fn exec_len(a: &AoType) -> (r: Result<AoType, Fault>)
    ensures
        match spec_len(a.value()) {
            Ok(v) => r matches Ok(t) && t.value() == v,
            Err(e) => r == Err::<AoType, Fault>(e),
        },
{
    let n: usize = match a {
        AoType::Lst(items) => {
            proof {
                crate::value::lemma_values(items@);
            }
            items.len()
        },
        AoType::Str(t) => t.as_str().unicode_len(),
        _ => return Err(Fault::NotAList),
    };
    if n <= 0x7fff_ffff {
        Ok(AoType::Int(Box::new(n as i32)))
    } else {
        Err(Fault::Overflow)
    }
}

fn exec_stack_cmd(c: AoKeyword, env: &mut StringHashMap<AoType>, st: &mut Vec<AoType>, out: &mut Vec<String>) -> (r: Result<
    (),
    Fault,
>)
    requires
        !(c == AoKeyword::Eval || c == AoKeyword::If || c == AoKeyword::While || c == AoKeyword::Def
            || c == AoKeyword::IfElse || c == AoKeyword::MapOver || c == AoKeyword::PrintNl),
    ensures
        outcome(r, model(*final(env), *final(st), *final(out)), spec_stack_cmd(c, model(*old(env), *old(st), *old(out)))),
        *final(env) == *old(env),
{
    let a = match pop_top(env, out, st) {
        Ok(v) => v,
        Err(e) => return Err(e),
    };
    match c {
        AoKeyword::Dup => {
            let b = a.duplicate();
            push_value(env, out, st, a);
            push_value(env, out, st, b);
            Ok(())
        },
        AoKeyword::First => match a {
            AoType::Lst(items) => {
                proof {
                    crate::value::lemma_values(items@);
                }
                if items.len() > 0 {
                    push_value(env, out, st, items[0].duplicate());
                    Ok(())
                } else {
                    Err(Fault::EmptyList)
                }
            },
            _ => Err(Fault::NotAList),
        },
        AoKeyword::Rest => match a {
            AoType::Lst(items) => {
                let mut items = items;
                proof {
                    crate::value::lemma_values(items@);
                }
                if items.len() > 0 {
                    let ghost before = items@;
                    let _ = items.remove(0);
                    proof {
                        crate::value::lemma_values(items@);
                        assert(items@ =~= before.drop_first());
                        assert(values(items@) =~= values(before).drop_first());
                    }
                }
                push_value(env, out, st, AoType::Lst(items));
                Ok(())
            },
            _ => Err(Fault::NotAList),
        },
        AoKeyword::Len => match exec_len(&a) {
            Ok(v) => {
                push_value(env, out, st, v);
                Ok(())
            },
            Err(e) => Err(e),
        },
        _ => {
            let b = match pop_top(env, out, st) {
                Ok(v) => v,
                Err(e) => return Err(e),
            };
            if c == AoKeyword::Swap {
                push_value(env, out, st, a);
                push_value(env, out, st, b);
                Ok(())
            } else {
                match exec_cat(b, a) {
                    Ok(v) => {
                        push_value(env, out, st, v);
                        Ok(())
                    },
                    Err(e) => Err(e),
                }
            }
        },
    }
}

fn exec_while(
    test: &AoType,
    body: &AoType,
    env: &mut StringHashMap<AoType>,
    st: &mut Vec<AoType>,
    out: &mut Vec<String>,
    fuel: u64,
) -> (r: Result<(), Fault>)
    ensures
        outcome(
            r,
            model(*final(env), *final(st), *final(out)),
            spec_while(test.value(), body.value(), model(*old(env), *old(st), *old(out)), fuel as nat),
        ),
    decreases fuel, 0nat,
{
    let ghost tv = test.value();
    let ghost bv = body.value();
    let ghost target = spec_while(tv, bv, model(*env, *st, *out), fuel as nat);
    let mut n = fuel;
    loop
        invariant
            n <= fuel,
            tv == test.value(),
            bv == body.value(),
            spec_while(tv, bv, model(*env, *st, *out), n as nat) == target,
            target == spec_while(
                test.value(),
                body.value(),
                model(*old(env), *old(st), *old(out)),
                fuel as nat,
            ),
        decreases n,
    {
        if n == 0 {
            return Err(Fault::DepthExhausted);
        }
        let r1 = match test {
            AoType::Lst(code) => run_code(code, env, st, out, n - 1),
            _ => Ok(()),
        };
        match r1 {
            Ok(()) => {},
            Err(e) => return Err(e),
        }
        let res = match pop_top(env, out, st) {
            Ok(v) => v,
            Err(e) => return Err(e),
        };
        let decided: Option<bool> = match &res {
            AoType::Int(i) => Some(**i == 1),
            AoType::Bool(b) => Some(*b),
            _ => None,
        };
        match decided {
            Some(go) => {
                if go {
                    let r2 = match body {
                        AoType::Lst(code) => run_code(code, env, st, out, n - 1),
                        _ => Ok(()),
                    };
                    match r2 {
                        Ok(()) => {},
                        Err(e) => return Err(e),
                    }
                } else {
                    return Ok(());
                }
            },
            _ => {},
        }
        n = n - 1;
    }
}

fn exec_def(env: &mut StringHashMap<AoType>, st: &mut Vec<AoType>, out: &mut Vec<String>) -> (r: Result<(), Fault>)
    ensures
        outcome(r, model(*final(env), *final(st), *final(out)), spec_def(model(*old(env), *old(st), *old(out)))),
{
    let lvar = match pop_top(env, out, st) {
        Ok(v) => v,
        Err(e) => return Err(e),
    };
    let lcorps = match pop_top(env, out, st) {
        Ok(v) => v,
        Err(e) => return Err(e),
    };
    let name: String = match lvar {
        AoType::Tkn(lv) => *lv,
        AoType::Var(lv) => *lv,
        _ => return Ok(()),
    };
    match lcorps.to_fct() {
        Some(f) => {
            let ghost old_env = env@;
            env.insert(name, f);
            assert(env_model(*env) =~= old_env.map_values(|t: AoType| t.value()).insert(
                name@,
                f.value(),
            ));
            Ok(())
        },
        None => Err(Fault::NotAList),
    }
}

fn exec_cmd(c: AoKeyword, env: &mut StringHashMap<AoType>, st: &mut Vec<AoType>, out: &mut Vec<String>, fuel: u64) -> (r:
    Result<(), Fault>)
    ensures
        outcome(
            r,
            model(*final(env), *final(st), *final(out)),
            spec_cmd(c, model(*old(env), *old(st), *old(out)), fuel as nat),
        ),
    decreases fuel, 3nat,
{
    match c {
        AoKeyword::Eval => {
            let v = match pop_top(env, out, st) {
                Ok(v) => v,
                Err(e) => return Err(e),
            };
            call_list(&v, env, st, out, fuel)
        },
        AoKeyword::If => exec_if(env, st, out, fuel),
        AoKeyword::While => {
            let corps = match pop_top(env, out, st) {
                Ok(v) => v,
                Err(e) => return Err(e),
            };
            let test = match pop_top(env, out, st) {
                Ok(v) => v,
                Err(e) => return Err(e),
            };
            exec_while(&test, &corps, env, st, out, fuel)
        },
        AoKeyword::Def => exec_def(env, st, out),
        AoKeyword::IfElse => exec_ifelse(env, st, out, fuel),
        AoKeyword::PrintNl => {
            let v = match pop_top(env, out, st) {
                Ok(v) => v,
                Err(e) => return Err(e),
            };
            let line = print_line(&v);
            let ghost before = out.deep_view();
            out.push(line);
            assert(out.deep_view() =~= before.push(line@));
            Ok(())
        },
        AoKeyword::MapOver => {
            let f = match pop_top(env, out, st) {
                Ok(v) => v,
                Err(e) => return Err(e),
            };
            let l = match pop_top(env, out, st) {
                Ok(v) => v,
                Err(e) => return Err(e),
            };
            match l {
                AoType::Lst(items) => exec_map(&f, &items, env, st, out, fuel),
                _ => Err(Fault::NotAList),
            }
        },
        _ => exec_stack_cmd(c, env, st, out),
    }
}

/// How an executable run that keeps no printed lines relates to the model:
/// on success the variables and the stack are the model's, on a fault the
/// fault is the model's.
pub open spec fn outcome_state(
    r: Result<(), Fault>,
    env: StringHashMap<AoType>,
    st: Vec<AoType>,
    sp: Result<Machine, Fault>,
) -> bool {
    match r {
        Ok(()) => sp matches Ok(m) && m.env == env_model(env) && m.stack == values(st@),
        Err(e) => sp == Err::<Machine, Fault>(e),
    }
}

/// Evaluates each value of `code` in turn, with the full depth budget,
/// adding the lines printed to `out`.
pub fn run_values(
    code: &Vec<AoType>,
    env: &mut StringHashMap<AoType>,
    st: &mut Vec<AoType>,
    out: &mut Vec<String>,
) -> (r: Result<(), Fault>)
    ensures
        outcome(
            r,
            model(*final(env), *final(st), *final(out)),
            spec_run(values(code@), model(*old(env), *old(st), *old(out)), DEPTH as nat),
        ),
{
    run_code(code, env, st, out, DEPTH)
}

/// Evaluates each value of `code` in turn, with the full depth budget; the
/// lines printed are not kept.
pub fn interp_ao_type(code: &Vec<AoType>, env: &mut StringHashMap<AoType>, st: &mut Vec<AoType>) -> (r:
    Result<(), Fault>)
    ensures
        outcome_state(
            r,
            *final(env),
            *final(st),
            spec_run(values(code@), fresh(*old(env), *old(st)), DEPTH as nat),
        ),
{
    let mut out: Vec<String> = Vec::new();
    assert(out.deep_view() =~= Seq::<Seq<char>>::empty());
    run_values(code, env, st, &mut out)
}

/// Reads the program text `code` and evaluates the values read, in turn,
/// adding the lines printed to `out`.  When the text cannot be read,
/// nothing is evaluated and the state is left as it was.
pub fn run_program(
    code: &str,
    env: &mut StringHashMap<AoType>,
    st: &mut Vec<AoType>,
    out: &mut Vec<String>,
) -> (r: Result<(), Fault>)
    ensures
        outcome(
            r,
            model(*final(env), *final(st), *final(out)),
            spec_interp(code@, model(*old(env), *old(st), *old(out))),
        ),
        !(lex_program(code@) is Found) ==> *final(env) == *old(env) && *final(st) == *old(st)
            && *final(out) == *old(out),
{
    let cs = chars_of(code);
    match ao_seq(code, &cs, 0) {
        Err(e) => Err(e),
        Ok(None) => Ok(()),
        Ok(Some((_, (items, _)))) => run_code(&items, env, st, out, DEPTH),
    }
}

/// Reads the program text `code` and evaluates the values read, in turn;
/// the lines printed are not kept.  When the text cannot be read, nothing
/// is evaluated and the state is left as it was.
pub fn interp(code: &str, env: &mut StringHashMap<AoType>, st: &mut Vec<AoType>) -> (r: Result<
    (),
    Fault,
>)
    ensures
        outcome_state(
            r,
            *final(env),
            *final(st),
            spec_interp(code@, fresh(*old(env), *old(st))),
        ),
        !(lex_program(code@) is Found) ==> *final(env) == *old(env) && *final(st) == *old(st),
{
    let mut out: Vec<String> = Vec::new();
    assert(out.deep_view() =~= Seq::<Seq<char>>::empty());
    run_program(code, env, st, &mut out)
}

/// Runs a program text against the given state; what the editor's "run"
/// key does.
pub fn call_interp(code: &str, env: &mut StringHashMap<AoType>, st: &mut Vec<AoType>) -> (r: Result<
    (),
    Fault,
>)
    ensures
        outcome_state(
            r,
            *final(env),
            *final(st),
            spec_interp(code@, fresh(*old(env), *old(st))),
        ),
        !(lex_program(code@) is Found) ==> *final(env) == *old(env) && *final(st) == *old(st),
{
    interp(code, env, st)
}

} // verus!
