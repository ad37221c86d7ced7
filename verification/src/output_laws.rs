//! Laws on the lines that a run prints: they never steer the run.
use vstd::prelude::*;
use crate::value::{AoKeyword, Fault, Val};
use crate::machine::{Machine, spec_run, spec_eval, spec_assign, spec_call, spec_call_list, spec_var,
    spec_if, spec_ifelse, spec_map, spec_while, spec_cmd, spec_def, spec_opr, spec_stack_cmd, push,
    pop, bind, emit};
use crate::laws::law_run_concat;

verus! {

/// A machine with the lines `o` printed before its own.
pub open spec fn add_out(m: Machine, o: Seq<Seq<char>>) -> Machine {
    Machine { env: m.env, stack: m.stack, out: o + m.out }
}

/// A result with the lines `o` printed before its own; a fault stays.
pub open spec fn prefix_out(r: Result<Machine, Fault>, o: Seq<Seq<char>>) -> Result<Machine, Fault> {
    match r {
        Ok(m) => Ok(add_out(m, o)),
        Err(e) => Err(e),
    }
}

/// The same variables and stack, with no line printed.
pub open spec fn quiet(m: Machine) -> Machine {
    Machine { env: m.env, stack: m.stack, out: Seq::empty() }
}

proof fn lemma_out_ops(o: Seq<Seq<char>>)
    ensures
        forall|m: Machine|
            #[trigger] pop(add_out(m, o)) == match pop(m) {
                Ok((v, m1)) => Ok::<(Val, Machine), Fault>((v, add_out(m1, o))),
                Err(e) => Err(e),
            },
        forall|m: Machine, v: Val| #[trigger] push(add_out(m, o), v) == add_out(push(m, v), o),
        forall|m: Machine, k: Seq<char>, v: Val| #[trigger]
            bind(add_out(m, o), k, v) == add_out(bind(m, k, v), o),
        forall|m: Machine, l: Seq<char>| #[trigger] emit(add_out(m, o), l) == add_out(emit(m, l), o),
{
    assert forall|m: Machine, l: Seq<char>| #[trigger] emit(add_out(m, o), l) == add_out(
        emit(m, l),
        o,
    ) by {
        assert((o + m.out).push(l) =~= o + m.out.push(l));
    }
}

proof fn lemma_assign_out(names: Seq<Seq<char>>, m: Machine, o: Seq<Seq<char>>)
    ensures
        spec_assign(names, add_out(m, o)) == prefix_out(spec_assign(names, m), o),
    decreases names.len(),
{
    lemma_out_ops(o);
    if names.len() > 0 {
        if let Ok((v, m1)) = pop(m) {
            lemma_assign_out(names.drop_last(), bind(m1, names.last(), v), o);
        }
    }
}

proof fn lemma_simple_out(c: AoKeyword, m: Machine, o: Seq<Seq<char>>)
    ensures
        spec_def(add_out(m, o)) == prefix_out(spec_def(m), o),
        spec_stack_cmd(c, add_out(m, o)) == prefix_out(spec_stack_cmd(c, m), o),
        forall|op: Seq<char>| #[trigger] spec_opr(op, add_out(m, o)) == prefix_out(spec_opr(op, m), o),
{
    lemma_out_ops(o);
}

proof fn lemma_run_out(code: Seq<Val>, m: Machine, o: Seq<Seq<char>>, fuel: nat)
    ensures
        spec_run(code, add_out(m, o), fuel) == prefix_out(spec_run(code, m, fuel), o),
    decreases fuel, code.len() + 5,
{
    if code.len() > 0 {
        lemma_eval_out(code[0], m, o, fuel);
        if let Ok(m1) = spec_eval(code[0], m, fuel) {
            lemma_run_out(code.drop_first(), m1, o, fuel);
        }
    }
}

proof fn lemma_eval_out(item: Val, m: Machine, o: Seq<Seq<char>>, fuel: nat)
    ensures
        spec_eval(item, add_out(m, o), fuel) == prefix_out(spec_eval(item, m, fuel), o),
    decreases fuel, 4nat,
{
    lemma_out_ops(o);
    match item {
        Val::Opr(_) => lemma_simple_out(AoKeyword::Dup, m, o),
        Val::Ass(names) => lemma_assign_out(names, m, o),
        Val::Var(k) => lemma_var_out(k, m, o, fuel),
        Val::Cmd(c) => lemma_cmd_out(c, m, o, fuel),
        Val::Fct(code) => lemma_call_out(code, m, o, fuel),
        _ => {},
    }
}

proof fn lemma_var_out(k: Seq<char>, m: Machine, o: Seq<Seq<char>>, fuel: nat)
    ensures
        spec_var(k, add_out(m, o), fuel) == prefix_out(spec_var(k, m, fuel), o),
    decreases fuel, 3nat,
{
    lemma_out_ops(o);
    if m.env.contains_key(k) {
        if let Val::Fct(code) = m.env[k] {
            lemma_call_out(code, m, o, fuel);
        }
    }
}

proof fn lemma_call_out(code: Seq<Val>, m: Machine, o: Seq<Seq<char>>, fuel: nat)
    ensures
        spec_call(code, add_out(m, o), fuel) == prefix_out(spec_call(code, m, fuel), o),
    decreases fuel, 0nat,
{
    if fuel > 0 {
        lemma_run_out(code, m, o, (fuel - 1) as nat);
    }
}

proof fn lemma_call_list_out(v: Val, m: Machine, o: Seq<Seq<char>>, fuel: nat)
    ensures
        spec_call_list(v, add_out(m, o), fuel) == prefix_out(spec_call_list(v, m, fuel), o),
    decreases fuel, 1nat,
{
    if let Val::Lst(code) = v {
        lemma_call_out(code, m, o, fuel);
    }
}

proof fn lemma_if_out(m: Machine, o: Seq<Seq<char>>, fuel: nat)
    ensures
        spec_if(add_out(m, o), fuel) == prefix_out(spec_if(m, fuel), o),
        spec_ifelse(add_out(m, o), fuel) == prefix_out(spec_ifelse(m, fuel), o),
    decreases fuel, 2nat,
{
    lemma_out_ops(o);
    if let Ok((then, m1)) = pop(m) {
        if let Ok((test, m2)) = pop(m1) {
            lemma_call_list_out(test, m2, o, fuel);
            if let Ok(m3) = spec_call_list(test, m2, fuel) {
                if let Ok((res, m4)) = pop(m3) {
                    lemma_call_list_out(then, m4, o, fuel);
                }
            }
        }
    }
    if let Ok((other, m0)) = pop(m) {
        if let Ok((then, m1)) = pop(m0) {
            if let Ok((test, m2)) = pop(m1) {
                lemma_call_list_out(test, m2, o, fuel);
                if let Ok(m3) = spec_call_list(test, m2, fuel) {
                    if let Ok((res, m4)) = pop(m3) {
                        lemma_call_list_out(then, m4, o, fuel);
                        lemma_call_list_out(other, m4, o, fuel);
                    }
                }
            }
        }
    }
}

proof fn lemma_while_out(test: Val, body: Val, m: Machine, o: Seq<Seq<char>>, fuel: nat)
    ensures
        spec_while(test, body, add_out(m, o), fuel) == prefix_out(spec_while(test, body, m, fuel), o),
    decreases fuel, 0nat,
{
    lemma_out_ops(o);
    if fuel > 0 {
        let f = (fuel - 1) as nat;
        let r1 = match test {
            Val::Lst(code) => spec_run(code, m, f),
            _ => Ok(m),
        };
        if let Val::Lst(code) = test {
            lemma_run_out(code, m, o, f);
        }
        if let Ok(m1) = r1 {
            if let Ok((res, m2)) = pop(m1) {
                let r2 = match body {
                    Val::Lst(code) => spec_run(code, m2, f),
                    _ => Ok(m2),
                };
                if let Val::Lst(code) = body {
                    lemma_run_out(code, m2, o, f);
                }
                if let Ok(m3) = r2 {
                    lemma_while_out(test, body, m3, o, f);
                }
                lemma_while_out(test, body, m2, o, f);
            }
        }
    }
}

proof fn lemma_map_out(
    fv: Val,
    items: Seq<Val>,
    acc: Seq<Val>,
    m: Machine,
    o: Seq<Seq<char>>,
    fuel: nat,
)
    ensures
        spec_map(fv, items, acc, add_out(m, o), fuel) == prefix_out(
            spec_map(fv, items, acc, m, fuel),
            o,
        ),
    decreases fuel, 0nat,
{
    lemma_out_ops(o);
    if items.len() > 0 && fuel > 0 {
        let f = (fuel - 1) as nat;
        let m0 = push(m, items[0]);
        let r1 = match fv {
            Val::Lst(code) => spec_run(code, m0, f),
            _ => Ok(m0),
        };
        if let Val::Lst(code) = fv {
            lemma_run_out(code, m0, o, f);
        }
        if let Ok(m1) = r1 {
            if let Ok((res, m2)) = pop(m1) {
                lemma_map_out(fv, items.drop_first(), acc.push(res), m2, o, f);
            }
        }
    }
}

proof fn lemma_cmd_out(c: AoKeyword, m: Machine, o: Seq<Seq<char>>, fuel: nat)
    ensures
        spec_cmd(c, add_out(m, o), fuel) == prefix_out(spec_cmd(c, m, fuel), o),
    decreases fuel, 3nat,
{
    lemma_out_ops(o);
    lemma_simple_out(c, m, o);
    match c {
        AoKeyword::Eval => {
            if let Ok((v, m1)) = pop(m) {
                lemma_call_list_out(v, m1, o, fuel);
            }
        },
        AoKeyword::If => lemma_if_out(m, o, fuel),
        AoKeyword::IfElse => lemma_if_out(m, o, fuel),
        AoKeyword::While => {
            if let Ok((corps, m1)) = pop(m) {
                if let Ok((test, m2)) = pop(m1) {
                    lemma_while_out(test, corps, m2, o, fuel);
                }
            }
        },
        AoKeyword::MapOver => {
            if let Ok((fv, m1)) = pop(m) {
                if let Ok((l, m2)) = pop(m1) {
                    if let Val::Lst(items) = l {
                        lemma_map_out(fv, items, Seq::empty(), m2, o, fuel);
                    }
                }
            }
        },
        _ => {},
    }
}

/// The variables and the stack after a run do not depend on the lines
/// printed before it: running code from a machine gives what running it from
/// the same variables and stack with no line printed gives, with the earlier
/// lines kept in front of the new ones; and a fault is the same fault.
pub proof fn law_run_ignores_printed(code: Seq<Val>, m: Machine, fuel: nat)
    ensures
        spec_run(code, m, fuel) == prefix_out(spec_run(code, quiet(m), fuel), m.out),
{
    lemma_run_out(code, quiet(m), m.out, fuel);
    assert(m.out + Seq::<Seq<char>>::empty() =~= m.out);
    assert(add_out(quiet(m), m.out) == m);
}

/// Two runs chain into one: running `a + b` is running `a`, and then `b`
/// from the variables and the stack that `a` left, with no line printed;
/// the lines that `a` printed come first.  A fault of `a` is the fault of
/// the whole.
pub proof fn law_runs_chain(a: Seq<Val>, b: Seq<Val>, m: Machine, fuel: nat)
    ensures
        spec_run(a + b, m, fuel) == match spec_run(a, m, fuel) {
            Ok(m1) => prefix_out(spec_run(b, quiet(m1), fuel), m1.out),
            Err(e) => Err(e),
        },
{
    law_run_concat(a, b, m, fuel);
    if let Ok(m1) = spec_run(a, m, fuel) {
        law_run_ignores_printed(b, m1, fuel);
    }
}

} // verus!
