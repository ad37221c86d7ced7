//! Laws of the language that relate several evaluations.
use vstd::prelude::*;
use crate::value::{Fault, Val};
use crate::lexer::{lex_all, lex_int, lex_seq, lemma_span, in_class, span, CharClass, Scan};
use crate::machine::{Machine, spec_run, spec_eval, spec_assign, spec_call, spec_call_list, spec_var,
    spec_if, spec_ifelse, spec_map, spec_while, spec_cmd, spec_def, push, pop, bind};
use crate::value::AoKeyword;

verus! {

/// Whether an evaluation ended otherwise than by running out of the depth
/// budget.
pub open spec fn settled(r: Result<Machine, Fault>) -> bool {
    r != Err::<Machine, Fault>(Fault::DepthExhausted)
}

/// Running the code `a + b` is running `a`, then `b` from where `a` left
/// the state; a fault in `a` is the fault of the whole.
pub proof fn law_run_concat(a: Seq<Val>, b: Seq<Val>, m: Machine, fuel: nat)
    ensures
        spec_run(a + b, m, fuel) == match spec_run(a, m, fuel) {
            Ok(m1) => spec_run(b, m1, fuel),
            Err(e) => Err(e),
        },
    decreases a.len(),
{
    if a.len() == 0 {
        assert(a + b =~= b);
    } else {
        assert((a + b)[0] == a[0]);
        assert((a + b).drop_first() =~= a.drop_first() + b);
        match spec_eval(a[0], m, fuel) {
            Ok(m1) => law_run_concat(a.drop_first(), b, m1, fuel),
            Err(_) => {},
        }
    }
}

/// Capturing the top of the stack in a variable and then reading the
/// variable gives the value back: `(k) $k` binds `k` to the value and
/// leaves it on the stack.  (A procedure value is run instead of pushed.)
pub proof fn law_capture_then_read(k: Seq<char>, v: Val, m: Machine, fuel: nat)
    requires
        !(v is Fct),
    ensures
        spec_run(seq![Val::Ass(seq![k]), Val::Var(k)], push(m, v), fuel) == Ok::<Machine, Fault>(
            push(bind(m, k, v), v),
        ),
{
    let s = seq![Val::Ass(seq![k]), Val::Var(k)];
    let m0 = push(m, v);
    assert(m0.stack.drop_last() =~= m.stack);
    assert(seq![k].drop_last() =~= Seq::<Seq<char>>::empty());
    assert(seq![k].last() == k);
    let m1 = bind(m, k, v);
    assert(m0.stack.last() == v);
    assert(pop(m0) == Ok::<(Val, Machine), Fault>((v, m)));
    assert(seq![k][0] == k);
    assert(spec_assign(Seq::<Seq<char>>::empty(), m1) == Ok::<Machine, Fault>(m1));
    assert(spec_assign(seq![k], m0) == Ok::<Machine, Fault>(m1));
    assert(spec_eval(s[0], m0, fuel) == Ok::<Machine, Fault>(m1));
    assert(s.drop_first() =~= seq![Val::Var(k)]);
    assert(spec_eval(Val::Var(k), m1, fuel) == Ok::<Machine, Fault>(push(m1, v)));
    assert(seq![Val::Var(k)].drop_first() =~= Seq::<Val>::empty());
    assert(seq![Val::Var(k)][0] == Val::Var(k));
    assert(spec_run(Seq::<Val>::empty(), push(m1, v), fuel) == Ok::<Machine, Fault>(push(m1, v)));
    assert(spec_run(seq![Val::Var(k)], m1, fuel) == Ok::<Machine, Fault>(push(m1, v)));
}

/// A capture binds its names to the values in the order in which they were
/// pushed: with the values `vs` on the top of the stack (the last of them
/// on top), the capture of as many distinct names `ns` pops them all and
/// binds each name `ns[i]` to `vs[i]`, leaving every other name as it was.
pub proof fn law_capture_binds_in_order(ns: Seq<Seq<char>>, vs: Seq<Val>, m: Machine)
    requires
        ns.len() == vs.len(),
        ns.no_duplicates(),
    ensures
        spec_assign(ns, Machine { env: m.env, stack: m.stack + vs, out: m.out }) matches Ok(m2) && {
            &&& m2.stack == m.stack
            &&& forall|i: int| 0 <= i < ns.len() ==> #[trigger] m2.env.contains_key(ns[i])
                && m2.env[ns[i]] == vs[i]
            &&& forall|k: Seq<char>| !ns.contains(k) ==> (#[trigger] m2.env.contains_key(k)
                == m.env.contains_key(k) && (m.env.contains_key(k) ==> m2.env[k] == m.env[k]))
        },
    decreases ns.len(),
{
    let m0 = Machine { env: m.env, stack: m.stack + vs, out: m.out };
    if ns.len() == 0 {
        assert(m.stack + vs =~= m.stack);
    } else {
        let n = ns.len();
        assert((m.stack + vs).drop_last() =~= m.stack + vs.drop_last());
        assert((m.stack + vs).last() == vs.last());
        let mb = Machine { env: m.env.insert(ns.last(), vs.last()), stack: m.stack, out: m.out };
        assert(pop(m0) == Ok::<(Val, Machine), Fault>((vs.last(), Machine { env: m.env, stack: m.stack + vs.drop_last(), out: m.out })));
        assert(bind(Machine { env: m.env, stack: m.stack + vs.drop_last(), out: m.out }, ns.last(), vs.last())
            == Machine { env: mb.env, stack: mb.stack + vs.drop_last(), out: mb.out });
        assert(ns.drop_last().no_duplicates()) by {
            assert forall|i: int, j: int| 0 <= i < ns.drop_last().len() && 0 <= j < ns.drop_last().len() && i != j
                implies ns.drop_last()[i] != ns.drop_last()[j] by {
                assert(ns.drop_last()[i] == ns[i]);
                assert(ns.drop_last()[j] == ns[j]);
            }
        }
        law_capture_binds_in_order(ns.drop_last(), vs.drop_last(), mb);
        let m2 = spec_assign(ns.drop_last(), Machine { env: mb.env, stack: mb.stack + vs.drop_last(), out: mb.out })->Ok_0;
        assert(spec_assign(ns, m0) == Ok::<Machine, Fault>(m2));
        assert(!ns.drop_last().contains(ns.last())) by {
            if ns.drop_last().contains(ns.last()) {
                let j = choose|j: int| 0 <= j < ns.drop_last().len() && ns.drop_last()[j] == ns.last();
                assert(ns[j] == ns[n - 1]);
            }
        }
        assert forall|i: int| 0 <= i < ns.len() implies #[trigger] m2.env.contains_key(ns[i])
            && m2.env[ns[i]] == vs[i] by {
            if i < n - 1 {
                assert(ns.drop_last()[i] == ns[i]);
                assert(vs.drop_last()[i] == vs[i]);
            } else {
                assert(ns[i] == ns.last());
            }
        }
        assert forall|k: Seq<char>| !ns.contains(k) implies (#[trigger] m2.env.contains_key(k)
            == m.env.contains_key(k) && (m.env.contains_key(k) ==> m2.env[k] == m.env[k])) by {
            if ns.drop_last().contains(k) {
                let j = choose|j: int| 0 <= j < ns.drop_last().len() && ns.drop_last()[j] == k;
                assert(ns[j] == k);
            }
            if k == ns.last() {
                assert(ns[n - 1] == k);
            }
        }
    }
}

/// Quoting code and then evaluating it runs the code: `[...] eval` is the
/// same as running the list's contents (with one unit of the depth budget).
pub proof fn law_quote_then_eval(code: Seq<Val>, m: Machine, fuel: nat)
    ensures
        spec_run(seq![Val::Lst(code), Val::Cmd(AoKeyword::Eval)], m, fuel) == spec_call(code, m, fuel),
{
    let s = seq![Val::Lst(code), Val::Cmd(AoKeyword::Eval)];
    let m1 = push(m, Val::Lst(code));
    assert(m1.stack.drop_last() =~= m.stack);
    assert(pop(m1) == Ok::<(Val, Machine), Fault>((Val::Lst(code), m)));
    assert(s[0] == Val::Lst(code));
    assert(s.drop_first() =~= seq![Val::Cmd(AoKeyword::Eval)]);
    assert(seq![Val::Cmd(AoKeyword::Eval)][0] == Val::Cmd(AoKeyword::Eval));
    assert(seq![Val::Cmd(AoKeyword::Eval)].drop_first() =~= Seq::<Val>::empty());
    assert(spec_eval(Val::Cmd(AoKeyword::Eval), m1, fuel) == spec_call(code, m, fuel));
    assert(spec_eval(s[0], m, fuel) == Ok::<Machine, Fault>(m1));
    assert(spec_run(s, m, fuel) == spec_run(s.drop_first(), m1, fuel));
    match spec_call(code, m, fuel) {
        Ok(m2) => {
            assert(spec_run(Seq::<Val>::empty(), m2, fuel) == Ok::<Machine, Fault>(m2));
            assert(spec_run(s.drop_first(), m1, fuel) == spec_run(
                s.drop_first().drop_first(),
                m2,
                fuel,
            ));
        },
        Err(_) => {},
    }
}

/// Binding a quoted list to a name with `def` and then naming it runs the
/// list: `[...] 'k def k` is the same as binding `k` to the procedure and
/// running its body.
pub proof fn law_def_then_call(k: Seq<char>, body: Seq<Val>, m: Machine, fuel: nat)
    ensures
        spec_run(
            seq![Val::Lst(body), Val::Tkn(k), Val::Cmd(AoKeyword::Def), Val::Var(k)],
            m,
            fuel,
        ) == spec_call(body, bind(m, k, Val::Fct(body)), fuel),
{
    let s = seq![Val::Lst(body), Val::Tkn(k), Val::Cmd(AoKeyword::Def), Val::Var(k)];
    let m1 = push(m, Val::Lst(body));
    let m2 = push(m1, Val::Tkn(k));
    let m3 = bind(m, k, Val::Fct(body));
    assert(m2.stack.drop_last() =~= m1.stack);
    assert(m1.stack.drop_last() =~= m.stack);
    assert(pop(m2) == Ok::<(Val, Machine), Fault>((Val::Tkn(k), m1)));
    assert(pop(m1) == Ok::<(Val, Machine), Fault>((Val::Lst(body), m)));
    assert(spec_def(m2) == Ok::<Machine, Fault>(m3));
    let s1 = s.drop_first();
    let s2 = s1.drop_first();
    let s3 = s2.drop_first();
    assert(s1 =~= seq![Val::Tkn(k), Val::Cmd(AoKeyword::Def), Val::Var(k)]);
    assert(s2 =~= seq![Val::Cmd(AoKeyword::Def), Val::Var(k)]);
    assert(s3 =~= seq![Val::Var(k)]);
    assert(s3.drop_first() =~= Seq::<Val>::empty());
    assert(s[0] == Val::Lst(body));
    assert(s1[0] == Val::Tkn(k));
    assert(s2[0] == Val::Cmd(AoKeyword::Def));
    assert(s3[0] == Val::Var(k));
    assert(m3.env.contains_key(k) && m3.env[k] == Val::Fct(body));
    assert(spec_eval(Val::Var(k), m3, fuel) == spec_call(body, m3, fuel));
    assert(spec_eval(s[0], m, fuel) == Ok::<Machine, Fault>(m1));
    assert(spec_eval(s1[0], m1, fuel) == Ok::<Machine, Fault>(m2));
    assert(spec_eval(s2[0], m2, fuel) == Ok::<Machine, Fault>(m3));
    assert(spec_run(s, m, fuel) == spec_run(s1, m1, fuel));
    assert(spec_run(s1, m1, fuel) == spec_run(s2, m2, fuel));
    assert(spec_run(s2, m2, fuel) == spec_run(s3, m3, fuel));
    match spec_call(body, m3, fuel) {
        Ok(m4) => {
            assert(spec_run(Seq::<Val>::empty(), m4, fuel) == Ok::<Machine, Fault>(m4));
            assert(spec_run(s3, m3, fuel) == spec_run(s3.drop_first(), m4, fuel));
        },
        Err(_) => {},
    }
}

/// Naming a procedure runs its body: when `k` is bound to the procedure
/// `body`, evaluating the word `k` gives what running `body` gives with one
/// unit less of the depth budget, and, when that run does not run out of
/// budget, what running `body` with the whole budget gives.
pub proof fn law_named_procedure_runs_body(k: Seq<char>, body: Seq<Val>, m: Machine, fuel: nat)
    requires
        m.env.contains_key(k),
        m.env[k] == Val::Fct(body),
        fuel > 0,
    ensures
        spec_eval(Val::Var(k), m, fuel) == spec_run(body, m, (fuel - 1) as nat),
        settled(spec_eval(Val::Var(k), m, fuel)) ==> spec_eval(Val::Var(k), m, fuel) == spec_run(
            body,
            m,
            fuel,
        ),
{
    if settled(spec_run(body, m, (fuel - 1) as nat)) {
        law_run_budget(body, m, (fuel - 1) as nat, fuel);
    }
}

/// `eval` runs the list on the top of the stack: popping it, and running
/// its elements on the stack below, with one unit less of the depth budget;
/// and, when that run does not run out of budget, as running them with the
/// whole budget does.
pub proof fn law_eval_runs_list(code: Seq<Val>, m: Machine, fuel: nat)
    requires
        fuel > 0,
    ensures
        spec_eval(Val::Cmd(AoKeyword::Eval), push(m, Val::Lst(code)), fuel) == spec_run(
            code,
            m,
            (fuel - 1) as nat,
        ),
        settled(spec_eval(Val::Cmd(AoKeyword::Eval), push(m, Val::Lst(code)), fuel)) ==> spec_eval(
            Val::Cmd(AoKeyword::Eval),
            push(m, Val::Lst(code)),
            fuel,
        ) == spec_run(code, m, fuel),
{
    let m1 = push(m, Val::Lst(code));
    assert(m1.stack.drop_last() =~= m.stack);
    assert(pop(m1) == Ok::<(Val, Machine), Fault>((Val::Lst(code), m)));
    assert(spec_call(code, m, fuel) == spec_run(code, m, (fuel - 1) as nat));
    assert(spec_call_list(Val::Lst(code), m, fuel) == spec_call(code, m, fuel));
    assert(spec_cmd(AoKeyword::Eval, m1, fuel) == spec_call_list(Val::Lst(code), m, fuel));
    assert(spec_eval(Val::Cmd(AoKeyword::Eval), m1, fuel) == spec_cmd(AoKeyword::Eval, m1, fuel));
    if settled(spec_run(code, m, (fuel - 1) as nat)) {
        law_run_budget(code, m, (fuel - 1) as nat, fuel);
    }
}

/// A reading of values separated by white space ends with its last value
/// among the values read: when it gives a last value, that value is the
/// last of the values, and the values read before stay in front.
pub proof fn law_last_is_last(s: Seq<char>, p: int, acc: Seq<Val>)
    ensures
        lex_seq(s, p, acc) matches Scan::Found(_, (items, last)) ==> {
            &&& acc.len() <= items.len()
            &&& items.subrange(0, acc.len() as int) == acc
            &&& (last matches Some(v) ==> items.len() > 0 && items.last() == v)
        },
    decreases s.len() - p,
{
    assert(acc.subrange(0, acc.len() as int) =~= acc);
    if 0 <= p <= s.len() {
        if p < s.len() && in_class(CharClass::Space, s[p]) {
            lemma_span(s, p, CharClass::Space);
            law_last_is_last(s, span(s, p, CharClass::Space), acc);
        } else if p == s.len() || s[p] == ']' {
        } else if let Scan::Found(q, v) = lex_all(s, p) {
            if p < q <= s.len() {
                if q < s.len() && in_class(CharClass::Space, s[q]) {
                    law_last_is_last(s, q, acc.push(v));
                    if let Scan::Found(_, (items, _)) = lex_seq(s, q, acc.push(v)) {
                        assert(items.subrange(0, acc.len() as int) =~= items.subrange(
                            0,
                            (acc.len() + 1) as int,
                        ).subrange(0, acc.len() as int));
                        assert(acc.push(v).subrange(0, acc.len() as int) =~= acc);
                    }
                } else {
                    assert(acc.push(v).subrange(0, acc.len() as int) =~= acc);
                }
            }
        }
    }
}

/// The reading of one value never misses: where nothing else starts, the
/// number that is tried last stops the program.
pub proof fn law_lex_all_total(s: Seq<char>, p: int)
    ensures
        !(lex_all(s, p) is Miss),
{
    assert(!(lex_int(s, p) is Miss));
}

/// A value whose evaluation settles within a depth budget evaluates to the
/// same result with any larger budget.
pub proof fn law_eval_budget(item: Val, m: Machine, f: nat, g: nat)
    requires
        f <= g,
        settled(spec_eval(item, m, f)),
    ensures
        spec_eval(item, m, g) == spec_eval(item, m, f),
    decreases f, 4nat,
{
    match item {
        Val::Var(k) => lemma_var_budget(k, m, f, g),
        Val::Cmd(c) => lemma_cmd_budget(c, m, f, g),
        Val::Fct(code) => lemma_call_budget(code, m, f, g),
        _ => {},
    }
}

/// Code whose run settles within a depth budget runs to the same result
/// with any larger budget.
pub proof fn law_run_budget(code: Seq<Val>, m: Machine, f: nat, g: nat)
    requires
        f <= g,
        settled(spec_run(code, m, f)),
    ensures
        spec_run(code, m, g) == spec_run(code, m, f),
    decreases f, code.len() + 5,
{
    if code.len() > 0 {
        let r0 = spec_eval(code[0], m, f);
        law_eval_budget(code[0], m, f, g);
        match r0 {
            Ok(m1) => law_run_budget(code.drop_first(), m1, f, g),
            Err(_) => {},
        }
    }
}

proof fn lemma_call_budget(code: Seq<Val>, m: Machine, f: nat, g: nat)
    requires
        f <= g,
        settled(spec_call(code, m, f)),
    ensures
        spec_call(code, m, g) == spec_call(code, m, f),
    decreases f, 0nat,
{
    if f > 0 {
        law_run_budget(code, m, (f - 1) as nat, (g - 1) as nat);
    }
}

proof fn lemma_call_list_budget(v: Val, m: Machine, f: nat, g: nat)
    requires
        f <= g,
        settled(spec_call_list(v, m, f)),
    ensures
        spec_call_list(v, m, g) == spec_call_list(v, m, f),
    decreases f, 1nat,
{
    match v {
        Val::Lst(code) => lemma_call_budget(code, m, f, g),
        _ => {},
    }
}

proof fn lemma_var_budget(k: Seq<char>, m: Machine, f: nat, g: nat)
    requires
        f <= g,
        settled(spec_var(k, m, f)),
    ensures
        spec_var(k, m, g) == spec_var(k, m, f),
    decreases f, 3nat,
{
    if m.env.contains_key(k) {
        match m.env[k] {
            Val::Fct(code) => lemma_call_budget(code, m, f, g),
            _ => {},
        }
    }
}

proof fn lemma_if_budget(m: Machine, f: nat, g: nat)
    requires
        f <= g,
        settled(spec_if(m, f)),
    ensures
        spec_if(m, g) == spec_if(m, f),
    decreases f, 2nat,
{
    if let Ok((then, m1)) = pop(m) {
        if let Ok((test, m2)) = pop(m1) {
            lemma_call_list_budget(test, m2, f, g);
            if let Ok(m3) = spec_call_list(test, m2, f) {
                if let Ok((res, m4)) = pop(m3) {
                    if crate::machine::is_true(res) {
                        lemma_call_list_budget(then, m4, f, g);
                    }
                }
            }
        }
    }
}

proof fn lemma_ifelse_budget(m: Machine, f: nat, g: nat)
    requires
        f <= g,
        settled(spec_ifelse(m, f)),
    ensures
        spec_ifelse(m, g) == spec_ifelse(m, f),
    decreases f, 2nat,
{
    if let Ok((other, m0)) = pop(m) {
        if let Ok((then, m1)) = pop(m0) {
            if let Ok((test, m2)) = pop(m1) {
                lemma_call_list_budget(test, m2, f, g);
                if let Ok(m3) = spec_call_list(test, m2, f) {
                    if let Ok((res, m4)) = pop(m3) {
                        if crate::machine::is_true(res) {
                            lemma_call_list_budget(then, m4, f, g);
                        } else {
                            lemma_call_list_budget(other, m4, f, g);
                        }
                    }
                }
            }
        }
    }
}

proof fn lemma_map_budget(fv: Val, items: Seq<Val>, acc: Seq<Val>, m: Machine, f: nat, g: nat)
    requires
        f <= g,
        settled(spec_map(fv, items, acc, m, f)),
    ensures
        spec_map(fv, items, acc, m, g) == spec_map(fv, items, acc, m, f),
    decreases f, 0nat,
{
    if items.len() > 0 && f > 0 {
        let f1 = (f - 1) as nat;
        let g1 = (g - 1) as nat;
        let r1 = match fv {
            Val::Lst(code) => spec_run(code, push(m, items[0]), f1),
            _ => Ok(push(m, items[0])),
        };
        if let Val::Lst(code) = fv {
            law_run_budget(code, push(m, items[0]), f1, g1);
        }
        if let Ok(m1) = r1 {
            if let Ok((res, m2)) = pop(m1) {
                lemma_map_budget(fv, items.drop_first(), acc.push(res), m2, f1, g1);
            }
        }
    }
}

proof fn lemma_while_budget(test: Val, body: Val, m: Machine, f: nat, g: nat)
    requires
        f <= g,
        settled(spec_while(test, body, m, f)),
    ensures
        spec_while(test, body, m, g) == spec_while(test, body, m, f),
    decreases f, 0nat,
{
    if f > 0 {
        let f1 = (f - 1) as nat;
        let g1 = (g - 1) as nat;
        let r1 = match test {
            Val::Lst(code) => spec_run(code, m, f1),
            _ => Ok(m),
        };
        if let Val::Lst(code) = test {
            law_run_budget(code, m, f1, g1);
        }
        if let Ok(m1) = r1 {
            if let Ok((res, m2)) = pop(m1) {
                match res {
                    Val::Int(_) | Val::Bool(_) => {
                        if crate::machine::is_true(res) {
                            let r2 = match body {
                                Val::Lst(code) => spec_run(code, m2, f1),
                                _ => Ok(m2),
                            };
                            if let Val::Lst(code) = body {
                                law_run_budget(code, m2, f1, g1);
                            }
                            if let Ok(m3) = r2 {
                                lemma_while_budget(test, body, m3, f1, g1);
                            }
                        }
                    },
                    _ => {
                        lemma_while_budget(test, body, m2, f1, g1);
                    },
                }
            }
        }
    }
}

proof fn lemma_cmd_budget(c: crate::value::AoKeyword, m: Machine, f: nat, g: nat)
    requires
        f <= g,
        settled(spec_cmd(c, m, f)),
    ensures
        spec_cmd(c, m, g) == spec_cmd(c, m, f),
    decreases f, 3nat,
{
    match c {
        crate::value::AoKeyword::Eval => {
            if let Ok((v, m1)) = pop(m) {
                lemma_call_list_budget(v, m1, f, g);
            }
        },
        crate::value::AoKeyword::If => lemma_if_budget(m, f, g),
        crate::value::AoKeyword::While => {
            if let Ok((corps, m1)) = pop(m) {
                if let Ok((test, m2)) = pop(m1) {
                    lemma_while_budget(test, corps, m2, f, g);
                }
            }
        },
        crate::value::AoKeyword::IfElse => lemma_ifelse_budget(m, f, g),
        crate::value::AoKeyword::MapOver => {
            if let Ok((fv, m1)) = pop(m) {
                if let Ok((l, m2)) = pop(m1) {
                    if let Val::Lst(items) = l {
                        lemma_map_budget(fv, items, Seq::empty(), m2, f, g);
                    }
                }
            }
        },
        _ => {},
    }
}

} // verus!
