//! The operators of the language on integer values.
//!
//! The evaluator pops the top of the stack as `op1` and the value below it
//! as `op2`; so `10 3 -` computes `op2 - op1 = 7` and `10 3 >` computes
//! whether `op2 > op1`.
use vstd::prelude::*;
use crate::value::{AoType, Val};

verus! {

/// The integer held by a value (0 for a value that is not an integer).
pub open spec fn operand(t: AoType) -> i32 {
    match t.value() {
        Val::Int(i) => i,
        _ => 0,
    }
}

/// `op1 + op2`.
pub fn add(op1: AoType, op2: AoType) -> (r: AoType)
    requires
        op1.value() is Int,
        op2.value() is Int,
        i32::MIN <= operand(op1) + operand(op2) <= i32::MAX,
    ensures
        r.value() == Val::Int((operand(op1) + operand(op2)) as i32),
{
    let (AoType::Int(i_op1), AoType::Int(i_op2)) = (op1, op2) else { unreached() };
    AoType::Int(Box::new(*i_op1 + *i_op2))
}

/// `op2 - op1`.
pub fn sub(op1: AoType, op2: AoType) -> (r: AoType)
    requires
        op1.value() is Int,
        op2.value() is Int,
        i32::MIN <= operand(op2) - operand(op1) <= i32::MAX,
    ensures
        r.value() == Val::Int((operand(op2) - operand(op1)) as i32),
{
    let (AoType::Int(i_op1), AoType::Int(i_op2)) = (op1, op2) else { unreached() };
    AoType::Int(Box::new(*i_op2 - *i_op1))
}

/// `op1 * op2`.
pub fn mul(op1: AoType, op2: AoType) -> (r: AoType)
    requires
        op1.value() is Int,
        op2.value() is Int,
        i32::MIN <= operand(op1) * operand(op2) <= i32::MAX,
    ensures
        r.value() == Val::Int((operand(op1) * operand(op2)) as i32),
{
    let (AoType::Int(i_op1), AoType::Int(i_op2)) = (op1, op2) else { unreached() };
    AoType::Int(Box::new(*i_op1 * *i_op2))
}

/// `op2 / op1`, rounded toward zero.
pub fn div(op1: AoType, op2: AoType) -> (r: AoType)
    requires
        op1.value() is Int,
        op2.value() is Int,
        operand(op2).checked_div(operand(op1)) is Some,
    ensures
        r.value() == Val::Int(operand(op2).checked_div(operand(op1))->Some_0),
{
    let (AoType::Int(i_op1), AoType::Int(i_op2)) = (op1, op2) else { unreached() };
    match (*i_op2).checked_div(*i_op1) {
        Some(q) => AoType::Int(Box::new(q)),
        None => unreached(),
    }
}

/// 1 if `op2 > op1`, else 0.
pub fn sup(op1: AoType, op2: AoType) -> (r: AoType)
    requires
        op1.value() is Int,
        op2.value() is Int,
    ensures
        r.value() == Val::Int(if operand(op2) > operand(op1) { 1 } else { 0 }),
{
    let (AoType::Int(i_op1), AoType::Int(i_op2)) = (op1, op2) else { unreached() };
    if *i_op2 > *i_op1 {
        AoType::Int(Box::new(1))
    } else {
        AoType::Int(Box::new(0))
    }
}

/// 1 if `op2 < op1`, else 0.
pub fn inf(op1: AoType, op2: AoType) -> (r: AoType)
    requires
        op1.value() is Int,
        op2.value() is Int,
    ensures
        r.value() == Val::Int(if operand(op2) < operand(op1) { 1 } else { 0 }),
{
    let (AoType::Int(i_op1), AoType::Int(i_op2)) = (op1, op2) else { unreached() };
    if *i_op2 < *i_op1 {
        AoType::Int(Box::new(1))
    } else {
        AoType::Int(Box::new(0))
    }
}

} // verus!
