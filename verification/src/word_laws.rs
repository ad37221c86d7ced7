//! Laws on what single operators and built-in words do to the stack, and
//! on the texts that the reader and the printer agree on.
use vstd::prelude::*;
use crate::value::{AoKeyword, Fault, Val};
use crate::machine::{Machine, spec_eval, pop};
use crate::lexer::{lex_string, lex_all, span, in_class, is_ascii_digit, digits_value, CharClass,
    Scan};
use crate::display::{nat_decimal, decimal, printed};

verus! {

proof fn lemma_top_two(e: Map<Seq<char>, Val>, s: Seq<Val>, b: Val, a: Val, o: Seq<Seq<char>>)
    ensures
        pop(Machine { env: e, stack: s.push(b).push(a), out: o }) == Ok::<(Val, Machine), Fault>(
            (a, Machine { env: e, stack: s.push(b), out: o }),
        ),
        pop(Machine { env: e, stack: s.push(b), out: o }) == Ok::<(Val, Machine), Fault>(
            (b, Machine { env: e, stack: s, out: o }),
        ),
{
    assert(s.push(b).push(a).drop_last() =~= s.push(b));
    assert(s.push(b).drop_last() =~= s);
}

/// The comparison operators compare the value below the top (`b`) with the
/// top (`a`) and push 1 when the comparison holds, 0 when it does not:
/// `<=` tests `b <= a`, `>=` tests `b >= a`, `==` tests `b == a`, `!=`
/// tests `b != a`, `<` tests `b < a` and `>` tests `b > a`; the values below
/// stay as they were.
pub proof fn law_comparisons(
    e: Map<Seq<char>, Val>,
    s: Seq<Val>,
    b: i32,
    a: i32,
    o: Seq<Seq<char>>,
    fuel: nat,
)
    ensures
        ({
            let m = Machine { env: e, stack: s.push(Val::Int(b)).push(Val::Int(a)), out: o };
            let gives = |x: bool| Ok::<Machine, Fault>(
                Machine { env: e, stack: s.push(Val::Int(if x { 1i32 } else { 0i32 })), out: o },
            );
            &&& spec_eval(Val::Opr(seq!['<', '=']), m, fuel) == gives(b <= a)
            &&& spec_eval(Val::Opr(seq!['>', '=']), m, fuel) == gives(b >= a)
            &&& spec_eval(Val::Opr(seq!['=', '=']), m, fuel) == gives(b == a)
            &&& spec_eval(Val::Opr(seq!['!', '=']), m, fuel) == gives(b != a)
            &&& spec_eval(Val::Opr(seq!['<']), m, fuel) == gives(b < a)
            &&& spec_eval(Val::Opr(seq!['>']), m, fuel) == gives(b > a)
        }),
{
    lemma_top_two(e, s, Val::Int(b), Val::Int(a), o);
    assert(seq!['<', '='].len() == 2 && seq!['<', '='][0] == '<' && seq!['<', '='][1] == '=');
    assert(seq!['>', '='].len() == 2 && seq!['>', '='][0] == '>' && seq!['>', '='][1] == '=');
    assert(seq!['=', '='].len() == 2 && seq!['=', '='][0] == '=' && seq!['=', '='][1] == '=');
    assert(seq!['!', '='].len() == 2 && seq!['!', '='][0] == '!' && seq!['!', '='][1] == '=');
    assert(seq!['<'].len() == 1 && seq!['<'][0] == '<');
    assert(seq!['>'].len() == 1 && seq!['>'][0] == '>');
}

/// The arithmetic operators compute the value below the top (`b`) with the
/// top (`a`): `+` pushes `b + a`, `-` pushes `b - a`, `*` pushes `b * a`
/// when these fit in an `i32`; the values below stay as they were.
pub proof fn law_arithmetic(
    e: Map<Seq<char>, Val>,
    s: Seq<Val>,
    b: i32,
    a: i32,
    o: Seq<Seq<char>>,
    fuel: nat,
)
    ensures
        ({
            let m = Machine { env: e, stack: s.push(Val::Int(b)).push(Val::Int(a)), out: o };
            let gives = |x: int| Ok::<Machine, Fault>(
                Machine { env: e, stack: s.push(Val::Int(x as i32)), out: o },
            );
            &&& i32::MIN <= b + a <= i32::MAX ==> spec_eval(Val::Opr(seq!['+']), m, fuel) == gives(
                b + a,
            )
            &&& i32::MIN <= b - a <= i32::MAX ==> spec_eval(Val::Opr(seq!['-']), m, fuel) == gives(
                b - a,
            )
            &&& i32::MIN <= b * a <= i32::MAX ==> spec_eval(Val::Opr(seq!['*']), m, fuel) == gives(
                b * a,
            )
        }),
{
    lemma_top_two(e, s, Val::Int(b), Val::Int(a), o);
    assert(seq!['+'].len() == 1 && seq!['+'][0] == '+');
    assert(seq!['-'].len() == 1 && seq!['-'][0] == '-');
    assert(seq!['*'].len() == 1 && seq!['*'][0] == '*');
}

/// `/` divides the value below the top (`b`) by the top (`a`): for a
/// dividend that is not negative and a positive divisor it pushes the
/// quotient `q` with `q * a <= b < (q + 1) * a`; a zero divisor stops the
/// program.
pub proof fn law_division(
    e: Map<Seq<char>, Val>,
    s: Seq<Val>,
    b: i32,
    a: i32,
    o: Seq<Seq<char>>,
    fuel: nat,
)
    ensures
        ({
            let m = Machine { env: e, stack: s.push(Val::Int(b)).push(Val::Int(a)), out: o };
            &&& (b >= 0 && a > 0) ==> (spec_eval(Val::Opr(seq!['/']), m, fuel) matches Ok(m2)
                && m2.env == e && m2.out == o && m2.stack.drop_last() == s && m2.stack.len()
                == s.len() + 1 && (m2.stack.last() matches Val::Int(q) && q * a <= b < (q + 1) * a))
            &&& a == 0 ==> spec_eval(Val::Opr(seq!['/']), m, fuel) == Err::<Machine, Fault>(
                Fault::DivisionByZero,
            )
        }),
{
    lemma_top_two(e, s, Val::Int(b), Val::Int(a), o);
    assert(seq!['/'].len() == 1 && seq!['/'][0] == '/');
    if b >= 0 && a > 0 {
        let q = b / a;
        assert(q * a <= b < (q + 1) * a) by (nonlinear_arith)
            requires
                b >= 0,
                a > 0,
                q == b / a,
        ;
        assert(s.push(Val::Int(q as i32)).drop_last() =~= s);
    }
}

/// `dup` pushes a second copy of the top, and `swap` exchanges the two
/// values on the top; the values below them stay as they were.
pub proof fn law_dup_swap(
    e: Map<Seq<char>, Val>,
    s: Seq<Val>,
    b: Val,
    a: Val,
    o: Seq<Seq<char>>,
    fuel: nat,
)
    ensures
        spec_eval(
            Val::Cmd(AoKeyword::Swap),
            Machine { env: e, stack: s.push(b).push(a), out: o },
            fuel,
        ) == Ok::<Machine, Fault>(Machine { env: e, stack: s.push(a).push(b), out: o }),
        spec_eval(Val::Cmd(AoKeyword::Dup), Machine { env: e, stack: s.push(a), out: o }, fuel)
            == Ok::<Machine, Fault>(Machine { env: e, stack: s.push(a).push(a), out: o }),
{
    lemma_top_two(e, s, b, a, o);
    assert(s.push(a).drop_last() =~= s);
}

/// The list words on a list `items` on the top of the stack, the values
/// below staying as they were: `rest` leaves the list without its first
/// element (one element shorter, the others in order), `first` leaves the
/// first element, `len` leaves the number of elements; `cat` joins the list
/// below the top (`x`) and the top (`items`), `x` first.
pub proof fn law_list_words(
    e: Map<Seq<char>, Val>,
    s: Seq<Val>,
    x: Seq<Val>,
    items: Seq<Val>,
    o: Seq<Seq<char>>,
    fuel: nat,
)
    ensures
        ({
            let m = Machine { env: e, stack: s.push(Val::Lst(items)), out: o };
            let leaves = |v: Val| Ok::<Machine, Fault>(Machine { env: e, stack: s.push(v), out: o });
            &&& items.len() > 0 ==> (spec_eval(Val::Cmd(AoKeyword::Rest), m, fuel) matches Ok(m2)
                && m2.env == e && m2.out == o && m2.stack.len() == s.len() + 1
                && m2.stack.drop_last() == s && (m2.stack.last() matches Val::Lst(r)
                && r.len() + 1 == items.len() && forall|i: int|
                0 <= i < r.len() ==> #[trigger] r[i] == items[i + 1]))
            &&& items.len() > 0 ==> spec_eval(Val::Cmd(AoKeyword::First), m, fuel) == leaves(items[0])
            &&& items.len() == 0 ==> spec_eval(Val::Cmd(AoKeyword::First), m, fuel) == Err::<Machine, Fault>(Fault::EmptyList)
            &&& items.len() <= i32::MAX ==> spec_eval(Val::Cmd(AoKeyword::Len), m, fuel) == leaves(
                Val::Int(items.len() as i32),
            )
            &&& spec_eval(
                Val::Cmd(AoKeyword::Cat),
                Machine { env: e, stack: s.push(Val::Lst(x)).push(Val::Lst(items)), out: o },
                fuel,
            ) == leaves(Val::Lst(x + items))
        }),
{
    lemma_top_two(e, s, Val::Lst(x), Val::Lst(items), o);
    assert(s.push(Val::Lst(items)).drop_last() =~= s);
}

/// The end of a run of class `k` is the first position at or after `p`
/// whose character is not of the class.
proof fn lemma_span_exact(s: Seq<char>, p: int, q: int, k: CharClass)
    requires
        0 <= p <= q <= s.len(),
        forall|i: int| p <= i < q ==> in_class(k, #[trigger] s[i]),
        q == s.len() || !in_class(k, s[q]),
    ensures
        span(s, p, k) == q,
    decreases q - p,
{
    if p < q {
        lemma_span_exact(s, p + 1, q, k);
    }
}

/// A string literal reads back as its contents: where `"`, a text `t`
/// without a double quote (perhaps empty), and `"` stand at `p`, the reader
/// reads the string `t` and goes on after the closing quote.
pub proof fn law_string_literal(s: Seq<char>, p: int, t: Seq<char>)
    requires
        0 <= p,
        p + t.len() + 2 <= s.len(),
        s[p] == '"',
        s.subrange(p + 1, p + 1 + t.len()) == t,
        s[p + 1 + t.len()] == '"',
        forall|i: int| 0 <= i < t.len() ==> #[trigger] t[i] != '"',
    ensures
        lex_string(s, p) == Scan::Found(p + t.len() + 2, Val::Str(t)),
        lex_all(s, p) == Scan::Found(p + t.len() + 2, Val::Str(t)),
{
    let q = p + 1 + t.len();
    assert forall|i: int| p + 1 <= i < q implies in_class(CharClass::NotQuote, #[trigger] s[i]) by {
        assert(s.subrange(p + 1, q)[i - (p + 1)] == s[i]);
    }
    lemma_span_exact(s, p + 1, q, CharClass::NotQuote);
}

/// The decimal text of a natural number is a nonempty run of digits that
/// reads back as the number.
pub proof fn law_decimal_reads_back(n: nat)
    ensures
        nat_decimal(n).len() >= 1,
        forall|i: int| 0 <= i < nat_decimal(n).len() ==> is_ascii_digit(#[trigger] nat_decimal(n)[i]),
        digits_value(nat_decimal(n)) == n,
    decreases n,
{
    if n < 10 {
        let d = nat_decimal(n);
        assert(d.drop_last() =~= Seq::<char>::empty());
        assert(d.last() as int == n + 48);
        assert(digits_value(d.drop_last()) == 0);
        assert(digits_value(d) == digits_value(d.drop_last()) * 10 + (d.last() as int - '0' as int));
    } else {
        law_decimal_reads_back(n / 10);
        let h = nat_decimal(n / 10);
        let d = nat_decimal(n);
        assert(d.drop_last() =~= h);
        assert(d.last() as int == (n % 10) + 48);
        assert(forall|i: int| 0 <= i < h.len() ==> d[i] == h[i]);
        assert(n == (n / 10) * 10 + n % 10);
        assert(digits_value(d) == digits_value(d.drop_last()) * 10 + (d.last() as int - '0' as int));
    }
}

/// The decimal text of an integer: a minus sign before the digits of its
/// magnitude when it is negative, the digits alone otherwise; the digits
/// read back as the magnitude.
pub proof fn law_decimal_of_integer(i: int)
    ensures
        i >= 0 ==> digits_value(decimal(i)) == i && decimal(i).len() >= 1,
        i < 0 ==> decimal(i)[0] == '-' && decimal(i).drop_first() == nat_decimal((-i) as nat)
            && digits_value(decimal(i).drop_first()) == -i,
{
    if i >= 0 {
        law_decimal_reads_back(i as nat);
    } else {
        law_decimal_reads_back((-i) as nat);
        assert((seq!['-'] + nat_decimal((-i) as nat)).drop_first() =~= nat_decimal((-i) as nat));
    }
}

/// Printing a number that is not negative and reading the line back gives
/// the number again.
pub proof fn law_print_then_read(i: i32)
    requires
        i >= 0,
    ensures
        lex_all(printed(Val::Int(i)), 0) == Scan::Found(
            printed(Val::Int(i)).len() as int,
            Val::Int(i),
        ),
{
    let t = printed(Val::Int(i));
    law_decimal_reads_back(i as nat);
    assert(t == nat_decimal(i as nat));
    assert forall|k: int| 0 <= k < t.len() implies in_class(CharClass::Digit, #[trigger] t[k]) by {}
    lemma_span_exact(t, 0, t.len() as int, CharClass::Digit);
    assert(t.subrange(0, t.len() as int) =~= t);
    assert(is_ascii_digit(t[0]));
}

} // verus!
