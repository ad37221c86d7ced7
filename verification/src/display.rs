//! The text by which the editor shows a value on the stack.
use vstd::prelude::*;
use vstd::string::StringExecFns;
use crate::value::{AoKeyword, AoType, Val, values, lemma_values};

verus! {

/// The text that `{:?}` gives for a string: the string quoted, with its
/// special characters escaped.
pub uninterp spec fn debug_quoted(s: Seq<char>) -> Seq<char>;

/// Calls `format!("{:?}", s)` on a `String`. Claimed: the result is a
/// function of the characters of `s` alone (quoting and escaping), left
/// unnamed beyond that.
#[verifier::external_body]
fn debug_string(s: &String) -> (r: String)
    ensures
        r@ == debug_quoted(s@),
{
    format!("{:?}", s)
}

/// The decimal digit for a number below ten.
pub open spec fn digit_char(d: int) -> char {
    (d + 48) as char
}

/// The decimal text of a natural number.
pub open spec fn nat_decimal(n: nat) -> Seq<char>
    decreases n,
{
    if n < 10 {
        seq![digit_char(n as int)]
    } else {
        nat_decimal(n / 10) + seq![digit_char((n % 10) as int)]
    }
}

/// The decimal text of an integer: a minus sign for a negative one, then
/// the digits of its magnitude without leading zeros.
pub open spec fn decimal(i: int) -> Seq<char> {
    if i < 0 {
        seq!['-'] + nat_decimal((-i) as nat)
    } else {
        nat_decimal(i as nat)
    }
}

/// The text of one decimal digit.
fn digit_text(d: u32) -> (r: String)
    requires
        d < 10,
    ensures
        r@ == seq![digit_char(d as int)],
{
    proof {
        reveal_strlit("0");
        reveal_strlit("1");
        reveal_strlit("2");
        reveal_strlit("3");
        reveal_strlit("4");
        reveal_strlit("5");
        reveal_strlit("6");
        reveal_strlit("7");
        reveal_strlit("8");
        reveal_strlit("9");
    }
    if d == 0 {
        String::from_str("0")
    } else if d == 1 {
        String::from_str("1")
    } else if d == 2 {
        String::from_str("2")
    } else if d == 3 {
        String::from_str("3")
    } else if d == 4 {
        String::from_str("4")
    } else if d == 5 {
        String::from_str("5")
    } else if d == 6 {
        String::from_str("6")
    } else if d == 7 {
        String::from_str("7")
    } else if d == 8 {
        String::from_str("8")
    } else {
        String::from_str("9")
    }
}

/// The decimal text of a natural number.
fn nat_text(n: u32) -> (r: String)
    ensures
        r@ == nat_decimal(n as nat),
    decreases n,
{
    if n < 10 {
        digit_text(n)
    } else {
        let mut r = nat_text(n / 10);
        let d = digit_text(n % 10);
        let ghost r0 = r@;
        r.append(d.as_str());
        assert(r@ =~= r0 + d@);
        r
    }
}

/// The decimal text of an integer.
fn decimal_string(i: i32) -> (r: String)
    ensures
        r@ == decimal(i as int),
{
    if i < 0 {
        let m: u32 = (-(i as i64)) as u32;
        let mut r = String::from_str("-");
        proof {
            reveal_strlit("-");
        }
        let t = nat_text(m);
        let ghost r0 = r@;
        r.append(t.as_str());
        assert(r@ =~= seq!['-'] + nat_decimal((-i) as nat));
        r
    } else {
        nat_text(i as u32)
    }
}

/// The text that `{:?}` gives for a boolean.
pub open spec fn bool_text(b: bool) -> Seq<char> {
    if b {
        seq!['t', 'r', 'u', 'e']
    } else {
        seq!['f', 'a', 'l', 's', 'e']
    }
}

/// The name of a command.
pub open spec fn keyword_name(c: AoKeyword) -> Seq<char> {
    match c {
        AoKeyword::Eval => seq!['E', 'v', 'a', 'l'],
        AoKeyword::If => seq!['I', 'f'],
        AoKeyword::While => seq!['W', 'h', 'i', 'l', 'e'],
        AoKeyword::Def => seq!['D', 'e', 'f'],
        AoKeyword::IfElse => seq!['I', 'f', 'E', 'l', 's', 'e'],
        AoKeyword::Dup => seq!['D', 'u', 'p'],
        AoKeyword::Swap => seq!['S', 'w', 'a', 'p'],
        AoKeyword::First => seq!['F', 'i', 'r', 's', 't'],
        AoKeyword::Rest => seq!['R', 'e', 's', 't'],
        AoKeyword::Cat => seq!['C', 'a', 't'],
        AoKeyword::Len => seq!['L', 'e', 'n'],
        AoKeyword::MapOver => seq!['M', 'a', 'p', 'O', 'v', 'e', 'r'],
        AoKeyword::PrintNl => seq!['P', 'r', 'i', 'n', 't', 'N', 'l'],
    }
}

/// The quoted names of a capture, separated by `", "`.
pub open spec fn names_text(a: Seq<Seq<char>>) -> Seq<char>
    decreases a.len(),
{
    if a.len() == 0 {
        Seq::empty()
    } else if a.len() == 1 {
        debug_quoted(a[0])
    } else {
        names_text(a.drop_last()) + seq![',', ' '] + debug_quoted(a.last())
    }
}

/// The debug texts of values, separated by `", "`.
pub open spec fn items_text(l: Seq<Val>) -> Seq<char>
    decreases l, 0nat,
{
    if l.len() == 0 {
        Seq::empty()
    } else if l.len() == 1 {
        debug_text(l[0])
    } else {
        items_text(l.subrange(0, l.len() - 1)) + seq![',', ' '] + debug_text(l[l.len() - 1])
    }
}

/// The debug text of a value: the variant's name and its contents in
/// parentheses (nothing else for white space).
pub open spec fn debug_text(v: Val) -> Seq<char>
    decreases v, 1nat,
{
    match v {
        Val::Str(s) => seq!['S', 't', 'r', '('] + debug_quoted(s) + seq![')'],
        Val::Tkn(s) => seq!['T', 'k', 'n', '('] + debug_quoted(s) + seq![')'],
        Val::Int(i) => seq!['I', 'n', 't', '('] + decimal(i as int) + seq![')'],
        Val::Opr(s) => seq!['O', 'p', 'r', '('] + debug_quoted(s) + seq![')'],
        Val::Ass(a) => seq!['A', 's', 's', '(', '['] + names_text(a) + seq![']', ')'],
        Val::Var(s) => seq!['V', 'a', 'r', '('] + debug_quoted(s) + seq![')'],
        Val::Cmd(c) => seq!['C', 'm', 'd', '('] + keyword_name(c) + seq![')'],
        Val::Fct(l) => seq!['F', 'c', 't', '(', '['] + items_text(l) + seq![']', ')'],
        Val::Lst(l) => seq!['L', 's', 't', '(', '['] + items_text(l) + seq![']', ')'],
        Val::Spc => seq!['S', 'p', 'c'],
        Val::Bool(b) => seq!['B', 'o', 'o', 'l', '('] + bool_text(b) + seq![')'],
        Val::Tup(a) => seq!['T', 'u', 'p', '(', '['] + names_text(a) + seq![']', ')'],
    }
}

/// The text by which a value is shown: the variant's name, a space and
/// the contents (a list's contents in brackets); nothing for white space.
pub open spec fn display(v: Val) -> Seq<char> {
    match v {
        Val::Str(s) => seq!['S', 't', 'r', ' '] + debug_quoted(s),
        Val::Tkn(s) => seq!['T', 'k', 'n', ' '] + debug_quoted(s),
        Val::Int(i) => seq!['I', 'n', 't', ' '] + decimal(i as int),
        Val::Opr(s) => seq!['O', 'p', 'r', ' '] + debug_quoted(s),
        Val::Ass(a) => seq!['A', 's', 's', ' ', '['] + names_text(a) + seq![']'],
        Val::Var(s) => seq!['V', 'a', 'r', ' '] + debug_quoted(s),
        Val::Cmd(c) => seq!['C', 'm', 'd', ' '] + keyword_name(c),
        Val::Fct(l) => seq!['F', 'c', 't', ' ', '[', '['] + items_text(l) + seq![']', ']'],
        Val::Lst(l) => seq!['L', 's', 't', ' ', '[', '['] + items_text(l) + seq![']', ']'],
        Val::Spc => Seq::empty(),
        Val::Bool(b) => seq!['B', 'o', 'o', 'l', ' ', '#', if b { 't' } else { 'f' }],
        Val::Tup(a) => seq!['T', 'u', 'p', ' ', '['] + names_text(a) + seq![']'],
    }
}

fn keyword_text(c: AoKeyword) -> (r: String)
    ensures
        r@ == keyword_name(c),
{
    match c {
        AoKeyword::Eval => {
            proof {
                reveal_strlit("Eval");
            }
            String::from_str("Eval")
        },
        AoKeyword::If => {
            proof {
                reveal_strlit("If");
            }
            String::from_str("If")
        },
        AoKeyword::While => {
            proof {
                reveal_strlit("While");
            }
            String::from_str("While")
        },
        AoKeyword::Def => {
            proof {
                reveal_strlit("Def");
            }
            String::from_str("Def")
        },
        AoKeyword::IfElse => {
            proof {
                reveal_strlit("IfElse");
            }
            String::from_str("IfElse")
        },
        AoKeyword::Dup => {
            proof {
                reveal_strlit("Dup");
            }
            String::from_str("Dup")
        },
        AoKeyword::Swap => {
            proof {
                reveal_strlit("Swap");
            }
            String::from_str("Swap")
        },
        AoKeyword::First => {
            proof {
                reveal_strlit("First");
            }
            String::from_str("First")
        },
        AoKeyword::Rest => {
            proof {
                reveal_strlit("Rest");
            }
            String::from_str("Rest")
        },
        AoKeyword::Cat => {
            proof {
                reveal_strlit("Cat");
            }
            String::from_str("Cat")
        },
        AoKeyword::Len => {
            proof {
                reveal_strlit("Len");
            }
            String::from_str("Len")
        },
        AoKeyword::MapOver => {
            proof {
                reveal_strlit("MapOver");
            }
            String::from_str("MapOver")
        },
        AoKeyword::PrintNl => {
            proof {
                reveal_strlit("PrintNl");
            }
            String::from_str("PrintNl")
        },
    }
}

fn names_exec(a: &Vec<Box<String>>) -> (r: String)
    ensures
        r@ == names_text(a.deep_view()),
{
    let mut r = String::new();
    let mut i: usize = 0;
    proof {
        reveal_strlit(", ");
        assert(a.deep_view().subrange(0, 0) =~= Seq::<Seq<char>>::empty());
    }
    while i < a.len()
        invariant
            i <= a@.len(),
            r@ == names_text(a.deep_view().subrange(0, i as int)),
        decreases a@.len() - i,
    {
        let ghost pre = a.deep_view().subrange(0, i + 1);
        assert(pre.drop_last() =~= a.deep_view().subrange(0, i as int));
        assert(pre.last() == a@[i as int]@);
        proof {
            reveal_strlit(", ");
        }
        let ghost r0 = r@;
        if i > 0 {
            r.append(", ");
        }
        let q = debug_string(&a[i]);
        r.append(q.as_str());
        proof {
            if i == 0 {
                assert(r@ =~= q@);
            } else {
                assert(r@ =~= r0 + seq![',', ' '] + q@);
            }
        }
        i += 1;
    }
    assert(a.deep_view().subrange(0, i as int) =~= a.deep_view());
    r
}

fn items_exec(l: &Vec<AoType>) -> (r: String)
    ensures
        r@ == items_text(values(l@)),
    decreases l, 0nat,
{
    let ghost all = values(l@);
    proof {
        lemma_values(l@);
        reveal_strlit(", ");
        assert(all.subrange(0, 0) =~= Seq::<Val>::empty());
    }
    let mut r = String::new();
    let mut i: usize = 0;
    while i < l.len()
        invariant
            i <= l@.len(),
            all == values(l@),
            all.len() == l@.len(),
            forall|j: int| 0 <= j < l@.len() ==> #[trigger] all[j] == l@[j].value(),
            r@ == items_text(all.subrange(0, i as int)),
        decreases l@.len() - i,
    {
        let ghost pre = all.subrange(0, i + 1);
        assert(pre.subrange(0, pre.len() - 1) =~= all.subrange(0, i as int));
        assert(pre[pre.len() - 1] == l@[i as int].value());
        proof {
            reveal_strlit(", ");
        }
        let ghost r0 = r@;
        if i > 0 {
            r.append(", ");
        }
        let q = debug_exec(&l[i]);
        r.append(q.as_str());
        proof {
            if i == 0 {
                assert(pre.len() == 1);
                assert(pre[0] == l@[0].value());
                assert(r@ =~= q@);
            } else {
                assert(r@ =~= r0 + seq![',', ' '] + q@);
            }
        }
        i += 1;
    }
    assert(all.subrange(0, i as int) =~= all);
    r
}

/// The debug text of a value.
fn debug_exec(t: &AoType) -> (r: String)
    ensures
        r@ == debug_text(t.value()),
    decreases t, 1nat,
{
    let mut r = String::new();
    match t {
        AoType::Str(s) => {
            proof {
                reveal_strlit("Str(");
                reveal_strlit(")");
            }
            r.append("Str(");
            r.append(debug_string(s).as_str());
            r.append(")");
        },
        AoType::Tkn(s) => {
            proof {
                reveal_strlit("Tkn(");
                reveal_strlit(")");
            }
            r.append("Tkn(");
            r.append(debug_string(s).as_str());
            r.append(")");
        },
        AoType::Int(i) => {
            proof {
                reveal_strlit("Int(");
                reveal_strlit(")");
            }
            r.append("Int(");
            r.append(decimal_string(**i).as_str());
            r.append(")");
        },
        AoType::Opr(s) => {
            proof {
                reveal_strlit("Opr(");
                reveal_strlit(")");
            }
            r.append("Opr(");
            r.append(debug_string(s).as_str());
            r.append(")");
        },
        AoType::Ass(a) => {
            proof {
                reveal_strlit("Ass([");
                reveal_strlit("])");
            }
            r.append("Ass([");
            r.append(names_exec(a).as_str());
            r.append("])");
        },
        AoType::Var(s) => {
            proof {
                reveal_strlit("Var(");
                reveal_strlit(")");
            }
            r.append("Var(");
            r.append(debug_string(s).as_str());
            r.append(")");
        },
        AoType::Cmd(c) => {
            proof {
                reveal_strlit("Cmd(");
                reveal_strlit(")");
            }
            r.append("Cmd(");
            r.append(keyword_text(*c).as_str());
            r.append(")");
        },
        AoType::Fct(l) => {
            proof {
                reveal_strlit("Fct([");
                reveal_strlit("])");
            }
            r.append("Fct([");
            r.append(items_exec(l).as_str());
            r.append("])");
        },
        AoType::Lst(l) => {
            proof {
                reveal_strlit("Lst([");
                reveal_strlit("])");
            }
            r.append("Lst([");
            r.append(items_exec(l).as_str());
            r.append("])");
        },
        AoType::Spc => {
            proof {
                reveal_strlit("Spc");
            }
            r.append("Spc");
        },
        AoType::Bool(b) => {
            proof {
                reveal_strlit("Bool(true)");
                reveal_strlit("Bool(false)");
            }
            if *b {
                r.append("Bool(true)");
            } else {
                r.append("Bool(false)");
            }
        },
        AoType::Tup(a) => {
            proof {
                reveal_strlit("Tup([");
                reveal_strlit("])");
            }
            r.append("Tup([");
            r.append(names_exec(a).as_str());
            r.append("])");
        },
    }
    r
}

impl AoType {
    /// The text by which the value is shown on the stack.
    pub fn fmt(&self) -> (r: String)
        ensures
            r@ == display(self.value()),
    {
        let mut r = String::new();
        match self {
            AoType::Ass(a) => {
                proof {
                    reveal_strlit("Ass [");
                    reveal_strlit("]");
                }
                r.append("Ass [");
                r.append(names_exec(a).as_str());
                r.append("]");
            },
            AoType::Str(s) => {
                proof {
                    reveal_strlit("Str ");
                }
                r.append("Str ");
                r.append(debug_string(s).as_str());
            },
            AoType::Tkn(s) => {
                proof {
                    reveal_strlit("Tkn ");
                }
                r.append("Tkn ");
                r.append(debug_string(s).as_str());
            },
            AoType::Int(i) => {
                proof {
                    reveal_strlit("Int ");
                }
                r.append("Int ");
                r.append(decimal_string(**i).as_str());
            },
            AoType::Opr(s) => {
                proof {
                    reveal_strlit("Opr ");
                }
                r.append("Opr ");
                r.append(debug_string(s).as_str());
            },
            AoType::Var(s) => {
                proof {
                    reveal_strlit("Var ");
                }
                r.append("Var ");
                r.append(debug_string(s).as_str());
            },
            AoType::Cmd(c) => {
                proof {
                    reveal_strlit("Cmd ");
                }
                r.append("Cmd ");
                r.append(keyword_text(*c).as_str());
            },
            AoType::Fct(l) => {
                proof {
                    reveal_strlit("Fct [[");
                    reveal_strlit("]]");
                }
                r.append("Fct [[");
                r.append(items_exec(l).as_str());
                r.append("]]");
            },
            AoType::Lst(l) => {
                proof {
                    reveal_strlit("Lst [[");
                    reveal_strlit("]]");
                }
                r.append("Lst [[");
                r.append(items_exec(l).as_str());
                r.append("]]");
            },
            AoType::Spc => {},
            AoType::Bool(b) => {
                proof {
                    reveal_strlit("Bool #t");
                    reveal_strlit("Bool #f");
                }
                if *b {
                    r.append("Bool #t");
                } else {
                    r.append("Bool #f");
                }
            },
            AoType::Tup(a) => {
                proof {
                    reveal_strlit("Tup [");
                    reveal_strlit("]");
                }
                r.append("Tup [");
                r.append(names_exec(a).as_str());
                r.append("]");
            },
        }
        r
    }
}

/// The line that `printnl` prints for a value: a string or a symbol as it
/// is, an integer in decimal, a boolean as `#t` or `#f`, any other value as
/// the editor shows it.
pub open spec fn printed(v: Val) -> Seq<char> {
    match v {
        Val::Str(s) => s,
        Val::Tkn(s) => s,
        Val::Int(i) => decimal(i as int),
        Val::Bool(b) => seq!['#', if b { 't' } else { 'f' }],
        _ => display(v),
    }
}

/// The line that `printnl` prints for a value.
pub fn print_line(t: &AoType) -> (r: String)
    ensures
        r@ == printed(t.value()),
{
    match t {
        AoType::Str(s) => String::from_str(s.as_str()),
        AoType::Tkn(s) => String::from_str(s.as_str()),
        AoType::Int(i) => decimal_string(**i),
        AoType::Bool(b) => {
            proof {
                reveal_strlit("#t");
                reveal_strlit("#f");
            }
            if *b {
                String::from_str("#t")
            } else {
                String::from_str("#f")
            }
        },
        _ => t.fmt(),
    }
}

} // verus!
