//! The values of the language, their mathematical model, and the faults that
//! stop a program.
use vstd::prelude::*;

verus! {

/// The built-in commands of the language.
#[derive(Debug, Clone, Copy, PartialEq, Eq, Structural)]
pub enum AoKeyword {
    /// `eval`: runs the list on the top of the stack.
    Eval,
    /// `if`: runs a branch when a test gives 1.
    If,
    /// `while`: runs a body as long as a test gives 1.
    While,
    /// `def`: binds a name to a procedure.
    Def,
    /// `ifelse`: runs one of two branches, as a test gives 1 or not.
    IfElse,
    /// `dup`: pushes a copy of the top of the stack.
    Dup,
    /// `swap`: exchanges the two values on the top of the stack.
    Swap,
    /// `first`: replaces a list by its first element.
    First,
    /// `rest`: replaces a list by the list of its other elements.
    Rest,
    /// `cat`: joins two lists.
    Cat,
    /// `len`: replaces a list by its number of elements.
    Len,
    /// `map`: runs a procedure on each element of a list and collects the
    /// results.
    MapOver,
    /// `printnl`: pops a value and prints it on a line of its own.
    PrintNl,
}

/// A value of the language, as the lexer produces it and as the stack and
/// the environment hold it.
#[derive(Debug)]
pub enum AoType {
    /// A string literal `"..."`.
    Str(Box<String>),
    /// A quoted symbol `'name`.
    Tkn(Box<String>),
    /// An integer literal.
    Int(Box<i32>),
    /// One of the operators `+ - * / > <` and `<= >= == !=`.
    Opr(Box<String>),
    /// A local-variable capture `(a b c)`.
    Ass(Vec<Box<String>>),
    /// A variable read `$name` or a bare word.
    Var(Box<String>),
    /// A built-in command.
    Cmd(AoKeyword),
    /// A procedure body bound by `def`; evaluating it runs the body.
    Fct(Vec<AoType>),
    /// A quoted list `[...]`; evaluating it pushes it.
    Lst(Vec<AoType>),
    /// White space.
    Spc,
    /// A boolean `#t` or `#f`.
    Bool(bool),
    /// A quoted tuple of names `'(a b c)`; evaluating it pushes it.
    Tup(Vec<Box<String>>),
}

/// The mathematical model of an [`AoType`]: strings become character
/// sequences, vectors become sequences.
pub ghost enum Val {
    Str(Seq<char>),
    Tkn(Seq<char>),
    Int(i32),
    Opr(Seq<char>),
    Ass(Seq<Seq<char>>),
    Var(Seq<char>),
    Cmd(AoKeyword),
    Fct(Seq<Val>),
    Lst(Seq<Val>),
    Spc,
    Bool(bool),
    Tup(Seq<Seq<char>>),
}

/// What stops a program where the interpreter of the language gives up.
#[derive(Debug, Clone, Copy, PartialEq, Eq, Structural)]
pub enum Fault {
    /// The lexer met a place where no value starts (no digit where a number
    /// was the last thing it could read).
    EmptyNumber,
    /// A number literal does not fit in an `i32`.
    NumberTooLarge,
    /// The text could not be read at all.
    Syntax,
    /// A value was taken from an empty stack.
    StackUnderflow,
    /// An operator met an operand that is not an integer.
    NotAnInteger,
    /// An arithmetic result does not fit in an `i32`.
    Overflow,
    /// A division by zero.
    DivisionByZero,
    /// A command that works on lists (`def`, `first`, `rest`, `cat`,
    /// `len`, `map`) was given a value of another kind.
    NotAList,
    /// `first` was given an empty list.
    EmptyList,
    /// The nesting of calls and loop rounds went past the interpreter's
    /// depth budget.
    DepthExhausted,
    /// A URI scheme other than `http://` and `https://`.
    UnsupportedScheme,
}

impl AoType {
    /// The model of this value.
    pub open spec fn value(self) -> Val
        decreases self,
    {
        match self {
            AoType::Str(s) => Val::Str(s@),
            AoType::Tkn(s) => Val::Tkn(s@),
            AoType::Int(i) => Val::Int(*i),
            AoType::Opr(s) => Val::Opr(s@),
            AoType::Ass(v) => Val::Ass(v.deep_view()),
            AoType::Var(s) => Val::Var(s@),
            AoType::Cmd(c) => Val::Cmd(c),
            AoType::Fct(v) => Val::Fct(values(v@)),
            AoType::Lst(v) => Val::Lst(values(v@)),
            AoType::Spc => Val::Spc,
            AoType::Bool(b) => Val::Bool(b),
            AoType::Tup(v) => Val::Tup(v.deep_view()),
        }
    }
}

/// The models of a sequence of values, element by element.
pub open spec fn values(s: Seq<AoType>) -> Seq<Val>
    decreases s,
{
    if s.len() == 0 {
        Seq::empty()
    } else {
        seq![s[0].value()] + values(s.subrange(1, s.len() as int))
    }
}

/// `values` keeps the length and maps each element to its model.
pub proof fn lemma_values(s: Seq<AoType>)
    ensures
        values(s).len() == s.len(),
        forall|i: int| 0 <= i < s.len() ==> #[trigger] values(s)[i] == s[i].value(),
    decreases s.len(),
{
    if s.len() > 0 {
        let t = s.subrange(1, s.len() as int);
        lemma_values(t);
        assert forall|i: int| 0 <= i < s.len() implies #[trigger] values(s)[i] == s[i].value() by {
            if i > 0 {
                assert(values(s)[i] == values(t)[i - 1]);
                assert(t[i - 1] == s[i]);
            }
        }
    }
}

/// Two sequences whose elements have the same models have the same models.
pub proof fn lemma_values_ext(a: Seq<AoType>, b: Seq<AoType>)
    requires
        a.len() == b.len(),
        forall|i: int| 0 <= i < a.len() ==> #[trigger] a[i].value() == b[i].value(),
    ensures
        values(a) == values(b),
{
    lemma_values(a);
    lemma_values(b);
    assert(values(a) =~= values(b));
}

/// The models of a sequence after one more value is pushed.
pub proof fn lemma_values_push(s: Seq<AoType>, x: AoType)
    ensures
        values(s.push(x)) == values(s).push(x.value()),
{
    lemma_values(s);
    lemma_values(s.push(x));
    assert(values(s.push(x)) =~= values(s).push(x.value()));
}

/// The models of a sequence after its last value is removed.
pub proof fn lemma_values_drop_last(s: Seq<AoType>)
    requires
        s.len() > 0,
    ensures
        values(s.drop_last()) == values(s).drop_last(),
        values(s).last() == s.last().value(),
{
    lemma_values(s);
    lemma_values(s.drop_last());
    assert(values(s.drop_last()) =~= values(s).drop_last());
}

impl Clone for AoType {
    fn clone(&self) -> Self {
        self.duplicate()
    }
}

impl AoType {
    /// Turns a quoted list into a procedure body.
    pub fn to_fct(&self) -> (r: Option<AoType>)
        ensures
            match self.value() {
                Val::Lst(l) => r is Some && r->0.value() == Val::Fct(l),
                _ => r is None,
            },
    {
        match self {
            AoType::Lst(lst) => Some(AoType::Fct(duplicate_all(lst))),
            _ => None,
        }
    }

    /// A copy of this value with the same model.
    pub fn duplicate(&self) -> (r: AoType)
        ensures
            r.value() == self.value(),
        decreases self,
    {
        match self {
            AoType::Str(s) => AoType::Str(Box::new((**s).clone())),
            AoType::Tkn(s) => AoType::Tkn(Box::new((**s).clone())),
            AoType::Int(i) => AoType::Int(Box::new(**i)),
            AoType::Opr(s) => AoType::Opr(Box::new((**s).clone())),
            AoType::Ass(v) => AoType::Ass(duplicate_names(v)),
            AoType::Var(s) => AoType::Var(Box::new((**s).clone())),
            AoType::Cmd(c) => AoType::Cmd(*c),
            AoType::Fct(v) => AoType::Fct(duplicate_all(v)),
            AoType::Lst(v) => AoType::Lst(duplicate_all(v)),
            AoType::Spc => AoType::Spc,
            AoType::Bool(b) => AoType::Bool(*b),
            AoType::Tup(v) => AoType::Tup(duplicate_names(v)),
        }
    }
}

/// A copy of a list of names.
pub fn duplicate_names(v: &Vec<Box<String>>) -> (r: Vec<Box<String>>)
    ensures
        r.deep_view() == v.deep_view(),
{
    let mut r: Vec<Box<String>> = Vec::new();
    let mut i: usize = 0;
    while i < v.len()
        invariant
            i <= v.len(),
            r@.len() == i,
            forall|j: int| 0 <= j < i ==> #[trigger] r@[j]@ == v@[j]@,
        decreases v.len() - i,
    {
        r.push(Box::new((*v[i]).clone()));
        i += 1;
    }
    assert(r.deep_view() =~= v.deep_view());
    r
}

/// A copy of a list of values with the same models.
pub fn duplicate_all(v: &Vec<AoType>) -> (r: Vec<AoType>)
    ensures
        values(r@) == values(v@),
        r@.len() == v@.len(),
    decreases v,
{
    let mut r: Vec<AoType> = Vec::new();
    let mut i: usize = 0;
    while i < v.len()
        invariant
            i <= v.len(),
            r@.len() == i,
            forall|j: int| 0 <= j < i ==> #[trigger] r@[j].value() == v@[j].value(),
        decreases v.len() - i,
    {
        let x = v[i].duplicate();
        r.push(x);
        i += 1;
    }
    proof {
        lemma_values_ext(r@, v@);
    }
    r
}

} // verus!
