//! The values of the first stack experiment, and two operations on a
//! stack of them.
use vstd::prelude::*;

verus! {

/// A value of the first stack experiment; its texts are borrowed.
#[derive(Debug)]
pub enum AoType<'a> {
    Str(Box<&'a str>),
    Tkn(Box<&'a str>),
    Int(Box<i32>),
    Opr(Box<&'a str>),
}

/// Pushes the string "test".
pub fn test<'a>(s: &mut Vec<AoType<'a>>)
    ensures
        final(s)@.len() == old(s)@.len() + 1,
        final(s)@.subrange(0, old(s)@.len() as int) == old(s)@,
        final(s)@.last() matches AoType::Str(t) && t@ == seq!['t', 'e', 's', 't'],
{
    proof {
        reveal_strlit("test");
    }
    let t: &str = "test";
    assert(t@ =~= seq!['t', 'e', 's', 't']);
    s.push(AoType::Str(Box::new(t)));
    assert(s@.subrange(0, old(s)@.len() as int) =~= old(s)@);
}

/// Removes the top of the stack, if there is one.
pub fn test_2<'a>(s: &mut Vec<AoType<'a>>)
    ensures
        old(s)@.len() == 0 ==> final(s)@ == old(s)@,
        old(s)@.len() > 0 ==> final(s)@ == old(s)@.drop_last(),
{
    s.pop();
}

} // verus!
