use aor1::editing::{editor_step, EditorAction, EditorKey};
use aor1::arith;
use aor1::{call_interp, interp, interp_ao_type, l_ao_all, run_program, AoKeyword, AoType, Env, Fault};

fn run(code: &str) -> (Result<(), Fault>, Vec<AoType>, Env) {
    let mut env = Env::new();
    let mut st: Vec<AoType> = Vec::new();
    let r = interp(code, &mut env, &mut st);
    (r, st, env)
}

fn stack_text(st: &Vec<AoType>) -> String {
    format!("{:?}", st)
}

fn num(i: i32) -> AoType {
    AoType::Int(Box::new(i))
}

fn text(s: &str) -> Box<String> {
    Box::new(String::from(s))
}

#[test]
fn procedure_in_a_variable_is_evaluated_twice() {
    let (r, st, _) = run("[(x) 10 $x *] (add) 1 2 + $add eval $add eval");
    assert_eq!(r, Ok(()));
    assert_eq!(stack_text(&st), "[Int(300)]");
}

#[test]
fn comparisons_push_one_or_zero() {
    let (r, st, _) = run("10 2 > 7 6 <");
    assert_eq!(r, Ok(()));
    assert_eq!(stack_text(&st), "[Int(1), Int(0)]");
}

#[test]
fn if_runs_the_branch_only_on_one() {
    let (r, st, _) = run("[2 0 >] ['Done] if [0 0 >] ['Done2] if");
    assert_eq!(r, Ok(()));
    assert_eq!(stack_text(&st), "[Tkn(\"Done\")]");
}

#[test]
fn captures_and_list_procedures() {
    let (r, st, env) = run(
        "10 (x5) $x5 1 - (x5) $x5 1 - (x5) $x5 1 - (x5) [(x6) $x6 1 -] (moinsun) $x5 $moinsun eval (x5) $x5 $moinsun eval (x5)",
    );
    assert_eq!(r, Ok(()));
    assert!(st.is_empty());
    assert_eq!(format!("{:?}", env.get("x5")), "Some(Int(5))");
    assert_eq!(format!("{:?}", env.get("x6")), "Some(Int(6))");
}

#[test]
fn while_loop_counts_down() {
    let (r, st, env) = run(
        "10 (x5)    \n                  [$x5 0 >] \n                  [$x5 1 - (x5) \n                  'wdone] \n                  while",
    );
    assert_eq!(r, Ok(()));
    assert_eq!(st.len(), 10);
    for v in st.iter() {
        assert_eq!(format!("{:?}", v), "Tkn(\"wdone\")");
    }
    assert_eq!(format!("{:?}", env.get("x5")), "Some(Int(0))");
}

#[test]
fn def_binds_a_procedure_that_a_bare_word_runs() {
    let (r, st, env) = run("10 (x5)    \n                  [$x5 5 >] \n                  'tsup def 4 (x5) $x5 2 - tsup");
    assert_eq!(r, Ok(()));
    assert_eq!(stack_text(&st), "[Int(2), Int(0)]");
    assert_eq!(
        format!("{:?}", env.get("tsup")),
        "Some(Fct([Var(\"x5\"), Int(5), Opr(\">\")]))"
    );
}

#[test]
fn reading_a_program_gives_the_values_and_the_last() {
    let r = l_ao_all("1 2 + [3 3 +] (x) $x 4 +");
    let (rest, (items, last)) = r.unwrap();
    assert_eq!(rest, "");
    assert_eq!(
        format!("{:?}", items),
        "[Int(1), Int(2), Opr(\"+\"), Lst([Int(3), Int(3), Opr(\"+\")]), Ass([\"x\"]), Var(\"x\"), Int(4), Opr(\"+\")]"
    );
    assert_eq!(format!("{:?}", last), "Some(Opr(\"+\"))");
}

#[test]
fn evaluating_a_captured_list() {
    let (r, st, _) = run("1 2 + [3 3 +] (x) $x eval 4 +");
    assert_eq!(r, Ok(()));
    assert_eq!(stack_text(&st), "[Int(3), Int(10)]");
}

#[test]
fn state_carries_over_between_runs() {
    let mut env = Env::new();
    let mut st: Vec<AoType> = Vec::new();
    assert_eq!(interp("7 (a)", &mut env, &mut st), Ok(()));
    assert_eq!(interp("$a $a *", &mut env, &mut st), Ok(()));
    assert_eq!(stack_text(&st), "[Int(49)]");
}

#[test]
fn subtraction_and_division_take_the_lower_value_first() {
    assert_eq!(stack_text(&run("10 3 -").1), "[Int(7)]");
    assert_eq!(stack_text(&run("10 3 /").1), "[Int(3)]");
    assert_eq!(stack_text(&run("7 2 *").1), "[Int(14)]");
    assert_eq!(stack_text(&run("0 7 - 2 /").1), "[Int(-3)]");
}

#[test]
fn capture_binds_in_push_order() {
    let (r, st, env) = run("10 20 (x y)");
    assert_eq!(r, Ok(()));
    assert!(st.is_empty());
    assert_eq!(format!("{:?}", env.get("x")), "Some(Int(10))");
    assert_eq!(format!("{:?}", env.get("y")), "Some(Int(20))");
    assert_eq!(run("1 (x y)").0, Err(Fault::StackUnderflow));
}

#[test]
fn capture_names_may_hold_underscores() {
    let (r, st, env) = run("1 2 3 (a _ b) $_ $a $b +");
    assert_eq!(r, Ok(()));
    assert_eq!(stack_text(&st), "[Int(2), Int(4)]");
    assert_eq!(format!("{:?}", env.get("a")), "Some(Int(1))");
    assert_eq!(format!("{:?}", env.get("_")), "Some(Int(2))");
    assert_eq!(format!("{:?}", env.get("b")), "Some(Int(3))");
}

#[test]
fn capture_then_read_gives_the_value_back() {
    let (r, st, env) = run("10 (k) $k");
    assert_eq!(r, Ok(()));
    assert_eq!(stack_text(&st), "[Int(10)]");
    assert_eq!(format!("{:?}", env.get("k")), "Some(Int(10))");
}

#[test]
fn running_in_two_parts_is_running_the_whole() {
    let code_a = l_ao_all("1 2").unwrap().1 .0;
    let code_b = l_ao_all("+ 5 *").unwrap().1 .0;
    let whole = l_ao_all("1 2 + 5 *").unwrap().1 .0;
    let mut env1 = Env::new();
    let mut st1: Vec<AoType> = Vec::new();
    assert_eq!(interp_ao_type(&code_a, &mut env1, &mut st1), Ok(()));
    assert_eq!(interp_ao_type(&code_b, &mut env1, &mut st1), Ok(()));
    let mut env2 = Env::new();
    let mut st2: Vec<AoType> = Vec::new();
    assert_eq!(interp_ao_type(&whole, &mut env2, &mut st2), Ok(()));
    assert_eq!(stack_text(&st1), stack_text(&st2));
    assert_eq!(stack_text(&st1), "[Int(15)]");
}

#[test]
fn unbound_variable_does_nothing() {
    let (r, st, _) = run("1 $nothing");
    assert_eq!(r, Ok(()));
    assert_eq!(stack_text(&st), "[Int(1)]");
}

#[test]
fn faults_of_the_evaluator() {
    assert_eq!(run("+").0, Err(Fault::StackUnderflow));
    assert_eq!(run("1 +").0, Err(Fault::StackUnderflow));
    assert_eq!(run("1 'a +").0, Err(Fault::NotAnInteger));
    assert_eq!(run("2147483647 1 +").0, Err(Fault::Overflow));
    assert_eq!(run("1 0 /").0, Err(Fault::DivisionByZero));
    assert_eq!(run("0 2147483647 - 1 - 0 1 - /").0, Err(Fault::Overflow));
    assert_eq!(run("3 'x def").0, Err(Fault::NotAList));
    assert_eq!(run("eval").0, Err(Fault::StackUnderflow));
    assert_eq!(run("[1] if").0, Err(Fault::StackUnderflow));
    assert_eq!(run("[1] while").0, Err(Fault::StackUnderflow));
    assert_eq!(run("[0] [2] while").0, Ok(()));
    assert_eq!(run("'a [2] while").0, Err(Fault::StackUnderflow));
}

#[test]
fn faults_of_the_lexer() {
    assert_eq!(run("1 )").0, Err(Fault::EmptyNumber));
    assert_eq!(run("[1 ?]").0, Err(Fault::EmptyNumber));
    assert_eq!(run("99999999999").0, Err(Fault::NumberTooLarge));
    assert_eq!(l_ao_all("2147483648").err(), Some(Fault::NumberTooLarge));
    assert!(l_ao_all("2147483647").is_ok());
}

#[test]
fn unread_text_is_ignored_and_a_lexing_fault_runs_nothing() {
    let mut env = Env::new();
    let mut st: Vec<AoType> = vec![num(4)];
    assert_eq!(interp("1 2]]", &mut env, &mut st), Ok(()));
    assert_eq!(stack_text(&st), "[Int(4), Int(1), Int(2)]");
    let mut st2: Vec<AoType> = vec![num(4)];
    assert_eq!(interp("1 2 )", &mut env, &mut st2), Err(Fault::EmptyNumber));
    assert_eq!(stack_text(&st2), "[Int(4)]");
    let mut st3: Vec<AoType> = vec![num(4)];
    assert_eq!(call_interp("(x", &mut env, &mut st3), Err(Fault::EmptyNumber));
    assert_eq!(stack_text(&st3), "[Int(4)]");
}

#[test]
fn words_of_the_grammar() {
    let items = |s: &str| format!("{:?}", l_ao_all(s).unwrap().1 .0);
    assert_eq!(items("x5y"), "[Var(\"x5y\")]");
    assert_eq!(items("abc1 x"), "[Var(\"abc1\"), Var(\"x\")]");
    assert_eq!(items("_a-b $_"), "[Var(\"_a-b\"), Var(\"_\")]");
    assert_eq!(items("(a _ b)"), "[Ass([\"a\", \"_\", \"b\"])]");
    assert_eq!(items("abc"), "[Var(\"abc\")]");
    assert_eq!(items("$abc9"), "[Var(\"abc9\")]");
    assert_eq!(items("(a b)"), "[Ass([\"a\", \"b\"])]");
    assert_eq!(items("(a b )"), "[Ass([\"a\", \"b\"])]");
    assert_eq!(items("()"), "[Ass([])]");
    assert_eq!(items("\"hello world\""), "[Str(\"hello world\")]");
    assert_eq!(items("'sym"), "[Tkn(\"sym\")]");
    assert_eq!(items("'"), "[Tkn(\"\")]");
    assert_eq!(items("'\u{e9}t\u{e9}"), "[Tkn(\"\u{e9}t\u{e9}\")]");
    assert_eq!(items("eval if while def"), "[Cmd(Eval), Cmd(If), Cmd(While), Cmd(Def)]");
    assert_eq!(
        items("ifelse dup swap first rest cat len map"),
        "[Cmd(IfElse), Cmd(Dup), Cmd(Swap), Cmd(First), Cmd(Rest), Cmd(Cat), Cmd(Len), Cmd(MapOver)]"
    );
    assert_eq!(items("evaluate define iffy"), "[Var(\"evaluate\"), Var(\"define\"), Var(\"iffy\")]");
    assert_eq!(items("<= >= == !="), "[Opr(\"<=\"), Opr(\">=\"), Opr(\"==\"), Opr(\"!=\")]");
    assert_eq!(items("+ - * / > <"), "[Opr(\"+\"), Opr(\"-\"), Opr(\"*\"), Opr(\"/\"), Opr(\">\"), Opr(\"<\")]");
    assert_eq!(items("007"), "[Int(7)]");
    assert_eq!(items("1\t2\n3  \r 4"), "[Int(1), Int(2), Int(3), Int(4)]");
}

#[test]
fn white_space_around_values() {
    let items = |s: &str| format!("{:?}", l_ao_all(s).unwrap());
    assert_eq!(items(""), "(\"\", ([], None))");
    assert_eq!(items("1 2 "), "(\"\", ([Int(1), Int(2)], None))");
    assert_eq!(items("  1\n    [2\n  3 ]\n"), "(\"\", ([Int(1), Lst([Int(2), Int(3)])], None))");
    assert_eq!(items("[]"), "(\"\", ([Lst([])], Some(Lst([]))))");
    assert_eq!(items("[ ]"), "(\"\", ([Lst([])], Some(Lst([]))))");
    let (r, st, _) = run("[]");
    assert_eq!(r, Ok(()));
    assert_eq!(stack_text(&st), "[Lst([])]");
    assert_eq!(run("").0, Ok(()));
}

#[test]
fn reading_stops_where_no_white_space_follows() {
    let (rest, (items, last)) = l_ao_all("abc(").unwrap();
    assert_eq!(rest, "(");
    assert_eq!(format!("{:?}", items), "[Var(\"abc\")]");
    assert_eq!(format!("{:?}", last), "Some(Var(\"abc\"))");
    let (rest, (items, _)) = l_ao_all("'ab-c").unwrap();
    assert_eq!(rest, "-c");
    assert_eq!(format!("{:?}", items), "[Tkn(\"ab\")]");
    let (rest, (items, _)) = l_ao_all("-5").unwrap();
    assert_eq!(rest, "5");
    assert_eq!(format!("{:?}", items), "[Opr(\"-\")]");
}

#[test]
fn to_fct_turns_only_lists_into_procedures() {
    let l = AoType::Lst(vec![num(1), num(2)]);
    assert_eq!(format!("{:?}", l.to_fct()), "Some(Fct([Int(1), Int(2)]))");
    assert!(num(3).to_fct().is_none());
}

#[test]
fn duplicate_keeps_the_value() {
    let v = AoType::Lst(vec![num(1), AoType::Ass(vec![text("a")]), AoType::Cmd(AoKeyword::While)]);
    assert_eq!(format!("{:?}", v.duplicate()), format!("{:?}", v));
    assert_eq!(format!("{:?}", v.clone()), format!("{:?}", v));
}

#[test]
fn operators_on_integers() {
    assert_eq!(format!("{:?}", arith::add(num(2), num(3))), "Int(5)");
    assert_eq!(format!("{:?}", arith::sub(num(3), num(10))), "Int(7)");
    assert_eq!(format!("{:?}", arith::mul(num(3), num(10))), "Int(30)");
    assert_eq!(format!("{:?}", arith::div(num(3), num(10))), "Int(3)");
    assert_eq!(format!("{:?}", arith::div(num(3), num(-10))), "Int(-3)");
    assert_eq!(format!("{:?}", arith::sup(num(2), num(10))), "Int(1)");
    assert_eq!(format!("{:?}", arith::sup(num(10), num(2))), "Int(0)");
    assert_eq!(format!("{:?}", arith::inf(num(2), num(10))), "Int(0)");
    assert_eq!(format!("{:?}", arith::inf(num(10), num(2))), "Int(1)");
    assert_eq!(format!("{:?}", arith::inf(num(2), num(2))), "Int(0)");
}

#[test]
fn shown_text_of_values() {
    assert_eq!(num(5).fmt(), "Int 5");
    assert_eq!(num(-12).fmt(), "Int -12");
    assert_eq!(AoType::Str(text("a\"b")).fmt(), "Str \"a\\\"b\"");
    assert_eq!(AoType::Tkn(text("t")).fmt(), "Tkn \"t\"");
    assert_eq!(AoType::Opr(text("+")).fmt(), "Opr \"+\"");
    assert_eq!(AoType::Var(text("v")).fmt(), "Var \"v\"");
    assert_eq!(AoType::Ass(vec![text("x"), text("y")]).fmt(), "Ass [\"x\", \"y\"]");
    assert_eq!(AoType::Cmd(AoKeyword::Def).fmt(), "Cmd Def");
    assert_eq!(AoType::Spc.fmt(), "");
    let inner = vec![num(1), AoType::Opr(text("+")), AoType::Lst(vec![AoType::Spc])];
    assert_eq!(AoType::Lst(inner.clone()).fmt(), format!("Lst [{:?}]", inner));
    assert_eq!(AoType::Fct(inner.clone()).fmt(), format!("Fct [{:?}]", inner));
    assert_eq!(AoType::Lst(vec![]).fmt(), "Lst [[]]");
}

#[test]
fn call_interp_runs_a_program() {
    let mut env = Env::new();
    let mut st: Vec<AoType> = Vec::new();
    assert_eq!(call_interp("6 7 *", &mut env, &mut st), Ok(()));
    assert_eq!(stack_text(&st), "[Int(42)]");
}

#[test]
fn quoting_then_eval_runs_the_list() {
    let (r, st, _) = run("[1 2 +] eval");
    assert_eq!(r, Ok(()));
    assert_eq!(stack_text(&st), "[Int(3)]");
    let (r, st, _) = run("5 'x eval");
    assert_eq!(r, Ok(()));
    assert_eq!(stack_text(&st), "[Int(5)]");
}

#[test]
fn def_then_naming_runs_the_body() {
    let (r, st, env) = run("[1 2 +] 'k def k");
    assert_eq!(r, Ok(()));
    assert_eq!(stack_text(&st), "[Int(3)]");
    assert_eq!(format!("{:?}", env.get("k")), "Some(Fct([Int(1), Int(2), Opr(\"+\")]))");
    let (r, st, _) = run("[1 2 +] 'k def $k");
    assert_eq!(r, Ok(()));
    assert_eq!(stack_text(&st), "[Int(3)]");
    let (r, st, _) = run("[1] 5 def");
    assert_eq!(r, Ok(()));
    assert!(st.is_empty());
}

#[test]
fn list_words() {
    assert_eq!(stack_text(&run("[1 2 3] first").1), "[Int(1)]");
    assert_eq!(stack_text(&run("[1 2 3] rest").1), "[Lst([Int(2), Int(3)])]");
    assert_eq!(stack_text(&run("[] rest").1), "[Lst([])]");
    assert_eq!(
        stack_text(&run("[1 2 3] [4 5 6] cat").1),
        "[Lst([Int(1), Int(2), Int(3), Int(4), Int(5), Int(6)])]"
    );
    assert_eq!(stack_text(&run("\"ab\" \"cd\" cat 'x 'y cat").1), "[Str(\"abcd\"), Tkn(\"xy\")]");
    assert_eq!(stack_text(&run("[1 2 3] len \"abcd\" len [] len").1), "[Int(3), Int(4), Int(0)]");
    assert_eq!(stack_text(&run("[1 2 3] [dup *] map").1), "[Lst([Int(1), Int(4), Int(9)])]");
    assert_eq!(stack_text(&run("[] [dup *] map").1), "[Lst([])]");
    assert_eq!(run("[] first").0, Err(Fault::EmptyList));
    assert_eq!(run("5 first").0, Err(Fault::NotAList));
    assert_eq!(run("5 rest").0, Err(Fault::NotAList));
    assert_eq!(run("[1] 'a cat").0, Err(Fault::NotAList));
    assert_eq!(run("'a len").0, Err(Fault::NotAList));
    assert_eq!(run("5 [dup] map").0, Err(Fault::NotAList));
    assert_eq!(run("[1 2] [+] map").0, Err(Fault::StackUnderflow));
}

#[test]
fn stack_words() {
    assert_eq!(stack_text(&run("5 [dup dup dup] eval").1), "[Int(5), Int(5), Int(5), Int(5)]");
    assert_eq!(stack_text(&run("1 2 swap").1), "[Int(2), Int(1)]");
    assert_eq!(run("dup").0, Err(Fault::StackUnderflow));
    assert_eq!(run("1 swap").0, Err(Fault::StackUnderflow));
    assert_eq!(
        stack_text(&run("3 [dup 0 >] [dup 1 -] while").1),
        "[Int(3), Int(2), Int(1), Int(0)]"
    );
}

#[test]
fn two_character_comparisons() {
    assert_eq!(stack_text(&run("3 3 == 3 4 == 2 3 <= 4 3 <= 3 2 >= 3 4 >= 3 2 != 2 2 !=").1),
        "[Int(1), Int(0), Int(1), Int(0), Int(1), Int(0), Int(1), Int(0)]");
    assert_eq!(run("1 'a ==").0, Err(Fault::NotAnInteger));
}

#[test]
fn ifelse_runs_one_branch() {
    assert_eq!(stack_text(&run("5 (a) [$a 2 >] ['big] ['small] ifelse").1), "[Tkn(\"big\")]");
    assert_eq!(stack_text(&run("1 (a) [$a 2 >] ['big] ['small] ifelse").1), "[Tkn(\"small\")]");
    assert_eq!(run("[1] [2] ifelse").0, Err(Fault::StackUnderflow));
}

#[test]
fn repeat_procedure_runs_its_list_three_times() {
    let (r, st, env) = run(
        "[(n l)\n    [$n 0 >]\n    [$l eval $n 1 - (n)]\n    while\n] 'repeat def\n3 [\"Hello!\"] repeat\n",
    );
    assert_eq!(r, Ok(()));
    assert_eq!(stack_text(&st), "[Str(\"Hello!\"), Str(\"Hello!\"), Str(\"Hello!\")]");
    assert!(format!("{:?}", env.get("repeat")).starts_with("Some(Fct("));
    assert_eq!(format!("{:?}", env.get("n")), "Some(Int(0))");
}

#[test]
fn evaluating_one_value() {
    let mut env = Env::new();
    let mut out: Vec<String> = Vec::new();
    let mut st: Vec<AoType> = vec![num(2), num(5)];
    assert_eq!(aor1::machine::eval(AoType::Opr(text("-")), &mut env, &mut st, &mut out, 10), Ok(()));
    assert_eq!(stack_text(&st), "[Int(-3)]");
    let body = vec![num(1), AoType::Opr(text("+"))];
    assert_eq!(aor1::machine::eval(AoType::Fct(body.clone()), &mut env, &mut st, &mut out, 1), Ok(()));
    assert_eq!(stack_text(&st), "[Int(-2)]");
    assert_eq!(
        aor1::machine::eval(AoType::Fct(body), &mut env, &mut st, &mut out, 0),
        Err(Fault::DepthExhausted)
    );
    assert_eq!(aor1::machine::eval(AoType::Cmd(AoKeyword::PrintNl), &mut env, &mut st, &mut out, 0), Ok(()));
    assert_eq!(out, vec![String::from("-2")]);
    assert!(st.is_empty());
}

fn run_printing(code: &str) -> (Result<(), Fault>, Vec<AoType>, Vec<String>) {
    let mut env = Env::new();
    let mut st: Vec<AoType> = Vec::new();
    let mut out: Vec<String> = Vec::new();
    let r = run_program(code, &mut env, &mut st, &mut out);
    (r, st, out)
}

#[test]
fn printnl_prints_a_line() {
    let (r, st, out) = run_printing(
        "[(n l)\n    [$n 0 >]\n    [$l eval $n 1 - (n)]\n    while\n] 'repeat def\n3 [\"Hello!\" printnl] repeat\n",
    );
    assert_eq!(r, Ok(()));
    assert!(st.is_empty());
    assert_eq!(out, vec!["Hello!", "Hello!", "Hello!"]);
    let (r, st, out) = run_printing("3 [dup 0 >] [dup printnl 1 -] while");
    assert_eq!(r, Ok(()));
    assert_eq!(stack_text(&st), "[Int(0)]");
    assert_eq!(out, vec!["3", "2", "1"]);
    let (_, _, out) = run_printing("5 (a) [$a 2 >] [\"a is > 2\" printnl] if");
    assert_eq!(out, vec!["a is > 2"]);
    let (_, _, out) = run_printing("#t printnl 'sym printnl [1 2] printnl 0 7 - printnl");
    assert_eq!(out, vec!["#t", "sym", "Lst [[Int(1), Int(2)]]", "-7"]);
    assert_eq!(run_printing("printnl").0, Err(Fault::StackUnderflow));
    let (r, st, out) = run_printing("1 2 )");
    assert_eq!(r, Err(Fault::EmptyNumber));
    assert!(st.is_empty() && out.is_empty());
}

#[test]
fn booleans() {
    assert_eq!(stack_text(&run("#t #f").1), "[Bool(true), Bool(false)]");
    assert_eq!(stack_text(&run("[#t] ['yes] if [#f] ['no] if").1), "[Tkn(\"yes\")]");
    assert_eq!(stack_text(&run("[#f] ['yes] ['no] ifelse").1), "[Tkn(\"no\")]");
    assert_eq!(stack_text(&run("1 [#f] [2] while").1), "[Int(1)]");
    assert_eq!(AoType::Bool(true).fmt(), "Bool #t");
    assert_eq!(AoType::Bool(false).fmt(), "Bool #f");
    assert_eq!(format!("{:?}", l_ao_all("#x").err()), "Some(EmptyNumber)");
}

#[test]
fn quoted_tuples() {
    let (r, st, _) = run("'(a b c) '(x_1)");
    assert_eq!(r, Ok(()));
    assert_eq!(stack_text(&st), "[Tup([\"a\", \"b\", \"c\"]), Tup([\"x_1\"])]");
    assert_eq!(
        AoType::Tup(vec![text("a"), text("b")]).fmt(),
        "Tup [\"a\", \"b\"]"
    );
    let v = AoType::Tup(vec![text("a")]);
    assert_eq!(format!("{:?}", v.duplicate()), "Tup([\"a\"])");
}

#[test]
fn editor_keys() {
    assert_eq!(editor_step(EditorKey::Escape), EditorAction::Quit);
    assert_eq!(editor_step(EditorKey::CtrlS), EditorAction::Save);
    assert_eq!(editor_step(EditorKey::CtrlR), EditorAction::Run);
    assert_eq!(editor_step(EditorKey::Other), EditorAction::Edit);
}

#[test]
fn two_runs_chain_into_one() {
    let a = l_ao_all("1 (x) $x printnl 2").unwrap().1 .0;
    let b = l_ao_all("$x + 'end printnl").unwrap().1 .0;
    let whole = l_ao_all("1 (x) $x printnl 2 $x + 'end printnl").unwrap().1 .0;
    let mut env1 = Env::new();
    let mut st1: Vec<AoType> = Vec::new();
    assert_eq!(interp_ao_type(&a, &mut env1, &mut st1), Ok(()));
    assert_eq!(interp_ao_type(&b, &mut env1, &mut st1), Ok(()));
    let mut env2 = Env::new();
    let mut st2: Vec<AoType> = Vec::new();
    let mut out: Vec<String> = Vec::new();
    assert_eq!(aor1::machine::run_values(&whole, &mut env2, &mut st2, &mut out), Ok(()));
    assert_eq!(stack_text(&st1), stack_text(&st2));
    assert_eq!(stack_text(&st1), "[Int(3)]");
    assert_eq!(format!("{:?}", env1.get("x")), format!("{:?}", env2.get("x")));
    assert_eq!(out, vec!["1", "end"]);
}
