use aor1::ao2;
use aor1::ao3;
use aor1::demo;
use aor1::uri::{self, Host, Scheme};

fn run2(code: &str) -> (Result<(), aor1::Fault>, String) {
    let (_, (items, _)) = ao2::l_ao_all(code).unwrap();
    let mut env = ao2::Env::new();
    let mut st: Vec<ao2::AoType> = Vec::new();
    let mut r = Ok(());
    for v in items {
        r = ao2::eval(v, &mut env, &mut st);
        if r.is_err() {
            break;
        }
    }
    (r, format!("{:?}", st))
}

#[test]
fn early_reader_splits_at_spaces() {
    assert_eq!(ao3::test_parser_token("test 12"), (" 12", "test"));
    assert_eq!(ao3::token("1a 13 13 15"), (" 13 13 15", "1a"));
    let (rest, toks) = ao3::lToken("test \"13\" 13 15");
    assert_eq!(rest, "");
    assert_eq!(
        format!("{:?}", toks),
        "[Tkn(\"test\"), Tkn(\"\\\"13\\\"\"), Tkn(\"13\"), Tkn(\"15\")]"
    );
    let (_, toks) = ao3::lToken("a  b");
    assert_eq!(format!("{:?}", toks), "[Tkn(\"a\"), Tkn(\"\"), Tkn(\"b\")]");
    let (_, toks) = ao3::lToken("");
    assert_eq!(format!("{:?}", toks), "[Tkn(\"\")]");
    let (rest, t) = ao3::typ_token("x y");
    assert_eq!(rest, " y");
    assert_eq!(format!("{:?}", t), "Tkn(\"x\")");
}

#[test]
fn early_reader_strings() {
    assert_eq!(ao3::ao_string("\"test de ao string\""), Some(("", "test de ao string")));
    assert_eq!(ao3::ao_string("\"abc"), None);
    assert_eq!(ao3::ao_string("abc"), None);
    let (rest, strs) = ao3::lAoString(
        "\"test de ao string\" \"test de ao string 2\" \"test de ao string 3\"",
    );
    assert_eq!(rest, "");
    assert_eq!(
        format!("{:?}", strs),
        "[Str(\"test de ao string\"), Str(\"test de ao string 2\"), Str(\"test de ao string 3\")]"
    );
    let (rest, strs) = ao3::lAoString("x");
    assert_eq!(rest, "x");
    assert!(strs.is_empty());
    let (rest, v) = ao3::typ_string("\"a\" b").unwrap();
    assert_eq!(rest, " b");
    assert_eq!(format!("{:?}", v), "Str(\"a\")");
}

#[test]
fn early_reader_mixed_values() {
    assert_eq!(format!("{:?}", ao3::ao_all("12")), "(\"\", Tkn(\"12\"))");
    assert_eq!(
        format!("{:?}", ao3::ao_all("\"test de ao string\"")),
        "(\"\", Str(\"test de ao string\"))"
    );
    assert_eq!(
        format!("{:?}", ao3::l_ao_all("12 \"test de ao string\"")),
        "(\"\", ([Tkn(\"12\")], Some(Str(\"test de ao string\"))))"
    );
    assert_eq!(
        format!("{:?}", ao3::l_ao_all("12 13 \"x\" \"y\" 14 'olivier")),
        "(\"\", ([Tkn(\"12\"), Tkn(\"13\"), Str(\"x\"), Str(\"y\"), Tkn(\"14\")], Some(Tkn(\"'olivier\"))))"
    );
    assert_eq!(
        format!("{:?}", ao3::l_ao_all(" a")),
        "(\"\", ([Tkn(\"\")], Some(Tkn(\"a\"))))"
    );
    assert_eq!(
        format!("{:?}", ao3::l_ao_all("a  b")),
        "(\"\", ([Tkn(\"a\"), Tkn(\"\")], Some(Tkn(\"b\"))))"
    );
}

#[test]
fn earlier_interpreter_runs_captures_and_operators() {
    let (r, st) = run2("11 22 33 (v1 w1 x1) 44 $v1 $w1 $x1 + + *");
    assert_eq!(r, Ok(()));
    assert_eq!(st, "[Int(2904)]");
    let (r, st) = run2("12 13 + 14 +");
    assert_eq!(r, Ok(()));
    assert_eq!(st, "[Int(39)]");
}

#[test]
fn earlier_interpreter_takes_the_lower_value_as_left_operand() {
    assert_eq!(run2("10 3 -").1, "[Int(7)]");
    assert_eq!(run2("10 2 /").1, "[Int(5)]");
    assert_eq!(run2("2 10 /").1, "[Int(0)]");
    assert_eq!(run2("0 5 /").1, "[Int(0)]");
    assert_eq!(run2("5 0 /").0, Err(aor1::Fault::DivisionByZero));
    assert_eq!(run2("10 20 (x y) $x").1, "[Int(10)]");
    assert_eq!(run2("+").0, Err(aor1::Fault::StackUnderflow));
    assert_eq!(run2("1 'a +").0, Err(aor1::Fault::NotAnInteger));
}

#[test]
fn earlier_reader_values() {
    let (rest, (items, last)) = ao2::l_ao_all("12 13 'tkn \"str 1\" 14 'var1 +").unwrap();
    assert_eq!(rest, "");
    assert_eq!(
        format!("{:?}", items),
        "[Int(12), Int(13), Tkn(\"tkn\"), Str(\"str 1\"), Int(14), Tkn(\"var1\"), Opr(\"+\")]"
    );
    assert_eq!(format!("{:?}", last), "Some(Opr(\"+\"))");
    let (_, (items, _)) = ao2::l_ao_all("(112 113)").unwrap();
    assert_eq!(format!("{:?}", items), "[Ass([\"112\", \"113\"])]");
    assert_eq!(ao2::l_ao_all("").err(), Some(aor1::Fault::EmptyNumber));
    assert_eq!(ao2::l_ao_all("abc").err(), Some(aor1::Fault::EmptyNumber));
}

#[test]
fn earlier_operators_and_test() {
    let n = |i: i32| ao2::AoType::Int(Box::new(i));
    assert_eq!(format!("{:?}", ao2::add(n(2), n(3))), "Int(5)");
    assert_eq!(format!("{:?}", ao2::sub(n(2), n(3))), "Int(-1)");
    assert_eq!(format!("{:?}", ao2::mul(n(2), n(3))), "Int(6)");
    assert_eq!(format!("{:?}", ao2::div(n(7), n(2))), "Int(3)");
    let mut st: Vec<ao2::AoType> = Vec::new();
    ao2::test(&mut st);
    assert_eq!(format!("{:?}", st), "[Str(\"test\")]");
}

#[test]
fn stack_demo_pushes_and_pops() {
    let mut st: Vec<demo::AoType> = vec![demo::AoType::Int(Box::new(1))];
    demo::test(&mut st);
    assert_eq!(format!("{:?}", st), "[Int(1), Str(\"test\")]");
    demo::test_2(&mut st);
    assert_eq!(format!("{:?}", st), "[Int(1)]");
    demo::test_2(&mut st);
    demo::test_2(&mut st);
    assert!(st.is_empty());
}

#[test]
fn uri_schemes() {
    assert_eq!(uri::scheme("https://yay"), Ok(Some(("yay", Scheme::HTTPS))));
    assert_eq!(uri::scheme("HTTP://x"), Ok(Some(("x", Scheme::HTTP))));
    assert_eq!(uri::scheme("hTtPs://"), Ok(Some(("", Scheme::HTTPS))));
    assert_eq!(uri::scheme("bla://yay"), Ok(None));
    assert_eq!(Scheme::from("HTTP://"), Scheme::HTTP);
    assert_eq!(Scheme::try_from_text("ftp://"), None);
}

#[test]
fn uri_authority() {
    assert_eq!(
        uri::authority("username:password@zupzup.org"),
        Some(("zupzup.org", ("username", Some("password"))))
    );
    assert_eq!(uri::authority("user@x"), Some(("x", ("user", None))));
    assert_eq!(uri::authority("user:@x"), Some(("x", ("user", None))));
    assert_eq!(uri::authority("nope"), None);
}

#[test]
fn uri_hosts() {
    assert_eq!(uri::host("localhost:8080"), Some((":8080", Host::HOST(String::from("localhost")))));
    assert_eq!(uri::host("example.org:8080"), Some((":8080", Host::HOST(String::from("example.org")))));
    assert_eq!(
        uri::host("some-subsite.example.org:8080"),
        Some((":8080", Host::HOST(String::from("some-subsite.example.org"))))
    );
    assert_eq!(uri::host("a.1"), Some((".1", Host::HOST(String::from("a")))));
    assert_eq!(uri::host(":x"), None);
}

#[test]
fn uri_addresses() {
    assert_eq!(uri::ip("192.168.0.1:8080"), Some((":8080", Host::IP([192, 168, 0, 1]))));
    assert_eq!(uri::ip("256.1.1.1"), None);
    assert_eq!(uri::ip("1.2.3"), None);
    assert_eq!(uri::ip_num("255"), Some(("", 255)));
    assert_eq!(uri::ip_num("256"), None);
    assert_eq!(uri::ip_num("1234"), Some(("4", 123)));
    assert_eq!(uri::n_to_m_digits(1, 3, "12345"), Some(("45", String::from("123"))));
    assert_eq!(uri::n_to_m_digits(2, 3, "1x"), None);
    assert_eq!(uri::n_to_m_digits(3, 2, "123"), None);
}

#[test]
fn uri_paths_and_runs() {
    assert_eq!(uri::path("/a/b/c?d"), Some(("?d", vec!["a", "b", "c"])));
    assert_eq!(uri::path("/"), Some(("", vec![])));
    assert_eq!(uri::path("/a/"), Some(("", vec!["a"])));
    assert_eq!(uri::path("a"), None);
    assert_eq!(uri::alphanumerichyphen1("ab-c.d"), Some((".d", "ab-c")));
    assert_eq!(uri::alphanumerichyphen1(".d"), None);
    assert_eq!(uri::url_code_points("a.b-c/d"), Some(("/d", "a.b-c")));
}
