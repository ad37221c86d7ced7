//! Readers for the pieces of an http URI: the scheme, the user part, the
//! host (a dotted name or an IPv4 address) and the path.
//!
//! Each reader looks at the start of a text and gives the rest of the text
//! with what it read, or nothing where its piece does not start there.
use vstd::prelude::*;
use vstd::string::{StrSliceExecFns, StringExecFns};
use crate::value::Fault;
use crate::lexer::{CharClass, Scan, span, lemma_span, chars_of, span_exec, is_ascii_digit,
    digits_value};

verus! {

/// The schemes that the reader knows.
#[derive(Debug, Clone, Copy, PartialEq, Eq, Structural)]
pub enum Scheme {
    HTTP,
    HTTPS,
}

/// A user name and perhaps a password.
pub type Authority<'a> = (&'a str, Option<&'a str>);

/// A host: a dotted name, or the four numbers of an IPv4 address.
#[derive(Debug, PartialEq, Eq)]
pub enum Host {
    HOST(String),
    IP([u8; 4]),
}

/// A query parameter: a name and a value.
pub type QueryParam<'a> = (&'a str, &'a str);

/// The query parameters of a URI.
pub type QueryParams<'a> = Vec<QueryParam<'a>>;

/// The parts of a URI.
#[derive(Debug, PartialEq, Eq)]
#[allow(dead_code)]
pub struct URI<'a> {
    scheme: Scheme,
    authority: Option<Authority<'a>>,
    host: Host,
    port: Option<u16>,
    path: Option<Vec<&'a str>>,
    query: Option<QueryParams<'a>>,
    fragment: Option<&'a str>,
}

/// The lowercase mapping of an ASCII character: `A` to `Z` become `a` to
/// `z`, every other character stays.
pub open spec fn ascii_lower(c: char) -> char {
    if 'A' <= c && c <= 'Z' {
        ((c as u32) + 32) as char
    } else {
        c
    }
}

/// The lowercase mapping of a character, as `char::to_lowercase` yields it.
pub uninterp spec fn lowercase_char(c: char) -> Seq<char>;

/// Calls `char::to_lowercase` and collects what it yields. Claimed: the
/// result is the lowercase mapping of `c`, a function of `c` alone; for an
/// ASCII character it is that character with `A` to `Z` mapped to `a` to
/// `z`, as the documentation of `to_lowercase` and the Unicode tables give
/// it. The mapping of other characters is left unnamed.
#[verifier::external_body]
fn char_lowercase(c: char) -> (r: Vec<char>)
    ensures
        r@ == lowercase_char(c),
        (c as u32) < 128 ==> r@ == seq![ascii_lower(c)],
{
    c.to_lowercase().collect()
}

/// Whether two characters have the same lowercase mapping.
pub open spec fn lowercase_equal(a: char, b: char) -> bool {
    lowercase_char(a) == lowercase_char(b)
}

/// Whether two characters have the same lowercase mapping.
fn chars_lowercase_equal(a: char, b: char) -> (r: bool)
    ensures
        r == lowercase_equal(a, b),
{
    let x = char_lowercase(a);
    let y = char_lowercase(b);
    if x.len() != y.len() {
        return false;
    }
    let mut i: usize = 0;
    while i < x.len()
        invariant
            x@ == lowercase_char(a),
            y@ == lowercase_char(b),
            x@.len() == y@.len(),
            i <= x@.len(),
            forall|j: int| 0 <= j < i ==> x@[j] == y@[j],
        decreases x@.len() - i,
    {
        if x[i] != y[i] {
            return false;
        }
        i += 1;
    }
    assert(x@ =~= y@);
    true
}

/// The lowercase mapping of a text, as `str::to_lowercase` computes it.
pub uninterp spec fn lowercase_text(s: Seq<char>) -> Seq<char>;

/// Whether every character of a text is ASCII.
pub open spec fn all_ascii(s: Seq<char>) -> bool {
    forall|i: int| 0 <= i < s.len() ==> (#[trigger] s[i] as u32) < 128
}

/// Calls `str::to_lowercase`. Claimed: the result is the lowercase mapping
/// of the characters of `s`, a function of them alone; for an ASCII text it
/// maps each character as [`ascii_lower`] does, as the documentation of
/// `to_lowercase` gives it. The mapping of other texts is left unnamed.
#[verifier::external_body]
fn text_to_lowercase(s: &str) -> (r: String)
    ensures
        r@ == lowercase_text(s@),
        all_ascii(s@) ==> r@ == s@.map_values(|c: char| ascii_lower(c)),
{
    s.to_lowercase()
}

/// The first scheme word as the reader looks for it.
pub open spec fn http_tag() -> Seq<char> {
    seq!['H', 'T', 'T', 'P', ':', '/', '/']
}

/// The second scheme word as the reader looks for it.
pub open spec fn https_tag() -> Seq<char> {
    seq!['H', 'T', 'T', 'P', 'S', ':', '/', '/']
}

pub open spec fn http_text() -> Seq<char> {
    seq!['h', 't', 't', 'p', ':', '/', '/']
}

pub open spec fn https_text() -> Seq<char> {
    seq!['h', 't', 't', 'p', 's', ':', '/', '/']
}

/// The scheme named by a text, by its lowercase mapping.
pub open spec fn scheme_of(s: Seq<char>) -> Option<Scheme> {
    if lowercase_text(s) == http_text() {
        Some(Scheme::HTTP)
    } else if lowercase_text(s) == https_text() {
        Some(Scheme::HTTPS)
    } else {
        None
    }
}

fn is_word(s: &String, w: &Vec<char>) -> (r: bool)
    ensures
        r == (s@ == w@),
{
    let t = s.as_str();
    let n = t.unicode_len();
    if n != w.len() {
        return false;
    }
    let mut i: usize = 0;
    while i < n
        invariant
            n == t@.len(),
            n == w@.len(),
            t@ == s@,
            i <= n,
            forall|j: int| 0 <= j < i ==> t@[j] == w@[j],
        decreases n - i,
    {
        if t.get_char(i) != w[i] {
            return false;
        }
        i += 1;
    }
    assert(t@ =~= w@);
    true
}

impl Scheme {
    /// The scheme whose lowercase text is `http://` or `https://`.
    pub fn from(i: &str) -> (r: Scheme)
        requires
            scheme_of(i@) is Some,
        ensures
            scheme_of(i@) == Some(r),
    {
        let low = text_to_lowercase(i);
        let http: Vec<char> = vec!['h', 't', 't', 'p', ':', '/', '/'];
        let https: Vec<char> = vec!['h', 't', 't', 'p', 's', ':', '/', '/'];
        assert(http@ =~= http_text());
        assert(https@ =~= https_text());
        if is_word(&low, &http) {
            Scheme::HTTP
        } else if is_word(&low, &https) {
            Scheme::HTTPS
        } else {
            unreached()
        }
    }

    /// The scheme whose lowercase text is `http://` or `https://`; nothing
    /// for any other text.
    pub fn try_from_text(i: &str) -> (r: Option<Scheme>)
        ensures
            r == scheme_of(i@),
    {
        let low = text_to_lowercase(i);
        let http: Vec<char> = vec!['h', 't', 't', 'p', ':', '/', '/'];
        let https: Vec<char> = vec!['h', 't', 't', 'p', 's', ':', '/', '/'];
        assert(http@ =~= http_text());
        assert(https@ =~= https_text());
        if is_word(&low, &http) || is_word(&low, &https) {
            Some(Scheme::from(i))
        } else {
            None
        }
    }
}

/// Whether the word `t` stands at `p`, compared without regard to case.
pub open spec fn tag_no_case_at(s: Seq<char>, p: int, t: Seq<char>) -> bool {
    &&& 0 <= p
    &&& p + t.len() <= s.len()
    &&& forall|i: int| 0 <= i < t.len() ==> lowercase_equal(#[trigger] s[p + i], t[i])
}

/// The scheme at the start of a text: `HTTP://` or `HTTPS://` in any case.
/// The text read names its scheme by its lowercase mapping; a text whose
/// mapping is neither stops.
pub open spec fn spec_scheme(s: Seq<char>) -> Scan<Scheme> {
    let n: int = if tag_no_case_at(s, 0, http_tag()) {
        7
    } else if tag_no_case_at(s, 0, https_tag()) {
        8
    } else {
        0
    };
    if n == 0 {
        Scan::Miss
    } else {
        match scheme_of(s.subrange(0, n)) {
            Some(sc) => Scan::Found(n, sc),
            None => Scan::Stop(Fault::UnsupportedScheme),
        }
    }
}

fn tag_no_case_exec(cs: &Vec<char>, t: &Vec<char>) -> (r: bool)
    ensures
        r == tag_no_case_at(cs@, 0, t@),
{
    if t.len() > cs.len() {
        return false;
    }
    let mut i: usize = 0;
    while i < t.len()
        invariant
            t@.len() <= cs@.len(),
            i <= t@.len(),
            forall|j: int| 0 <= j < i ==> lowercase_equal(#[trigger] cs@[0 + j], t@[j]),
        decreases t@.len() - i,
    {
        if !chars_lowercase_equal(cs[i], t[i]) {
            assert(!lowercase_equal(cs@[0 + i], t@[i as int]));
            return false;
        }
        i += 1;
    }
    true
}

/// Reads the scheme at the start of the text.
pub fn scheme<'a>(input: &'a str) -> (r: Result<Option<(&'a str, Scheme)>, Fault>)
    ensures
        match spec_scheme(input@) {
            Scan::Found(n, sc) => r matches Ok(Some((rest, x))) && x == sc && rest@
                == input@.subrange(n, input@.len() as int),
            Scan::Miss => r matches Ok(None),
            Scan::Stop(e) => r matches Err(f) && f == e,
        },
{
    let cs = chars_of(input);
    let http: Vec<char> = vec!['H', 'T', 'T', 'P', ':', '/', '/'];
    let https: Vec<char> = vec!['H', 'T', 'T', 'P', 'S', ':', '/', '/'];
    assert(http@ =~= http_tag());
    assert(https@ =~= https_tag());
    let n: usize = if tag_no_case_exec(&cs, &http) {
        7
    } else if tag_no_case_exec(&cs, &https) {
        8
    } else {
        0
    };
    if n == 0 {
        return Ok(None);
    }
    match Scheme::try_from_text(input.substring_char(0, n)) {
        Some(sc) => Ok(Some((input.substring_char(n, cs.len()), sc))),
        None => Err(Fault::UnsupportedScheme),
    }
}


/// The end of a nonempty run of characters of class `k` at the start.
pub open spec fn spec_run1(s: Seq<char>, k: CharClass) -> Option<int> {
    let e = span(s, 0, k);
    if e > 0 {
        Some(e)
    } else {
        None
    }
}

fn run1<'a>(input: &'a str, k: CharClass) -> (r: Option<(&'a str, &'a str)>)
    ensures
        match spec_run1(input@, k) {
            Some(e) => r matches Some((rest, t)) && t@ == input@.subrange(0, e) && rest@
                == input@.subrange(e, input@.len() as int),
            None => r is None,
        },
{
    let cs = chars_of(input);
    let e = span_exec(&cs, 0, k);
    if e > 0 {
        Some((input.substring_char(e, cs.len()), input.substring_char(0, e)))
    } else {
        None
    }
}

/// A nonempty run of ASCII letters, digits and `-` at the start.
pub fn alphanumerichyphen1<'a>(i: &'a str) -> (r: Option<(&'a str, &'a str)>)
    ensures
        match spec_run1(i@, CharClass::AlnumHyphen) {
            Some(e) => r matches Some((rest, t)) && t@ == i@.subrange(0, e) && rest@ == i@.subrange(
                e,
                i@.len() as int,
            ),
            None => r is None,
        },
{
    run1(i, CharClass::AlnumHyphen)
}

/// A nonempty run of ASCII letters, digits, `-` and `.` at the start.
pub fn url_code_points<'a>(i: &'a str) -> (r: Option<(&'a str, &'a str)>)
    ensures
        match spec_run1(i@, CharClass::UrlChar) {
            Some(e) => r matches Some((rest, t)) && t@ == i@.subrange(0, e) && rest@ == i@.subrange(
                e,
                i@.len() as int,
            ),
            None => r is None,
        },
{
    run1(i, CharClass::UrlChar)
}

/// The user part at the start of a text: a user name of ASCII letters and
/// digits, perhaps `:`, perhaps a password of letters and digits, then `@`.
pub open spec fn spec_authority(s: Seq<char>) -> Option<(int, (Seq<char>, Option<Seq<char>>))> {
    let e1 = span(s, 0, CharClass::Alnum);
    if e1 == 0 {
        None
    } else {
        let p1 = if e1 < s.len() && s[e1] == ':' {
            e1 + 1
        } else {
            e1
        };
        let e2 = span(s, p1, CharClass::Alnum);
        let pw = if e2 > p1 {
            Some(s.subrange(p1, e2))
        } else {
            None
        };
        if e2 < s.len() && s[e2] == '@' {
            Some((e2 + 1, (s.subrange(0, e1), pw)))
        } else {
            None
        }
    }
}

/// Reads the user part at the start of the text.
pub fn authority<'a>(input: &'a str) -> (r: Option<(&'a str, (&'a str, Option<&'a str>))>)
    ensures
        match spec_authority(input@) {
            Some((q, (user, pw))) => r matches Some((rest, (u, p))) && u@ == user && rest@
                == input@.subrange(q, input@.len() as int) && match p {
                Some(x) => pw == Some(x@),
                None => pw is None,
            },
            None => r is None,
        },
{
    let cs = chars_of(input);
    let e1 = span_exec(&cs, 0, CharClass::Alnum);
    if e1 == 0 {
        return None;
    }
    let p1 = if e1 < cs.len() && cs[e1] == ':' {
        e1 + 1
    } else {
        e1
    };
    let e2 = span_exec(&cs, p1, CharClass::Alnum);
    proof {
        lemma_span(cs@, p1 as int, CharClass::Alnum);
    }
    let pw = if e2 > p1 {
        Some(input.substring_char(p1, e2))
    } else {
        None
    };
    if e2 < cs.len() && cs[e2] == '@' {
        Some((input.substring_char(e2 + 1, cs.len()), (input.substring_char(0, e1), pw)))
    } else {
        None
    }
}

/// The position after the last of the labels (runs of letters, digits and
/// `-`) each followed by `.`, from `p` on.
pub open spec fn dotted_end(s: Seq<char>, p: int) -> int
    decreases s.len() - p,
{
    let e = span(s, p, CharClass::AlnumHyphen);
    if 0 <= p < e < s.len() && s[e] == '.' {
        dotted_end(s, e + 1)
    } else {
        p
    }
}

/// The host name at the start of a text: one or more labels each followed
/// by `.` and then a run of letters; or else a single label.
pub open spec fn spec_host(s: Seq<char>) -> Option<(int, Seq<char>)> {
    let d = dotted_end(s, 0);
    if d > 0 && span(s, d, CharClass::Alpha) > d {
        let e = span(s, d, CharClass::Alpha);
        Some((e, s.subrange(0, e)))
    } else {
        let e = span(s, 0, CharClass::AlnumHyphen);
        if e > 0 {
            Some((e, s.subrange(0, e)))
        } else {
            None
        }
    }
}

/// Reads a host name at the start of the text.
pub fn host<'a>(input: &'a str) -> (r: Option<(&'a str, Host)>)
    ensures
        match spec_host(input@) {
            Some((q, name)) => r matches Some((rest, h)) && rest@ == input@.subrange(
                q,
                input@.len() as int,
            ) && (h matches Host::HOST(x) && x@ == name),
            None => r is None,
        },
{
    let cs = chars_of(input);
    let mut d: usize = 0;
    loop
        invariant
            cs@ == input@,
            d <= cs@.len(),
            dotted_end(cs@, d as int) == dotted_end(cs@, 0),
        ensures
            cs@ == input@,
            d <= cs@.len(),
            dotted_end(cs@, 0) == d as int,
        decreases cs@.len() - d,
    {
        let e = span_exec(&cs, d, CharClass::AlnumHyphen);
        if d < e && e < cs.len() && cs[e] == '.' {
            d = e + 1;
        } else {
            break ;
        }
    }
    if d > 0 {
        let e = span_exec(&cs, d, CharClass::Alpha);
        if e > d {
            let name = String::from_str(input.substring_char(0, e));
            return Some((input.substring_char(e, cs.len()), Host::HOST(name)));
        }
    }
    let e = span_exec(&cs, 0, CharClass::AlnumHyphen);
    if e > 0 {
        let name = String::from_str(input.substring_char(0, e));
        Some((input.substring_char(e, cs.len()), Host::HOST(name)))
    } else {
        None
    }
}

/// Where a run of between `n` and `m` digits from `p` ends (the run is as
/// long as it can be, up to `m`).
pub open spec fn spec_digits(s: Seq<char>, p: int, n: int, m: int) -> Option<int> {
    if n > m {
        None
    } else {
        let e = span(s, p, CharClass::Digit);
        let k = if e - p > m {
            p + m
        } else {
            e
        };
        if k - p < n {
            None
        } else {
            Some(k)
        }
    }
}

fn digits_exec(cs: &Vec<char>, p: usize, n: usize, m: usize) -> (r: Option<usize>)
    requires
        p <= cs@.len(),
    ensures
        match spec_digits(cs@, p as int, n as int, m as int) {
            Some(k) => r == Some(k as usize) && p <= k <= cs@.len(),
            None => r is None,
        },
{
    if n > m {
        return None;
    }
    let e = span_exec(&cs, p, CharClass::Digit);
    let k = if e - p > m {
        p + m
    } else {
        e
    };
    if k - p < n {
        None
    } else {
        Some(k)
    }
}

/// Reads between `n` and `m` decimal digits (as many as stand there, up to
/// `m`) at the start of the text.
pub fn n_to_m_digits<'a>(n: usize, m: usize, input: &'a str) -> (r: Option<(&'a str, String)>)
    ensures
        match spec_digits(input@, 0, n as int, m as int) {
            Some(k) => r matches Some((rest, d)) && d@ == input@.subrange(0, k) && rest@
                == input@.subrange(k, input@.len() as int),
            None => r is None,
        },
{
    let cs = chars_of(input);
    match digits_exec(&cs, 0, n, m) {
        Some(k) => Some(
            (input.substring_char(k, cs.len()), String::from_str(input.substring_char(0, k))),
        ),
        None => None,
    }
}

/// A number of one to three digits from `p` on, at most 255.
pub open spec fn spec_ip_num(s: Seq<char>, p: int) -> Option<(int, u8)> {
    match spec_digits(s, p, 1, 3) {
        Some(k) => if digits_value(s.subrange(p, k)) <= 255 {
            Some((k, digits_value(s.subrange(p, k)) as u8))
        } else {
            None
        },
        None => None,
    }
}

fn ip_num_exec(cs: &Vec<char>, p: usize) -> (r: Option<(usize, u8)>)
    requires
        p <= cs@.len(),
    ensures
        match spec_ip_num(cs@, p as int) {
            Some((k, v)) => r == Some((k as usize, v)) && p <= k <= cs@.len(),
            None => r is None,
        },
{
    let n = cs.len();
    let k = match digits_exec(cs, p, 1, 3) {
        Some(k) => k,
        None => return None,
    };
    proof {
        lemma_span(cs@, p as int, CharClass::Digit);
    }
    assert(k <= p + 3);
    let mut v: u32 = 0;
    let mut i = p;
    assert(cs@.subrange(p as int, p as int) =~= Seq::<char>::empty());
    while i < k
        invariant
            n == cs@.len(),
            p <= i <= k <= cs@.len(),
            k <= p + 3,
            forall|j: int| p <= j < k ==> is_ascii_digit(#[trigger] cs@[j]),
            v as int == digits_value(cs@.subrange(p as int, i as int)),
        decreases k - i,
    {
        let c = cs[i];
        let d: u32 = c as u32 - '0' as u32;
        let ghost pre = cs@.subrange(p as int, i + 1);
        proof {
            let a = cs@.subrange(p as int, i as int);
            assert(pre.drop_last() =~= a);
            assert(pre.last() == c);
            assert(is_ascii_digit(c));
            assert(digits_value(pre) == digits_value(pre.drop_last()) * 10 + (c as int - '0' as int));
            assert forall|j: int| 0 <= j < a.len() implies is_ascii_digit(#[trigger] a[j]) by {
                assert(a[j] == cs@[p + j]);
            }
            lemma_digits_bound(a);
            assert(pow10(a.len()) <= 100) by {
                assert(a.len() <= 2);
                reveal_with_fuel(pow10, 3);
            }
        }
        v = v * 10 + d;
        i += 1;
    }
    if v <= 255 {
        Some((k, v as u8))
    } else {
        None
    }
}

/// Ten to the power `n`.
pub open spec fn pow10(n: nat) -> int
    decreases n,
{
    if n == 0 {
        1
    } else {
        10 * pow10((n - 1) as nat)
    }
}

/// A run of `n` digits is worth less than ten to the power `n`.
pub proof fn lemma_digits_bound(d: Seq<char>)
    requires
        forall|i: int| 0 <= i < d.len() ==> is_ascii_digit(#[trigger] d[i]),
    ensures
        0 <= digits_value(d) < pow10(d.len()),
    decreases d.len(),
{
    if d.len() > 0 {
        assert forall|i: int| 0 <= i < d.drop_last().len() implies is_ascii_digit(
            #[trigger] d.drop_last()[i],
        ) by {
            assert(d.drop_last()[i] == d[i]);
        }
        lemma_digits_bound(d.drop_last());
        assert(is_ascii_digit(d.last()));
    }
}

/// Reads a number of one to three digits, at most 255, at the start of the
/// text.
pub fn ip_num<'a>(input: &'a str) -> (r: Option<(&'a str, u8)>)
    ensures
        match spec_ip_num(input@, 0) {
            Some((k, v)) => r matches Some((rest, x)) && x == v && rest@ == input@.subrange(
                k,
                input@.len() as int,
            ),
            None => r is None,
        },
{
    let cs = chars_of(input);
    match ip_num_exec(&cs, 0) {
        Some((k, v)) => Some((input.substring_char(k, cs.len()), v)),
        None => None,
    }
}

/// A number of the address followed by `.`.
pub open spec fn spec_ip_part(s: Seq<char>, p: int) -> Option<(int, u8)> {
    match spec_ip_num(s, p) {
        Some((k, v)) => if k < s.len() && s[k] == '.' {
            Some((k + 1, v))
        } else {
            None
        },
        None => None,
    }
}

/// An IPv4 address at the start of a text: three numbers each followed by
/// `.`, then a fourth.
pub open spec fn spec_ip(s: Seq<char>) -> Option<(int, Seq<u8>)> {
    match spec_ip_part(s, 0) {
        Some((p1, a)) => match spec_ip_part(s, p1) {
            Some((p2, b)) => match spec_ip_part(s, p2) {
                Some((p3, c)) => match spec_ip_num(s, p3) {
                    Some((p4, d)) => Some((p4, seq![a, b, c, d])),
                    None => None,
                },
                None => None,
            },
            None => None,
        },
        None => None,
    }
}

fn ip_part_exec(cs: &Vec<char>, p: usize) -> (r: Option<(usize, u8)>)
    requires
        p <= cs@.len(),
    ensures
        match spec_ip_part(cs@, p as int) {
            Some((k, v)) => r == Some((k as usize, v)) && k <= cs@.len(),
            None => r is None,
        },
{
    match ip_num_exec(cs, p) {
        Some((k, v)) => if k < cs.len() && cs[k] == '.' {
            Some((k + 1, v))
        } else {
            None
        },
        None => None,
    }
}

/// Reads an IPv4 address at the start of the text.
pub fn ip<'a>(input: &'a str) -> (r: Option<(&'a str, Host)>)
    ensures
        match spec_ip(input@) {
            Some((q, nums)) => r matches Some((rest, h)) && rest@ == input@.subrange(
                q,
                input@.len() as int,
            ) && (h matches Host::IP(x) && x@ == nums),
            None => r is None,
        },
{
    let cs = chars_of(input);
    let (p1, a) = match ip_part_exec(&cs, 0) {
        Some(x) => x,
        None => return None,
    };
    let (p2, b) = match ip_part_exec(&cs, p1) {
        Some(x) => x,
        None => return None,
    };
    let (p3, c) = match ip_part_exec(&cs, p2) {
        Some(x) => x,
        None => return None,
    };
    let (p4, d) = match ip_num_exec(&cs, p3) {
        Some(x) => x,
        None => return None,
    };
    let result: [u8; 4] = [a, b, c, d];
    assert(result@ =~= seq![a, b, c, d]);
    Some((input.substring_char(p4, cs.len()), Host::IP(result)))
}

/// The segments of a path from `p` on, each but the last followed by `/`.
pub open spec fn segments(s: Seq<char>, p: int, acc: Seq<Seq<char>>) -> (int, Seq<Seq<char>>)
    decreases s.len() - p,
{
    let e = span(s, p, CharClass::UrlChar);
    if 0 <= p < e {
        if e < s.len() && s[e] == '/' {
            segments(s, e + 1, acc.push(s.subrange(p, e)))
        } else {
            (e, acc.push(s.subrange(p, e)))
        }
    } else {
        (p, acc)
    }
}

/// A path at the start of a text: `/` and its segments.
pub open spec fn spec_path(s: Seq<char>) -> Option<(int, Seq<Seq<char>>)> {
    if 0 < s.len() && s[0] == '/' {
        Some(segments(s, 1, Seq::empty()))
    } else {
        None
    }
}

/// The texts of a list of borrowed texts.
pub open spec fn texts(v: Seq<&str>) -> Seq<Seq<char>> {
    v.map_values(|x: &str| x@)
}

/// Reads a path at the start of the text.
pub fn path<'a>(input: &'a str) -> (r: Option<(&'a str, Vec<&'a str>)>)
    ensures
        match spec_path(input@) {
            Some((q, segs)) => r matches Some((rest, v)) && texts(v@) == segs && rest@
                == input@.subrange(q, input@.len() as int),
            None => r is None,
        },
{
    let cs = chars_of(input);
    if !(0 < cs.len() && cs[0] == '/') {
        return None;
    }
    let mut segs: Vec<&'a str> = Vec::new();
    let mut p: usize = 1;
    let ghost target = segments(cs@, 1, Seq::empty());
    assert(texts(segs@) =~= Seq::<Seq<char>>::empty());
    loop
        invariant
            cs@ == input@,
            1 <= p <= cs@.len(),
            cs@[0] == '/',
            segments(cs@, p as int, texts(segs@)) == target,
            target == segments(input@, 1, Seq::empty()),
        decreases cs@.len() - p,
    {
        let e = span_exec(&cs, p, CharClass::UrlChar);
        if p < e {
            let ghost before = texts(segs@);
            segs.push(input.substring_char(p, e));
            assert(texts(segs@) =~= before.push(cs@.subrange(p as int, e as int)));
            if e < cs.len() && cs[e] == '/' {
                p = e + 1;
            } else {
                return Some((input.substring_char(e, cs.len()), segs));
            }
        } else {
            return Some((input.substring_char(p, cs.len()), segs));
        }
    }
}

} // verus!
