use vstd::prelude::*;

verus! {

/// Characters that the key lexer skips between tokens.
pub open spec fn is_ws(c: char) -> bool {
    c == ' ' || c == '\t' || c == '\n' || c == '\x0C'
}

/// ASCII letters, the only characters of a field name.
pub open spec fn is_letter(c: char) -> bool {
    ('a' <= c && c <= 'z') || ('A' <= c && c <= 'Z')
}

pub open spec fn all_ws(s: Seq<char>) -> bool {
    forall|i: int| 0 <= i < s.len() ==> is_ws(#[trigger] s[i])
}

pub open spec fn all_letters(s: Seq<char>) -> bool {
    forall|i: int| 0 <= i < s.len() ==> is_letter(#[trigger] s[i])
}

pub open spec fn field_word() -> Seq<char> {
    seq!['f', 'i', 'e', 'l', 'd']
}

/// The grammar of a field key: `field`, `:`, then one or more ASCII letters,
/// with optional whitespace around the tokens; `name` is the letters.
pub open spec fn is_field_key(s: Seq<char>, name: Seq<char>) -> bool {
    name.len() > 0 && all_letters(name) && exists|w1: Seq<char>, w2: Seq<char>, w3: Seq<char>, w4: Seq<char>|
        all_ws(w1) && all_ws(w2) && all_ws(w3) && all_ws(w4) && s == w1 + field_word() + w2
            + seq![':'] + w3 + name + w4
}

/// First position at or after `i` that holds no whitespace.
pub open spec fn skip_ws(s: Seq<char>, i: int) -> int
    decreases s.len() - i,
{
    if 0 <= i < s.len() && is_ws(s[i]) {
        skip_ws(s, i + 1)
    } else {
        i
    }
}

/// First position at or after `i` that holds no letter.
pub open spec fn skip_letters(s: Seq<char>, i: int) -> int
    decreases s.len() - i,
{
    if 0 <= i < s.len() && is_letter(s[i]) {
        skip_letters(s, i + 1)
    } else {
        i
    }
}

/// The token that a malformed field key lacks.
#[derive(PartialEq, Eq, Structural, Clone, Copy, Debug)]
pub enum Expected {
    Field,
    Colon,
    Name,
}

/// Why a key is not a field key: the token expected, the key, and the
/// part of it that was left unconsumed.
#[derive(Clone, Debug)]
pub struct FieldKeyError {
    pub expected: Expected,
    pub key: String,
    pub remainder: String,
}

/// What the lexer makes of a key: the name, or the missing token with the
/// position where the key stopped making sense.
pub open spec fn field_key_result(s: Seq<char>) -> Result<Seq<char>, (Expected, int)> {
    let a = skip_ws(s, 0);
    let b = skip_letters(s, a);
    if s.subrange(a, b) != field_word() {
        Err((Expected::Field, a))
    } else {
        let c = skip_ws(s, b);
        if !(c < s.len() && s[c] == ':') {
            Err((Expected::Colon, c))
        } else {
            let d = skip_ws(s, c + 1);
            let e = skip_letters(s, d);
            if e == d || skip_ws(s, e) != s.len() {
                Err((Expected::Name, d))
            } else {
                Ok(s.subrange(d, e))
            }
        }
    }
}

proof fn lemma_skip_ws_bounds(s: Seq<char>, i: int)
    requires
        0 <= i <= s.len(),
    ensures
        i <= skip_ws(s, i) <= s.len(),
        forall|k: int| i <= k < skip_ws(s, i) ==> is_ws(#[trigger] s[k]),
        skip_ws(s, i) < s.len() ==> !is_ws(s[skip_ws(s, i)]),
    decreases s.len() - i,
{
    if i < s.len() && is_ws(s[i]) {
        lemma_skip_ws_bounds(s, i + 1);
    }
}

proof fn lemma_skip_letters_bounds(s: Seq<char>, i: int)
    requires
        0 <= i <= s.len(),
    ensures
        i <= skip_letters(s, i) <= s.len(),
        forall|k: int| i <= k < skip_letters(s, i) ==> is_letter(#[trigger] s[k]),
        skip_letters(s, i) < s.len() ==> !is_letter(s[skip_letters(s, i)]),
    decreases s.len() - i,
{
    if i < s.len() && is_letter(s[i]) {
        lemma_skip_letters_bounds(s, i + 1);
    }
}

proof fn lemma_skip_ws_to(s: Seq<char>, i: int, j: int)
    requires
        0 <= i <= j <= s.len(),
        forall|k: int| i <= k < j ==> is_ws(#[trigger] s[k]),
        j == s.len() || !is_ws(s[j]),
    ensures
        skip_ws(s, i) == j,
    decreases j - i,
{
    if i < j {
        lemma_skip_ws_to(s, i + 1, j);
    }
}

proof fn lemma_skip_letters_to(s: Seq<char>, i: int, j: int)
    requires
        0 <= i <= j <= s.len(),
        forall|k: int| i <= k < j ==> is_letter(#[trigger] s[k]),
        j == s.len() || !is_letter(s[j]),
    ensures
        skip_letters(s, i) == j,
    decreases j - i,
{
    if i < j {
        lemma_skip_letters_to(s, i + 1, j);
    }
}

proof fn lemma_result_is_key(s: Seq<char>)
    requires
        field_key_result(s) is Ok,
    ensures
        is_field_key(s, field_key_result(s)->Ok_0),
{
    lemma_skip_ws_bounds(s, 0);
    let a = skip_ws(s, 0);
    lemma_skip_letters_bounds(s, a);
    let b = skip_letters(s, a);
    lemma_skip_ws_bounds(s, b);
    let c = skip_ws(s, b);
    lemma_skip_ws_bounds(s, c + 1);
    let d = skip_ws(s, c + 1);
    lemma_skip_letters_bounds(s, d);
    let e = skip_letters(s, d);
    lemma_skip_ws_bounds(s, e);
    let name = s.subrange(d, e);
    let w1 = s.take(a);
    let w2 = s.subrange(b, c);
    let w3 = s.subrange(c + 1, d);
    let w4 = s.skip(e);
    assert(all_ws(w1));
    assert(all_ws(w2));
    assert(all_ws(w3));
    assert(all_ws(w4));
    assert(all_letters(name));
    assert(s =~= w1 + field_word() + w2 + seq![':'] + w3 + name + w4);
}

proof fn lemma_ws_run(s: Seq<char>, w: Seq<char>, lo: int)
    requires
        all_ws(w),
        0 <= lo,
        lo + w.len() <= s.len(),
        s.subrange(lo, lo + w.len()) == w,
    ensures
        forall|k: int| lo <= k < lo + w.len() ==> is_ws(#[trigger] s[k]),
{
    assert forall|k: int| lo <= k < lo + w.len() implies is_ws(#[trigger] s[k]) by {
        assert(s[k] == s.subrange(lo, lo + w.len())[k - lo]);
    }
}

proof fn lemma_letter_run(s: Seq<char>, w: Seq<char>, lo: int)
    requires
        all_letters(w),
        0 <= lo,
        lo + w.len() <= s.len(),
        s.subrange(lo, lo + w.len()) == w,
    ensures
        forall|k: int| lo <= k < lo + w.len() ==> is_letter(#[trigger] s[k]),
{
    assert forall|k: int| lo <= k < lo + w.len() implies is_letter(#[trigger] s[k]) by {
        assert(s[k] == s.subrange(lo, lo + w.len())[k - lo]);
    }
}

#[verifier::rlimit(100)]
proof fn lemma_layout_is_result(
    s: Seq<char>,
    w1: Seq<char>,
    w2: Seq<char>,
    w3: Seq<char>,
    name: Seq<char>,
    w4: Seq<char>,
)
    requires
        name.len() > 0,
        all_letters(name),
        all_ws(w1),
        all_ws(w2),
        all_ws(w3),
        all_ws(w4),
        s == w1 + field_word() + w2 + seq![':'] + w3 + name + w4,
    ensures
        field_key_result(s) == Ok::<Seq<char>, (Expected, int)>(name),
{
    let a = w1.len() as int;
    let b = a + 5;
    let c = b + w2.len();
    let d = c + 1 + w3.len();
    let e = d + name.len();
    let n = e + w4.len();
    assert(s.len() == n);
    assert(s.subrange(0, a) =~= w1);
    assert(s.subrange(a, b) =~= field_word());
    assert(s.subrange(b, c) =~= w2);
    assert(s[c] == ':');
    assert(s.subrange(c + 1, d) =~= w3);
    assert(s.subrange(d, e) =~= name);
    assert(s.subrange(e, n) =~= w4);
    lemma_ws_run(s, w1, 0);
    lemma_ws_run(s, w2, b);
    lemma_ws_run(s, w3, c + 1);
    lemma_ws_run(s, w4, e);
    lemma_letter_run(s, name, d);
    assert(is_letter(s[a])) by {
        assert(s[a] == s.subrange(a, b)[0]);
    }
    lemma_skip_ws_to(s, 0, a);
    assert forall|k: int| a <= k < b implies is_letter(#[trigger] s[k]) by {
        assert(s[k] == s.subrange(a, b)[k - a]);
    }
    lemma_skip_letters_to(s, a, b);
    lemma_skip_ws_to(s, b, c);
    assert(is_letter(s[d])) by {
        assert(s[d] == s.subrange(d, e)[0]);
    }
    lemma_skip_ws_to(s, c + 1, d);
    lemma_skip_letters_to(s, d, e);
    lemma_skip_ws_to(s, e, n);
}

proof fn lemma_key_is_result(s: Seq<char>, name: Seq<char>)
    requires
        is_field_key(s, name),
    ensures
        field_key_result(s) == Ok::<Seq<char>, (Expected, int)>(name),
{
    let (w1, w2, w3, w4) = choose|w1: Seq<char>, w2: Seq<char>, w3: Seq<char>, w4: Seq<char>|
        all_ws(w1) && all_ws(w2) && all_ws(w3) && all_ws(w4) && s == w1 + field_word() + w2
            + seq![':'] + w3 + name + w4;
    lemma_layout_is_result(s, w1, w2, w3, name, w4);
}

/// A key is read as the field `name` exactly when it is `field`, `:` and the
/// letters of `name`, with whitespace only around these tokens; every other
/// key is refused.
pub proof fn lemma_parse_field_grammar(s: Seq<char>, name: Seq<char>)
    ensures
        field_key_result(s) == Ok::<Seq<char>, (Expected, int)>(name) <==> is_field_key(s, name),
{
    if field_key_result(s) == Ok::<Seq<char>, (Expected, int)>(name) {
        lemma_result_is_key(s);
    }
    if is_field_key(s, name) {
        lemma_key_is_result(s, name);
    }
}

/// For every non-empty name of ASCII letters, `field:` followed by the name
/// is read as that name.
pub proof fn lemma_parse_field_prefixed(name: Seq<char>)
    requires
        name.len() > 0,
        all_letters(name),
    ensures
        field_key_result(field_word() + seq![':'] + name) == Ok::<Seq<char>, (Expected, int)>(name),
{
    let e = Seq::<char>::empty();
    assert(field_word() + seq![':'] + name =~= e + field_word() + e + seq![':'] + e + name + e);
    assert(is_field_key(field_word() + seq![':'] + name, name));
    lemma_key_is_result(field_word() + seq![':'] + name, name);
}

fn ws_char(c: char) -> (r: bool)
    ensures
        r == is_ws(c),
{
    c == ' ' || c == '\t' || c == '\n' || c == '\x0C'
}

fn letter_char(c: char) -> (r: bool)
    ensures
        r == is_letter(c),
{
    ('a' <= c && c <= 'z') || ('A' <= c && c <= 'Z')
}

fn exec_skip_ws(s: &str, n: usize, i: usize) -> (r: usize)
    requires
        n == s@.len(),
        i <= n,
    ensures
        r == skip_ws(s@, i as int),
{
    let mut j: usize = i;
    while j < n && ws_char(s.get_char(j))
        invariant
            i <= j <= n,
            n == s@.len(),
            skip_ws(s@, j as int) == skip_ws(s@, i as int),
        decreases n - j,
    {
        j = j + 1;
    }
    j
}

fn exec_skip_letters(s: &str, n: usize, i: usize) -> (r: usize)
    requires
        n == s@.len(),
        i <= n,
    ensures
        r == skip_letters(s@, i as int),
{
    let mut j: usize = i;
    while j < n && letter_char(s.get_char(j))
        invariant
            i <= j <= n,
            n == s@.len(),
            skip_letters(s@, j as int) == skip_letters(s@, i as int),
        decreases n - j,
    {
        j = j + 1;
    }
    j
}

/// How the missing token is named in messages.
pub open spec fn expected_text(e: Expected) -> Seq<char> {
    match e {
        Expected::Field => "'field'"@,
        Expected::Colon => "':'"@,
        Expected::Name => "a text"@,
    }
}

impl FieldKeyError {
    /// A description of the failure, naming the key, the token that was
    /// expected and what was left unconsumed.
    pub fn message(&self) -> (r: String)
        ensures
            r@ == "'"@ + self.key@ + "' is not a valid field definition, expected "@ + expected_text(
                self.expected,
            ) + ", got '"@ + self.remainder@ + "'"@,
    {
        let mut m = String::from_str("'");
        m.append(self.key.as_str());
        m.append("' is not a valid field definition, expected ");
        match self.expected {
            Expected::Field => m.append("'field'"),
            Expected::Colon => m.append("':'"),
            Expected::Name => m.append("a text"),
        }
        m.append(", got '");
        m.append(self.remainder.as_str());
        m.append("'");
        m
    }
}

fn key_error(s: &str, n: usize, expected: Expected, at: usize) -> (r: FieldKeyError)
    requires
        n == s@.len(),
        at <= n,
    ensures
        r.expected == expected,
        r.key@ == s@,
        r.remainder@ == s@.subrange(at as int, n as int),
{
    FieldKeyError {
        expected,
        key: String::from_str(s),
        remainder: String::from_str(s.substring_char(at, n)),
    }
}

/// Reads the field name out of a key of the form `field:<name>`.
pub fn parse_field(s: &str) -> (r: Result<String, FieldKeyError>)
    ensures
        match field_key_result(s@) {
            Ok(name) => r is Ok && r->Ok_0@ == name,
            Err((expected, at)) => r is Err && r->Err_0.expected == expected && r->Err_0.key@ == s@
                && r->Err_0.remainder@ == s@.subrange(at, s@.len() as int),
        },
{
    let n = s.unicode_len();
    proof {
        lemma_skip_ws_bounds(s@, 0);
    }
    let a = exec_skip_ws(s, n, 0);
    proof {
        lemma_skip_letters_bounds(s@, a as int);
    }
    let b = exec_skip_letters(s, n, a);
    let word = s.substring_char(a, b);
    if !(b - a == 5 && word.get_char(0) == 'f' && word.get_char(1) == 'i' && word.get_char(2) == 'e'
        && word.get_char(3) == 'l' && word.get_char(4) == 'd') {
        proof {
            if s@.subrange(a as int, b as int) == field_word() {
                assert(word@[0] == 'f');
            }
        }
        return Err(key_error(s, n, Expected::Field, a));
    }
    assert(s@.subrange(a as int, b as int) =~= field_word());
    proof {
        lemma_skip_ws_bounds(s@, b as int);
    }
    let c = exec_skip_ws(s, n, b);
    if !(c < n && s.get_char(c) == ':') {
        return Err(key_error(s, n, Expected::Colon, c));
    }
    proof {
        lemma_skip_ws_bounds(s@, c as int + 1);
    }
    let d = exec_skip_ws(s, n, c + 1);
    proof {
        lemma_skip_letters_bounds(s@, d as int);
    }
    let e = exec_skip_letters(s, n, d);
    proof {
        lemma_skip_ws_bounds(s@, e as int);
    }
    if e == d || exec_skip_ws(s, n, e) != n {
        return Err(key_error(s, n, Expected::Name, d));
    }
    Ok(String::from_str(s.substring_char(d, e)))
}

} // verus!
