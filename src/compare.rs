use vstd::prelude::*;
use vstd::utf8::encode_utf8;

use pact_matching::matchers::Matches;
use pact_models::matchingrules::MatchingRule;

use crate::codec::{decode, decode_pairs, pairs_view, utf8_text};

verus! {

#[verifier::external_type_specification]
#[verifier::external_body]
pub struct ExMatchingRule(MatchingRule);

#[verifier::external_type_specification]
#[verifier::external_body]
pub struct ExJsonValue(serde_json::Value);

/// A rule as the host describes it: the name of its type and its attributes.
pub struct RuleDefinition {
    pub rule_type: String,
    pub attributes: serde_json::Value,
}

/// The rules registered for one path, all of which must accept a value.
pub struct FieldRules {
    pub path: String,
    pub rules: Vec<MatchingRule>,
}

/// The kind of discrepancy that a mismatch reports.
#[derive(PartialEq, Eq, Structural, Clone, Copy, Debug)]
pub enum MismatchKind {
    MissingContent,
    UnexpectedContent,
    MissingField,
    UnexpectedField,
    RuleViolation,
    ValueMismatch,
}

/// One discrepancy found by a comparison. `expected` and `actual` hold the
/// bytes concerned: a field's name or its two values, or a whole body.
pub struct Mismatch {
    pub kind: MismatchKind,
    pub expected: Option<Vec<u8>>,
    pub actual: Option<Vec<u8>>,
    pub message: String,
    pub path: String,
}

pub struct MismatchSpec {
    pub kind: MismatchKind,
    pub expected: Option<Seq<u8>>,
    pub actual: Option<Seq<u8>>,
    pub message: Seq<char>,
    pub path: Seq<char>,
}

pub open spec fn opt_view(o: Option<Vec<u8>>) -> Option<Seq<u8>> {
    match o {
        Some(s) => Some(s@),
        None => None,
    }
}

impl View for Mismatch {
    type V = MismatchSpec;

    open spec fn view(&self) -> MismatchSpec {
        MismatchSpec {
            kind: self.kind,
            expected: opt_view(self.expected),
            actual: opt_view(self.actual),
            message: self.message@,
            path: self.path@,
        }
    }
}

pub open spec fn mismatches_view(v: Seq<Mismatch>) -> Seq<MismatchSpec> {
    v.map_values(|m: Mismatch| m@)
}

/// The path under which rules and generators of a field are registered.
pub open spec fn field_path(name: Seq<char>) -> Seq<char> {
    "field:"@ + name
}

/// Index of the last pair named `n`, or -1.
pub open spec fn last_index(p: Seq<(Seq<char>, Seq<char>)>, n: Seq<char>) -> int
    decreases p.len(),
{
    if p.len() == 0 {
        -1
    } else if p.last().0 == n {
        p.len() - 1
    } else {
        last_index(p.drop_last(), n)
    }
}

/// No two rule lists stand under the same path.
pub open spec fn paths_unique(rules: Seq<FieldRules>) -> bool {
    forall|i: int, j: int| 0 <= i < j < rules.len() ==> #[trigger] rules[i].path@ != #[trigger] rules[j].path@
}

/// Index of the rule list registered under `path`, or -1.
pub open spec fn rules_index(rules: Seq<FieldRules>, path: Seq<char>) -> int
    decreases rules.len(),
{
    if rules.len() == 0 {
        -1
    } else if rules.last().path@ == path && rules_index(rules.drop_last(), path) < 0 {
        rules.len() - 1
    } else {
        rules_index(rules.drop_last(), path)
    }
}

pub open spec fn missing_field(name: Seq<char>) -> MismatchSpec {
    MismatchSpec {
        kind: MismatchKind::MissingField,
        expected: Some(encode_utf8(name)),
        actual: None,
        message: "Expected field '"@ + name + "', but was missing"@,
        path: seq![],
    }
}

pub open spec fn unexpected_field(name: Seq<char>) -> MismatchSpec {
    MismatchSpec {
        kind: MismatchKind::UnexpectedField,
        expected: None,
        actual: Some(encode_utf8(name)),
        message: "Unexpected field '"@ + name + "', but was not allowed"@,
        path: seq![],
    }
}

pub open spec fn rule_violation(name: Seq<char>, e: Seq<char>, a: Seq<char>, msg: Seq<char>) -> MismatchSpec {
    MismatchSpec {
        kind: MismatchKind::RuleViolation,
        expected: Some(encode_utf8(e)),
        actual: Some(encode_utf8(a)),
        message: msg,
        path: field_path(name),
    }
}

pub open spec fn value_mismatch(name: Seq<char>, e: Seq<char>, a: Seq<char>) -> MismatchSpec {
    MismatchSpec {
        kind: MismatchKind::ValueMismatch,
        expected: Some(encode_utf8(e)),
        actual: Some(encode_utf8(a)),
        message: "Expected field "@ + name + " value to equal '"@ + e + "', but got '"@ + a + "'"@,
        path: field_path(name),
    }
}

/// One mismatch for each rule that rejected the pair, in the order of the rules.
pub open spec fn rule_violations(
    name: Seq<char>,
    e: Seq<char>,
    a: Seq<char>,
    verdicts: Seq<Option<String>>,
) -> Seq<MismatchSpec>
    decreases verdicts.len(),
{
    if verdicts.len() == 0 {
        seq![]
    } else {
        let rest = rule_violations(name, e, a, verdicts.drop_last());
        match verdicts.last() {
            Some(msg) => rest.push(rule_violation(name, e, a, msg@)),
            None => rest,
        }
    }
}

/// The mismatches of one field present on both sides: those of its rules
/// where it has any, else one where the values differ.
pub open spec fn field_mismatches(
    name: Seq<char>,
    e: Seq<char>,
    a: Seq<char>,
    verdicts: Option<Seq<Option<String>>>,
) -> Seq<MismatchSpec> {
    match verdicts {
        Some(vs) => rule_violations(name, e, a, vs),
        None => if e == a {
            seq![]
        } else {
            seq![value_mismatch(name, e, a)]
        },
    }
}

/// The mismatches of the first `k` expected pairs; a pair counts only at the
/// last occurrence of its name, and is compared with the last actual pair of
/// that name.
pub open spec fn expected_side(
    e: Seq<(Seq<char>, Seq<char>)>,
    a: Seq<(Seq<char>, Seq<char>)>,
    verdicts: Seq<Option<Seq<Option<String>>>>,
    k: int,
) -> Seq<MismatchSpec>
    decreases k,
{
    if k <= 0 {
        seq![]
    } else {
        let i = k - 1;
        let n = e[i].0;
        let here = if last_index(e, n) != i {
            seq![]
        } else if last_index(a, n) < 0 {
            seq![missing_field(n)]
        } else {
            field_mismatches(n, e[i].1, a[last_index(a, n)].1, verdicts[i])
        };
        expected_side(e, a, verdicts, i) + here
    }
}

/// One mismatch for each name of the first `k` actual pairs that the
/// expected side lacks, at the last occurrence of the name.
pub open spec fn actual_side(
    e: Seq<(Seq<char>, Seq<char>)>,
    a: Seq<(Seq<char>, Seq<char>)>,
    k: int,
) -> Seq<MismatchSpec>
    decreases k,
{
    if k <= 0 {
        seq![]
    } else {
        let i = k - 1;
        let n = a[i].0;
        let here = if last_index(a, n) == i && last_index(e, n) < 0 {
            seq![unexpected_field(n)]
        } else {
            seq![]
        };
        actual_side(e, a, i) + here
    }
}

/// The full comparison of two decoded bodies, given the verdicts of the rules.
pub open spec fn comparison(
    e: Seq<(Seq<char>, Seq<char>)>,
    a: Seq<(Seq<char>, Seq<char>)>,
    allow_unexpected: bool,
    verdicts: Seq<Option<Seq<Option<String>>>>,
) -> Seq<MismatchSpec> {
    expected_side(e, a, verdicts, e.len() as int) + if allow_unexpected {
        seq![]
    } else {
        actual_side(e, a, a.len() as int)
    }
}

/// The verdicts fit the rules: for each field that is compared, a verdict
/// for each of its rules where rules are registered at its path, else none.
pub open spec fn verdicts_fit(
    e: Seq<(Seq<char>, Seq<char>)>,
    a: Seq<(Seq<char>, Seq<char>)>,
    rules: Seq<FieldRules>,
    verdicts: Seq<Option<Seq<Option<String>>>>,
) -> bool {
    verdicts.len() == e.len() && forall|i: int| 0 <= i < e.len() ==> #[trigger] verdict_fits_at(e, a, rules, verdicts, i)
}

pub open spec fn verdict_fits_at(
    e: Seq<(Seq<char>, Seq<char>)>,
    a: Seq<(Seq<char>, Seq<char>)>,
    rules: Seq<FieldRules>,
    verdicts: Seq<Option<Seq<Option<String>>>>,
    i: int,
) -> bool {
    last_index(e, e[i].0) == i && last_index(a, e[i].0) >= 0 ==> {
        let ri = rules_index(rules, field_path(e[i].0));
        &&& (verdicts[i] is Some <==> ri >= 0)
        &&& ri >= 0 ==> verdicts[i]->Some_0.len() == rules[ri].rules@.len()
    }
}

/// The mismatches `r` are those of comparing `e` with `a` under some
/// verdicts of the rules that fit them.
pub open spec fn compared_as(
    e: Seq<(Seq<char>, Seq<char>)>,
    a: Seq<(Seq<char>, Seq<char>)>,
    allow_unexpected: bool,
    rules: Seq<FieldRules>,
    r: Seq<MismatchSpec>,
) -> bool {
    exists|v: Seq<Option<Seq<Option<String>>>>|
        #[trigger] verdicts_fit(e, a, rules, v) && r == comparison(e, a, allow_unexpected, v)
}

proof fn lemma_expected_side_prefix(
    e: Seq<(Seq<char>, Seq<char>)>,
    a: Seq<(Seq<char>, Seq<char>)>,
    v1: Seq<Option<Seq<Option<String>>>>,
    v2: Seq<Option<Seq<Option<String>>>>,
    k: int,
)
    requires
        forall|j: int| 0 <= j < k ==> v1[j] == v2[j],
    ensures
        expected_side(e, a, v1, k) == expected_side(e, a, v2, k),
    decreases k,
{
    if k > 0 {
        lemma_expected_side_prefix(e, a, v1, v2, k - 1);
    }
}

proof fn lemma_last_index_bounds(p: Seq<(Seq<char>, Seq<char>)>, n: Seq<char>)
    ensures
        -1 <= last_index(p, n) < p.len(),
        last_index(p, n) >= 0 ==> p[last_index(p, n)].0 == n,
    decreases p.len(),
{
    if p.len() > 0 && p.last().0 != n {
        lemma_last_index_bounds(p.drop_last(), n);
    }
}

proof fn lemma_rules_index_bounds(rules: Seq<FieldRules>, path: Seq<char>)
    ensures
        -1 <= rules_index(rules, path) < rules.len(),
    decreases rules.len(),
{
    if rules.len() > 0 {
        lemma_rules_index_bounds(rules.drop_last(), path);
    }
}

fn find_last(p: &Vec<(String, String)>, n: &String) -> (r: Option<usize>)
    ensures
        match r {
            Some(j) => last_index(pairs_view(p@), n@) == j,
            None => last_index(pairs_view(p@), n@) == -1,
        },
{
    let ghost pv = pairs_view(p@);
    let mut found: Option<usize> = None;
    let mut j: usize = 0;
    while j < p.len()
        invariant
            j <= p.len(),
            pv == pairs_view(p@),
            match found {
                Some(f) => last_index(pv.take(j as int), n@) == f,
                None => last_index(pv.take(j as int), n@) == -1,
            },
        decreases p.len() - j,
    {
        assert(pv.take(j as int + 1).drop_last() =~= pv.take(j as int));
        assert(pv.take(j as int + 1).last() == pv[j as int]);
        assert(pv[j as int].0 == p@[j as int].0@);
        if p[j].0 == *n {
            found = Some(j);
        }
        j = j + 1;
    }
    assert(pv.take(p.len() as int) =~= pv);
    found
}

fn find_rules(rules: &Vec<FieldRules>, path: &String) -> (r: Option<usize>)
    ensures
        match r {
            Some(j) => rules_index(rules@, path@) == j,
            None => rules_index(rules@, path@) == -1,
        },
{
    let mut j: usize = 0;
    while j < rules.len()
        invariant
            j <= rules.len(),
            rules_index(rules@.take(j as int), path@) == -1,
        decreases rules.len() - j,
    {
        assert(rules@.take(j as int + 1).drop_last() =~= rules@.take(j as int));
        if rules[j].path == *path {
            proof {
                lemma_rules_index_prefix(rules@, path@, j as int);
            }
            return Some(j);
        }
        j = j + 1;
    }
    assert(rules@.take(rules.len() as int) =~= rules@);
    None
}

proof fn lemma_rules_index_prefix(rules: Seq<FieldRules>, path: Seq<char>, j: int)
    requires
        0 <= j < rules.len(),
        rules[j].path@ == path,
        rules_index(rules.take(j), path) == -1,
    ensures
        rules_index(rules, path) == j,
    decreases rules.len(),
{
    if rules.len() - 1 == j {
        assert(rules.drop_last() =~= rules.take(j));
    } else {
        assert(rules.drop_last().take(j) =~= rules.take(j));
        lemma_rules_index_prefix(rules.drop_last(), path, j);
    }
}

/// Relies on pact_models' MatchingRule::create: the rule of the named type
/// with the given attributes, or the message where it cannot be built.
#[verifier::external_body]
fn make_rule(rule_type: &str, attributes: &serde_json::Value) -> (r: Result<MatchingRule, String>) {
    MatchingRule::create(rule_type, attributes).map_err(|e| e.to_string())
}

/// Builds a rule set from the definitions given for each path, keeping the
/// paths and the order of their rules; fails with the message of the first
/// rule that cannot be built.
pub fn build_rules(defs: &Vec<(String, Vec<RuleDefinition>)>) -> (r: Result<Vec<FieldRules>, String>)
    ensures
        r matches Ok(rs) ==> rs@.len() == defs@.len() && forall|i: int|
            0 <= i < defs@.len() ==> #[trigger] rs@[i].path@ == defs@[i].0@ && rs@[i].rules@.len()
                == defs@[i].1@.len(),
        (forall|i: int| 0 <= i < defs@.len() ==> (#[trigger] defs@[i]).1@.len() == 0) ==> r is Ok,
        r matches Ok(rs) ==> ((forall|i: int, j: int| 0 <= i < j < defs@.len() ==> #[trigger] defs@[i].0@ != #[trigger] defs@[j].0@) ==> paths_unique(rs@)),
{
    let mut out: Vec<FieldRules> = Vec::new();
    let mut i: usize = 0;
    while i < defs.len()
        invariant
            i <= defs.len(),
            out@.len() == i,
            forall|j: int| 0 <= j < i ==> #[trigger] out@[j].path@ == defs@[j].0@ && out@[j].rules@.len() == defs@[j].1@.len(),
        decreases defs.len() - i,
    {
        let list = &defs[i].1;
        let mut rules: Vec<MatchingRule> = Vec::new();
        let mut k: usize = 0;
        assert(defs@[i as int].1@ == list@);
        while k < list.len()
            invariant
                k <= list.len(),
                (forall|j: int| 0 <= j < defs@.len() ==> (#[trigger] defs@[j]).1@.len() == 0) ==> list@.len() == 0,
                rules@.len() == k,
            decreases list.len() - k,
        {
            match make_rule(list[k].rule_type.as_str(), &list[k].attributes) {
                Ok(rule) => rules.push(rule),
                Err(msg) => return Err(msg),
            }
            k = k + 1;
        }
        out.push(FieldRules { path: defs[i].0.clone(), rules });
        i = i + 1;
    }
    Ok(out)
}

/// Relies on pact_matching's `Matches<&str>` impl for `&str`: the verdict of
/// one rule on an expected and an actual value, with the rule's message when
/// it rejects them.
#[verifier::external_body]
fn check_rule(rule: &MatchingRule, expected: &str, actual: &str) -> (r: Result<(), String>) {
    expected.matches_with(actual, rule, false).map_err(|e| e.to_string())
}

/// The verdict of each rule on the pair, in order: `None` where the rule
/// accepts it, else the rule's message.
fn rule_verdicts(rules: &Vec<MatchingRule>, expected: &String, actual: &String) -> (r: Vec<
    Option<String>,
>)
    ensures
        r@.len() == rules@.len(),
{
    let mut out: Vec<Option<String>> = Vec::new();
    let mut i: usize = 0;
    while i < rules.len()
        invariant
            i <= rules.len(),
            out@.len() == i,
        decreases rules.len() - i,
    {
        match check_rule(&rules[i], expected.as_str(), actual.as_str()) {
            Ok(()) => out.push(None),
            Err(msg) => out.push(Some(msg)),
        }
        i = i + 1;
    }
    out
}

pub open spec fn verdicts_view(v: Option<Vec<Option<String>>>) -> Option<Seq<Option<String>>> {
    match v {
        Some(vs) => Some(vs@),
        None => None,
    }
}

pub(crate) fn path_of(name: &String) -> (r: String)
    ensures
        r@ == field_path(name@),
{
    let mut path = String::from_str("field:");
    path.append(name.as_str());
    path
}

/// Adds the mismatches of one field to `results`: one for each rule that
/// rejected the values where the field has rules, else one where the values
/// differ.
pub fn compare_field(
    name: &String,
    expected_value: &String,
    actual_value: &String,
    verdicts: &Option<Vec<Option<String>>>,
    results: &mut Vec<Mismatch>,
)
    ensures
        mismatches_view(final(results)@) == mismatches_view(old(results)@) + field_mismatches(
            name@,
            expected_value@,
            actual_value@,
            verdicts_view(*verdicts),
        ),
{
    let ghost start = mismatches_view(results@);
    match verdicts {
        Some(vs) => {
            let mut i: usize = 0;
            while i < vs.len()
                invariant
                    i <= vs.len(),
                    mismatches_view(results@) == start + rule_violations(
                        name@,
                        expected_value@,
                        actual_value@,
                        vs@.take(i as int),
                    ),
                decreases vs.len() - i,
            {
                assert(vs@.take(i as int + 1).drop_last() =~= vs@.take(i as int));
                assert(vs@.take(i as int + 1).last() == vs@[i as int]);
                let ghost before = results@;
                match &vs[i] {
                    Some(msg) => {
                        results.push(
                            Mismatch {
                                kind: MismatchKind::RuleViolation,
                                expected: Some(expected_value.as_str().as_bytes_vec()),
                                actual: Some(actual_value.as_str().as_bytes_vec()),
                                message: msg.clone(),
                                path: path_of(name),
                            },
                        );
                        assert(vs@[i as int] == Some(*msg));
                        assert(mismatches_view(results@) =~= mismatches_view(before).push(
                            rule_violation(name@, expected_value@, actual_value@, msg@),
                        ));
                    },
                    None => {
                        assert(results@ =~= before);
                    },
                }
                assert(mismatches_view(results@) =~= start + rule_violations(
                    name@,
                    expected_value@,
                    actual_value@,
                    vs@.take(i as int + 1),
                ));
                i = i + 1;
            }
            assert(vs@.take(vs.len() as int) =~= vs@);
        },
        None => {
            if *expected_value != *actual_value {
                let mut m = String::from_str("Expected field ");
                m.append(name.as_str());
                m.append(" value to equal '");
                m.append(expected_value.as_str());
                m.append("', but got '");
                m.append(actual_value.as_str());
                m.append("'");
                results.push(
                    Mismatch {
                        kind: MismatchKind::ValueMismatch,
                        expected: Some(expected_value.as_str().as_bytes_vec()),
                        actual: Some(actual_value.as_str().as_bytes_vec()),
                        message: m,
                        path: path_of(name),
                    },
                );
            }
            assert(mismatches_view(results@) =~= start + field_mismatches(
                name@,
                expected_value@,
                actual_value@,
                verdicts_view(*verdicts),
            ));
        },
    }
}

fn missing_field_mismatch(name: &String) -> (r: Mismatch)
    ensures
        r@ == missing_field(name@),
{
    let mut m = String::from_str("Expected field '");
    m.append(name.as_str());
    m.append("', but was missing");
    Mismatch {
        kind: MismatchKind::MissingField,
        expected: Some(name.as_str().as_bytes_vec()),
        actual: None,
        message: m,
        path: String::new(),
    }
}

fn unexpected_field_mismatch(name: &String) -> (r: Mismatch)
    ensures
        r@ == unexpected_field(name@),
{
    let mut m = String::from_str("Unexpected field '");
    m.append(name.as_str());
    m.append("', but was not allowed");
    Mismatch {
        kind: MismatchKind::UnexpectedField,
        expected: None,
        actual: Some(name.as_str().as_bytes_vec()),
        message: m,
        path: String::new(),
    }
}

/// Compares two decoded bodies field by field. Names are compared as keys of
/// a map, the last pair of a name giving its value. A field that both sides
/// hold is checked by the rules registered at its path where there are any,
/// else by equality of the values; with `allow_unexpected` false, each name
/// that only the actual side holds is reported too.
pub fn compare_contents(
    expected: &Vec<(String, String)>,
    actual: &Vec<(String, String)>,
    allow_unexpected: bool,
    rules: &Vec<FieldRules>,
) -> (r: Vec<Mismatch>)
    requires
        paths_unique(rules@),
    ensures
        compared_as(pairs_view(expected@), pairs_view(actual@), allow_unexpected, rules@, mismatches_view(r@)),
{
    let ghost e = pairs_view(expected@);
    let ghost a = pairs_view(actual@);
    let ghost mut gv: Seq<Option<Seq<Option<String>>>> = Seq::new(
        expected@.len(),
        |i: int| None,
    );
    let mut results: Vec<Mismatch> = Vec::new();
    let mut i: usize = 0;
    while i < expected.len()
        invariant
            i <= expected.len(),
            e == pairs_view(expected@),
            a == pairs_view(actual@),
            gv.len() == e.len(),
            mismatches_view(results@) == expected_side(e, a, gv, i as int),
            forall|j: int| 0 <= j < i ==> #[trigger] verdict_fits_at(e, a, rules@, gv, j),
        decreases expected.len() - i,
    {
        let name = &expected[i].0;
        let value = &expected[i].1;
        assert(e[i as int] == (name@, value@));
        let last_here = find_last(expected, name);
        let ghost before = results@;
        let ghost old_gv = gv;
        if last_here == Some(i) {
            match find_last(actual, name) {
                None => {
                    results.push(missing_field_mismatch(name));
                },
                Some(j) => {
                    proof {
                        lemma_last_index_bounds(a, name@);
                    }
                    let actual_value = &actual[j].1;
                    assert(a[j as int].1 == actual_value@);
                    let path = path_of(name);
                    proof {
                        lemma_rules_index_bounds(rules@, path@);
                    }
                    let verdicts = match find_rules(rules, &path) {
                        Some(ri) => Some(rule_verdicts(&rules[ri].rules, value, actual_value)),
                        None => None,
                    };
                    proof {
                        gv = gv.update(i as int, verdicts_view(verdicts));
                    }
                    compare_field(name, value, actual_value, &verdicts, &mut results);
                },
            }
        }
        proof {
            lemma_expected_side_prefix(e, a, old_gv, gv, i as int);
            assert(mismatches_view(results@) =~= expected_side(e, a, gv, i as int + 1));
            assert forall|j: int| 0 <= j < i + 1 implies #[trigger] verdict_fits_at(e, a, rules@, gv, j) by {
                if j < i {
                    assert(verdict_fits_at(e, a, rules@, old_gv, j));
                }
            }
        }
        i = i + 1;
    }
    let ghost expected_part = mismatches_view(results@);
    if !allow_unexpected {
        let mut k: usize = 0;
        while k < actual.len()
            invariant
                k <= actual.len(),
                e == pairs_view(expected@),
                a == pairs_view(actual@),
                mismatches_view(results@) == expected_part + actual_side(e, a, k as int),
            decreases actual.len() - k,
        {
            let name = &actual[k].0;
            assert(a[k as int].0 == name@);
            let last_here = find_last(actual, name);
            let in_expected = find_last(expected, name);
            let ghost before = results@;
            if last_here == Some(k) && in_expected.is_none() {
                let m = unexpected_field_mismatch(name);
                results.push(m);
                assert(mismatches_view(results@) =~= mismatches_view(before).push(
                    unexpected_field(name@),
                ));
            } else {
                assert(results@ =~= before);
            }
            assert(mismatches_view(results@) =~= expected_part + actual_side(e, a, k as int + 1));
            k = k + 1;
        }
    }
    assert(mismatches_view(results@) =~= comparison(e, a, allow_unexpected, gv));
    assert(verdicts_fit(e, a, rules@, gv));
    results
}

/// The digit `d` as text.
pub open spec fn digit(d: nat) -> Seq<char> {
    if d == 0 { "0"@ } else if d == 1 { "1"@ } else if d == 2 { "2"@ } else if d == 3 { "3"@ }
    else if d == 4 { "4"@ } else if d == 5 { "5"@ } else if d == 6 { "6"@ } else if d == 7 { "7"@ }
    else if d == 8 { "8"@ } else { "9"@ }
}

/// `n` written in decimal.
pub open spec fn decimal(n: nat) -> Seq<char>
    decreases n,
{
    if n < 10 {
        digit(n)
    } else {
        decimal(n / 10) + digit(n % 10)
    }
}

fn digit_text(d: usize) -> (r: String)
    requires
        d < 10,
    ensures
        r@ == digit(d as nat),
{
    let s = if d == 0 { "0" } else if d == 1 { "1" } else if d == 2 { "2" } else if d == 3 { "3" }
    else if d == 4 { "4" } else if d == 5 { "5" } else if d == 6 { "6" } else if d == 7 { "7" }
    else if d == 8 { "8" } else { "9" };
    String::from_str(s)
}

fn decimal_text(n: usize) -> (r: String)
    ensures
        r@ == decimal(n as nat),
    decreases n,
{
    if n < 10 {
        digit_text(n)
    } else {
        let mut s = decimal_text(n / 10);
        let d = digit_text(n % 10);
        s.append(d.as_str());
        s
    }
}

/// Why two bodies could not be compared.
#[derive(PartialEq, Eq, Structural, Clone, Copy, Debug)]
pub enum CompareError {
    ExpectedNotUtf8,
    ActualNotUtf8,
}

pub open spec fn unexpected_content(body: Seq<u8>) -> MismatchSpec {
    MismatchSpec {
        kind: MismatchKind::UnexpectedContent,
        expected: None,
        actual: Some(body),
        message: "Expected no Form Url Encoded content, but got "@ + decimal(body.len()) + " bytes"@,
        path: seq![],
    }
}

pub open spec fn missing_content(body: Seq<u8>) -> MismatchSpec {
    MismatchSpec {
        kind: MismatchKind::MissingContent,
        expected: Some(body),
        actual: None,
        message: "Expected Form Url Encoded content, but did not get any"@,
        path: seq![],
    }
}

/// Compares an expected and an actual body, either of which may be absent.
/// Where both are present they are decoded and compared field by field;
/// where one is, the result is one mismatch that says so.
pub fn compare_bodies(
    expected: &Option<Vec<u8>>,
    actual: &Option<Vec<u8>>,
    allow_unexpected: bool,
    rules: &Vec<FieldRules>,
) -> (r: Result<Vec<Mismatch>, CompareError>)
    requires
        paths_unique(rules@),
    ensures
        match (*expected, *actual) {
            (None, None) => r is Ok && r->Ok_0@.len() == 0,
            (None, Some(b)) => r is Ok && mismatches_view(r->Ok_0@) == seq![unexpected_content(b@)],
            (Some(x), None) => r is Ok && mismatches_view(r->Ok_0@) == seq![missing_content(x@)],
            (Some(x), Some(y)) => {
                &&& !vstd::utf8::valid_utf8(x@) ==> r == Err::<Vec<Mismatch>, _>(CompareError::ExpectedNotUtf8)
                &&& vstd::utf8::valid_utf8(x@) && !vstd::utf8::valid_utf8(y@) ==> r == Err::<Vec<Mismatch>, _>(CompareError::ActualNotUtf8)
                &&& vstd::utf8::valid_utf8(x@) && vstd::utf8::valid_utf8(y@) ==> r is Ok && compared_as(
                    decode(vstd::utf8::decode_utf8(x@)),
                    decode(vstd::utf8::decode_utf8(y@)),
                    allow_unexpected,
                    rules@,
                    mismatches_view(r->Ok_0@),
                )
            },
        },
{
    match (expected, actual) {
        (None, None) => Ok(Vec::new()),
        (None, Some(b)) => {
            let mut m = String::from_str("Expected no Form Url Encoded content, but got ");
            let n = decimal_text(b.len());
            m.append(n.as_str());
            m.append(" bytes");
            let mut out: Vec<Mismatch> = Vec::new();
            out.push(Mismatch { kind: MismatchKind::UnexpectedContent, expected: None, actual: Some(b.clone()), message: m, path: String::new() });
            assert(mismatches_view(out@) =~= seq![unexpected_content(b@)]);
            Ok(out)
        },
        (Some(x), None) => {
            let mut out: Vec<Mismatch> = Vec::new();
            out.push(
                Mismatch {
                    kind: MismatchKind::MissingContent,
                    expected: Some(x.clone()),
                    actual: None,
                    message: String::from_str("Expected Form Url Encoded content, but did not get any"),
                    path: String::new(),
                },
            );
            assert(mismatches_view(out@) =~= seq![missing_content(x@)]);
            Ok(out)
        },
        (Some(x), Some(y)) => {
            let et = match utf8_text(x.as_slice()) {
                Some(t) => t,
                None => return Err(CompareError::ExpectedNotUtf8),
            };
            let at = match utf8_text(y.as_slice()) {
                Some(t) => t,
                None => return Err(CompareError::ActualNotUtf8),
            };
            let e = decode_pairs(et.as_str());
            let a = decode_pairs(at.as_str());
            Ok(compare_contents(&e, &a, allow_unexpected, rules))
        },
    }
}

} // verus!
