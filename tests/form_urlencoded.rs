use form_urlencoded_plugin::codec::{decode_body, encode_body};
use form_urlencoded_plugin::compare::{
    build_rules, compare_bodies, compare_contents, compare_field, CompareError, FieldRules, Mismatch,
    MismatchKind, RuleDefinition,
};
use form_urlencoded_plugin::config::{parse_value, setup_form_urlencoded_contents, ConfigError, ConfigValue};
use form_urlencoded_plugin::generate::{
    build_generators, fill_values, generate_form_urlencoded_content, GenerateError, GeneratorDefinition,
    GeneratorKind, KeyedGenerator,
};
use form_urlencoded_plugin::parser::{parse_field, Expected};
use form_urlencoded_plugin::plugin::{EntryKind, FormUrlEncodedPactPlugin};
use pact_models::generators::Generator;
use pact_models::matchingrules::MatchingRule;

fn pairs(items: &[(&str, &str)]) -> Vec<(String, String)> {
    items.iter().map(|(k, v)| (k.to_string(), v.to_string())).collect()
}

fn text(s: &str) -> ConfigValue {
    ConfigValue::Text(s.to_string())
}

#[test]
fn parse_field_reads_name() {
    assert_eq!(parse_field("field:name").unwrap(), "name");
    assert_eq!(parse_field("field:AbC").unwrap(), "AbC");
    assert_eq!(parse_field(" field : dob ").unwrap(), "dob");
}

#[test]
fn parse_field_missing_field_word() {
    let e = parse_field("fields:name").unwrap_err();
    assert_eq!(e.expected, Expected::Field);
    assert_eq!(e.remainder, "fields:name");
    assert_eq!(
        e.message(),
        "'fields:name' is not a valid field definition, expected 'field', got 'fields:name'"
    );
    assert_eq!(parse_field("").unwrap_err().expected, Expected::Field);
}

#[test]
fn parse_field_missing_colon() {
    let e = parse_field("field name").unwrap_err();
    assert_eq!(e.expected, Expected::Colon);
    assert_eq!(e.remainder, "name");
}

#[test]
fn parse_field_missing_name() {
    assert_eq!(parse_field("field:").unwrap_err().expected, Expected::Name);
    assert_eq!(parse_field("field:123").unwrap_err().expected, Expected::Name);
    assert_eq!(parse_field("field:a_b").unwrap_err().expected, Expected::Name);
    assert_eq!(parse_field("field:ab1").unwrap_err().remainder, "ab1");
}

#[test]
fn decode_keeps_order_and_duplicates() {
    let d = decode_body("a=1&b=2&a=3");
    assert_eq!(d, pairs(&[("a", "1"), ("b", "2"), ("a", "3")]));
}

#[test]
fn decode_skips_segments_without_equals() {
    assert_eq!(decode_body("x&a=1&"), pairs(&[("a", "1")]));
    assert_eq!(decode_body("a=b=c"), pairs(&[("a", "b")]));
    assert_eq!(decode_body(""), pairs(&[]));
}

#[test]
fn encode_writes_each_pair() {
    assert_eq!(encode_body(&pairs(&[("a", "1"), ("b", "")])), "a=1&b=&");
    assert_eq!(encode_body(&pairs(&[])), "");
}

#[test]
fn round_trip_keeps_pairs() {
    let p = pairs(&[("name", "Fred"), ("age", "22"), ("name", "Bob")]);
    assert_eq!(decode_body(&encode_body(&p)), p);
}

#[test]
fn missing_field_reported_once() {
    let r = compare_contents(&pairs(&[("a", "1"), ("b", "2")]), &pairs(&[("a", "1")]), false, &vec![]);
    assert_eq!(r.len(), 1);
    assert_eq!(r[0].kind, MismatchKind::MissingField);
    assert_eq!(r[0].message, "Expected field 'b', but was missing");
    assert_eq!(r[0].expected, Some(b"b".to_vec()));
    assert_eq!(r[0].path, "");
}

#[test]
fn unexpected_field_reported_unless_allowed() {
    let e = pairs(&[("a", "1")]);
    let a = pairs(&[("a", "1"), ("b", "2")]);
    let r = compare_contents(&e, &a, false, &vec![]);
    assert_eq!(r.len(), 1);
    assert_eq!(r[0].kind, MismatchKind::UnexpectedField);
    assert_eq!(r[0].message, "Unexpected field 'b', but was not allowed");
    assert_eq!(r[0].actual, Some(b"b".to_vec()));
    assert!(compare_contents(&e, &a, true, &vec![]).is_empty());
}

#[test]
fn absent_expected_reports_byte_count() {
    let r = compare_bodies(&None, &Some(b"a=1".to_vec()), false, &vec![]).unwrap();
    assert_eq!(r.len(), 1);
    assert_eq!(r[0].kind, MismatchKind::UnexpectedContent);
    assert_eq!(r[0].message, "Expected no Form Url Encoded content, but got 3 bytes");
    assert_eq!(r[0].expected, None);
    assert_eq!(r[0].actual, Some(b"a=1".to_vec()));
    assert_eq!(r[0].path, "");
    let r = compare_bodies(&None, &Some(vec![b'x'; 1234]), false, &vec![]).unwrap();
    assert_eq!(r[0].message, "Expected no Form Url Encoded content, but got 1234 bytes");
    let r = compare_bodies(&None, &Some(vec![]), false, &vec![]).unwrap();
    assert_eq!(r[0].message, "Expected no Form Url Encoded content, but got 0 bytes");
}

#[test]
fn absent_actual_and_both_absent() {
    let r = compare_bodies(&Some(b"a=1".to_vec()), &None, false, &vec![]).unwrap();
    assert_eq!(r.len(), 1);
    assert_eq!(r[0].kind, MismatchKind::MissingContent);
    assert_eq!(r[0].message, "Expected Form Url Encoded content, but did not get any");
    assert_eq!(r[0].expected, Some(b"a=1".to_vec()));
    assert_eq!(r[0].actual, None);
    assert!(compare_bodies(&None, &None, false, &vec![]).unwrap().is_empty());
}

#[test]
fn invalid_utf8_bodies_are_refused() {
    let bad = vec![0xff, 0xfe];
    assert_eq!(
        compare_bodies(&Some(bad.clone()), &Some(b"a=1".to_vec()), false, &vec![]).err(),
        Some(CompareError::ExpectedNotUtf8)
    );
    assert_eq!(
        compare_bodies(&Some(b"a=1".to_vec()), &Some(bad), false, &vec![]).err(),
        Some(CompareError::ActualNotUtf8)
    );
}

fn equality_rules(path: &str) -> Vec<FieldRules> {
    vec![FieldRules { path: path.to_string(), rules: vec![MatchingRule::Equality] }]
}

#[test]
fn equality_rule_accepts_equal_values() {
    let r = compare_contents(&pairs(&[("a", "1")]), &pairs(&[("a", "1")]), false, &equality_rules("field:a"));
    assert!(r.is_empty());
}

#[test]
fn equality_rule_reports_its_own_message() {
    let r = compare_contents(&pairs(&[("a", "1")]), &pairs(&[("a", "2")]), false, &equality_rules("field:a"));
    assert_eq!(r.len(), 1);
    assert_eq!(r[0].kind, MismatchKind::RuleViolation);
    assert_eq!(r[0].message, "Expected '2' to be equal to '1'");
    assert_eq!(r[0].path, "field:a");
    assert_eq!(r[0].expected, Some(b"1".to_vec()));
    assert_eq!(r[0].actual, Some(b"2".to_vec()));
}

#[test]
fn rule_reports_each_failing_rule() {
    let rules = vec![FieldRules {
        path: "field:a".to_string(),
        rules: vec![MatchingRule::Equality, MatchingRule::Type, MatchingRule::Regex("^x$".to_string())],
    }];
    let r = compare_contents(&pairs(&[("a", "1")]), &pairs(&[("a", "2")]), false, &rules);
    assert_eq!(r.len(), 2);
    assert_eq!(r[0].message, "Expected '2' to be equal to '1'");
    assert_eq!(r[1].message, "Expected '2' to match '^x$'");
}

#[test]
fn type_rule_accepts_different_values() {
    let rules = vec![FieldRules { path: "field:a".to_string(), rules: vec![MatchingRule::Type] }];
    let r = compare_contents(&pairs(&[("a", "1")]), &pairs(&[("a", "x")]), false, &rules);
    assert!(r.is_empty());
}

#[test]
fn values_compared_by_equality_without_rules() {
    let r = compare_contents(&pairs(&[("a", "1")]), &pairs(&[("a", "2")]), false, &vec![]);
    assert_eq!(r.len(), 1);
    assert_eq!(r[0].kind, MismatchKind::ValueMismatch);
    assert_eq!(r[0].message, "Expected field a value to equal '1', but got '2'");
    assert_eq!(r[0].path, "field:a");
}

#[test]
fn duplicate_names_compare_last_value() {
    let r = compare_contents(&pairs(&[("a", "1"), ("a", "2")]), &pairs(&[("a", "3"), ("a", "2")]), false, &vec![]);
    assert!(r.is_empty());
}

#[test]
fn compare_field_adds_to_results() {
    let mut results: Vec<Mismatch> = vec![];
    let verdicts = Some(vec![None, Some("bad".to_string())]);
    compare_field(&"n".to_string(), &"e".to_string(), &"a".to_string(), &verdicts, &mut results);
    assert_eq!(results.len(), 1);
    assert_eq!(results[0].message, "bad");
    compare_field(&"n".to_string(), &"e".to_string(), &"e".to_string(), &None, &mut results);
    assert_eq!(results.len(), 1);
}

#[test]
fn configure_without_field_keys() {
    let cfg = vec![("other".to_string(), text("x"))];
    let out = setup_form_urlencoded_contents(&Some(cfg)).ok().unwrap();
    assert!(out.rules.is_empty());
    assert!(out.generators.is_empty());
    assert_eq!(out.content, "");
    assert_eq!(out.markup, "```\n```\n");
    let out = setup_form_urlencoded_contents(&Some(vec![])).ok().unwrap();
    assert_eq!(out.content, "");
}

#[test]
fn configure_without_config() {
    assert!(matches!(setup_form_urlencoded_contents(&None), Err(ConfigError::NoConfig)));
}

#[test]
fn configure_one_field() {
    let cfg = vec![("field:name".to_string(), text("matching(type,'Name')"))];
    let out = setup_form_urlencoded_contents(&Some(cfg)).ok().unwrap();
    assert_eq!(out.content, "name=Name&");
    assert_eq!(out.content_type, "application/x-www-form-urlencoded");
    assert_eq!(out.markup, "```\nname=Name&```\n");
    assert_eq!(out.rules.len(), 1);
    assert_eq!(out.rules[0].path, "field:name");
    assert_eq!(out.rules[0].rules, vec![MatchingRule::Type]);
    assert!(out.generators.is_empty());
}

#[test]
fn configure_field_with_generator() {
    let cfg = vec![("field:age".to_string(), text("matching(integer,100)"))];
    let out = setup_form_urlencoded_contents(&Some(cfg)).ok().unwrap();
    assert_eq!(out.content, "age=100&");
    assert_eq!(out.rules[0].path, "field:age");
}

#[test]
fn configure_refuses_bad_keys_and_values() {
    let cfg = vec![("field:1".to_string(), text("matching(type,'x')"))];
    assert!(matches!(setup_form_urlencoded_contents(&Some(cfg)), Err(ConfigError::InvalidKey(_))));
    let cfg = vec![("field:a".to_string(), ConfigValue::Number)];
    match setup_form_urlencoded_contents(&Some(cfg)) {
        Err(ConfigError::InvalidValue { key, message }) => {
            assert_eq!(key, "field:a");
            assert_eq!(message, "Number is not a valid value definition value");
        }
        _ => panic!("expected an invalid value"),
    }
    let cfg = vec![("field:a".to_string(), text(""))];
    assert!(matches!(setup_form_urlencoded_contents(&Some(cfg)), Err(ConfigError::InvalidValue { .. })));
}

#[test]
fn generate_without_generators_keeps_body() {
    let out = generate_form_urlencoded_content(&b"a=1&b=2&a=3&".to_vec(), &vec![]).ok().unwrap();
    assert_eq!(out, "a=1&b=2&a=3&");
}

#[test]
fn generate_replaces_values_in_place() {
    let gens = vec![KeyedGenerator::new("field:a".to_string(), Generator::RandomInt(5, 5)).unwrap()];
    let out = generate_form_urlencoded_content(&b"a=1&b=2&a=3".to_vec(), &gens).ok().unwrap();
    assert_eq!(out, "a=5&b=2&a=5&");
    let again = generate_form_urlencoded_content(&b"a=1&b=2&a=3".to_vec(), &gens).ok().unwrap();
    assert_eq!(out, again);
}

#[test]
fn generate_refuses_bad_input() {
    let gens = vec![KeyedGenerator::new("a".to_string(), Generator::RandomInt(5, 5)).unwrap()];
    assert!(matches!(generate_form_urlencoded_content(&b"a=1".to_vec(), &gens), Err(GenerateError::InvalidKey(_))));
    assert!(matches!(generate_form_urlencoded_content(&vec![0xff], &vec![]), Err(GenerateError::NotUtf8)));
}

#[test]
fn plugin_catalogue() {
    let plugin = FormUrlEncodedPactPlugin::default();
    let c = plugin.init_plugin();
    assert_eq!(c.len(), 2);
    assert_eq!(c[0].kind, EntryKind::ContentMatcher);
    assert_eq!(c[1].kind, EntryKind::ContentGenerator);
    assert_eq!(c[0].key, "form-urlencoded");
    assert_eq!(c[1].content_type, "application/x-www-form-urlencoded");
}

#[test]
fn build_rules_keeps_paths_and_order() {
    let attrs = serde_json::Value::Object(serde_json::Map::new());
    let defs = vec![(
        "field:a".to_string(),
        vec![
            RuleDefinition { rule_type: "equality".to_string(), attributes: attrs.clone() },
            RuleDefinition { rule_type: "type".to_string(), attributes: attrs },
        ],
    )];
    let rules = build_rules(&defs).unwrap();
    assert_eq!(rules.len(), 1);
    assert_eq!(rules[0].path, "field:a");
    assert_eq!(rules[0].rules, vec![MatchingRule::Equality, MatchingRule::Type]);
}

#[test]
fn build_rules_refuses_unknown_rule() {
    let defs = vec![(
        "field:a".to_string(),
        vec![RuleDefinition {
            rule_type: "regex".to_string(),
            attributes: serde_json::Value::Object(serde_json::Map::new()),
        }],
    )];
    assert!(build_rules(&defs).is_err());
}

#[test]
fn build_generators_from_definitions() {
    let mut m = serde_json::Map::new();
    m.insert("min".to_string(), serde_json::Value::from(5));
    m.insert("max".to_string(), serde_json::Value::from(5));
    let defs = vec![GeneratorDefinition {
        key: "field:a".to_string(),
        generator_type: "RandomInt".to_string(),
        values: Some(serde_json::Value::Object(m)),
    }];
    let gens = build_generators(&defs).ok().unwrap();
    assert_eq!(gens.len(), 1);
    assert_eq!(gens[0].key(), "field:a");
    assert!(matches!(gens[0].kind(), GeneratorKind::RandomInt(5, 5)));
}

#[test]
fn build_generators_refuses_bad_definitions() {
    let missing = vec![GeneratorDefinition {
        key: "field:a".to_string(),
        generator_type: "RandomInt".to_string(),
        values: None,
    }];
    assert!(matches!(build_generators(&missing), Err(GenerateError::MissingValues)));
    let invalid = vec![GeneratorDefinition {
        key: "field:a".to_string(),
        generator_type: "Regex".to_string(),
        values: Some(serde_json::Value::Object(serde_json::Map::new())),
    }];
    match build_generators(&invalid) {
        Err(GenerateError::InvalidGenerator(m)) => assert_eq!(m, "Failed to build generator of type Regex"),
        _ => panic!("expected an invalid generator"),
    }
}

#[test]
fn random_int_generator_needs_a_range() {
    assert!(KeyedGenerator::new("field:a".to_string(), Generator::RandomInt(10, 5)).is_none());
    assert!(KeyedGenerator::new("field:a".to_string(), Generator::RandomInt(i32::MAX, i32::MAX)).is_none());
    assert!(KeyedGenerator::new("field:a".to_string(), Generator::RandomInt(1, i32::MAX)).is_some());
    let mut m = serde_json::Map::new();
    m.insert("min".to_string(), serde_json::Value::from(10));
    m.insert("max".to_string(), serde_json::Value::from(5));
    let defs = vec![GeneratorDefinition {
        key: "field:a".to_string(),
        generator_type: "RandomInt".to_string(),
        values: Some(serde_json::Value::Object(m)),
    }];
    assert!(matches!(build_generators(&defs), Err(GenerateError::InvalidGenerator(_))));
}

#[test]
fn fill_values_replaces_given_values() {
    let p = pairs(&[("a", "1"), ("b", "2"), ("a", "3")]);
    let g = vec![Some("x".to_string()), None, Some("y".to_string())];
    assert_eq!(fill_values(&p, &g), "a=x&b=2&a=y&");
}

#[test]
fn parse_field_messages_differ_by_token() {
    let a = parse_field("name").unwrap_err().message();
    let b = parse_field("field name").unwrap_err().message();
    let c = parse_field("field:").unwrap_err().message();
    assert_eq!(a, "'name' is not a valid field definition, expected 'field', got 'name'");
    assert_eq!(b, "'field name' is not a valid field definition, expected ':', got 'name'");
    assert_eq!(c, "'field:' is not a valid field definition, expected a text, got ''");
}

#[test]
fn parse_value_messages_name_the_kind() {
    assert_eq!(parse_value(&ConfigValue::Null).err().unwrap(), "Null is not a valid value definition value");
    assert_eq!(parse_value(&ConfigValue::Missing).err().unwrap(), "Not a valid value definition (missing value)");
    let d = parse_value(&text("matching(type,'Name')")).ok().unwrap();
    assert_eq!(d.example, "Name");
}

#[test]
fn configure_ignores_other_keys() {
    let base = vec![("field:name".to_string(), text("matching(type,'Name')"))];
    let mut more = vec![("field:name".to_string(), text("matching(type,'Name')"))];
    more.push(("other".to_string(), ConfigValue::Number));
    let a = setup_form_urlencoded_contents(&Some(base)).ok().unwrap();
    let b = setup_form_urlencoded_contents(&Some(more)).ok().unwrap();
    assert_eq!(a.content, b.content);
    assert_eq!(a.rules.len(), b.rules.len());
}

#[test]
fn configure_refuses_unparsable_expression() {
    let cfg = vec![("field:a".to_string(), text("matching(nope"))];
    assert!(matches!(setup_form_urlencoded_contents(&Some(cfg)), Err(ConfigError::InvalidValue { .. })));
}

#[test]
fn configure_last_definition_wins() {
    let cfg = vec![
        ("field: a".to_string(), text("matching(type,'x')")),
        ("field:a".to_string(), text("matching(regex,'\\d+','12')")),
    ];
    let out = setup_form_urlencoded_contents(&Some(cfg)).ok().unwrap();
    assert_eq!(out.content, "a=x&a=12&");
    assert_eq!(out.rules.len(), 1);
    assert_eq!(out.rules[0].rules, vec![MatchingRule::Regex("\\d+".to_string())]);
}

#[test]
fn builders_accept_nothing_to_build() {
    assert!(build_generators(&vec![]).is_ok());
    assert!(build_rules(&vec![("field:a".to_string(), vec![])]).unwrap()[0].rules.is_empty());
}
