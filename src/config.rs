use vstd::prelude::*;

use pact_models::generators::Generator;
use pact_models::matchingrules::expressions::parse_matcher_def;
use pact_models::matchingrules::MatchingRule;

use crate::codec::{encode, encode_pairs, pairs_view};
use crate::compare::{field_path, path_of, FieldRules};
use crate::generate::KeyedGenerator;
use crate::parser::{field_key_result, parse_field, FieldKeyError};

verus! {

/// A configuration value: only text can hold a field's expression.
pub enum ConfigValue {
    Text(String),
    Null,
    Number,
    Bool,
    Struct,
    List,
    Missing,
}

/// One entry of a parsed expression: a matching rule, or a reference to one
/// that has not been resolved.
pub enum RuleEntry {
    Rule(MatchingRule),
    Reference(String),
}

/// What an expression defines for a field: an example value, its rules and
/// at most one generator.
pub struct FieldDefinition {
    pub example: String,
    pub rules: Vec<RuleEntry>,
    pub generator: Option<Generator>,
}

/// What configuring an interaction yields.
pub struct InteractionConfig {
    pub content: String,
    pub content_type: String,
    pub rules: Vec<FieldRules>,
    pub generators: Vec<KeyedGenerator>,
    pub markup: String,
}

/// Why an interaction could not be configured.
pub enum ConfigError {
    NoConfig,
    InvalidKey(FieldKeyError),
    InvalidValue { key: String, message: String },
    UnresolvedReference(String),
    InvalidGenerator(String),
}

pub open spec fn content_type_name() -> Seq<char> {
    "application/x-www-form-urlencoded"@
}

/// Keys that define a field start with `field:`; the others are ignored.
pub open spec fn is_field_prefixed(k: Seq<char>) -> bool {
    k.len() >= 6 && k.take(6) == "field:"@
}

/// The names of the fields that the configuration defines, in order.
pub open spec fn field_names(cfg: Seq<(String, ConfigValue)>) -> Seq<Seq<char>>
    decreases cfg.len(),
{
    if cfg.len() == 0 {
        seq![]
    } else {
        let rest = field_names(cfg.drop_last());
        let k = cfg.last().0@;
        if is_field_prefixed(k) {
            match field_key_result(k) {
                Ok(n) => rest.push(n),
                Err(_) => rest,
            }
        } else {
            rest
        }
    }
}

pub open spec fn text_of(v: ConfigValue) -> Seq<char> {
    match v {
        ConfigValue::Text(s) => s@,
        _ => seq![],
    }
}

/// The expressions of the fields that the configuration defines, in order,
/// beside `field_names`.
pub open spec fn field_exprs(cfg: Seq<(String, ConfigValue)>) -> Seq<Seq<char>>
    decreases cfg.len(),
{
    if cfg.len() == 0 {
        seq![]
    } else {
        let rest = field_exprs(cfg.drop_last());
        let k = cfg.last().0@;
        if is_field_prefixed(k) {
            match field_key_result(k) {
                Ok(_) => rest.push(text_of(cfg.last().1)),
                Err(_) => rest,
            }
        } else {
            rest
        }
    }
}

/// Every field's expression is accepted by the expression parser.
pub open spec fn all_defined(cfg: Seq<(String, ConfigValue)>) -> bool {
    forall|k: int| 0 <= k < field_exprs(cfg).len() ==> (#[trigger] definition_of(field_exprs(cfg)[k])) is Some
}

/// Some field's expression holds an unresolved reference.
pub open spec fn any_reference(cfg: Seq<(String, ConfigValue)>) -> bool {
    exists|k: int, j: int|
        0 <= k < field_exprs(cfg).len() && #[trigger] definition_of(field_exprs(cfg)[k]) is Some && 0 <= j
            < definition_of(field_exprs(cfg)[k])->Some_0.1.len() && #[trigger] definition_of(
            field_exprs(cfg)[k],
        )->Some_0.1[j]
}

/// The example values of the fields, in order.
pub open spec fn field_examples(cfg: Seq<(String, ConfigValue)>) -> Seq<Seq<char>> {
    Seq::new(field_exprs(cfg).len(), |k: int| definition_of(field_exprs(cfg)[k])->Some_0.0)
}

proof fn lemma_exprs_prefix(cfg: Seq<(String, ConfigValue)>, m: int)
    requires
        0 <= m <= cfg.len(),
    ensures
        field_exprs(cfg.take(m)).len() <= field_exprs(cfg).len(),
        forall|k: int| 0 <= k < field_exprs(cfg.take(m)).len() ==> field_exprs(cfg)[k] == #[trigger] field_exprs(cfg.take(m))[k],
    decreases cfg.len() - m,
{
    if m < cfg.len() {
        lemma_exprs_prefix(cfg, m + 1);
        assert(cfg.take(m + 1).drop_last() =~= cfg.take(m));
        let a = field_exprs(cfg.take(m));
        let b = field_exprs(cfg.take(m + 1));
        assert forall|k: int| 0 <= k < a.len() implies field_exprs(cfg)[k] == #[trigger] a[k] by {
            assert(b[k] == a[k]);
        }
    } else {
        assert(cfg.take(m) =~= cfg);
    }
}

/// A key that does not start with `field:` is ignored: the configuration
/// with it defines the same fields, with the same expressions, as without it,
/// and is well formed exactly when the configuration without it is.
pub proof fn lemma_other_key_ignored(cfg: Seq<(String, ConfigValue)>, key: String, value: ConfigValue)
    requires
        !is_field_prefixed(key@),
    ensures
        field_names(cfg.push((key, value))) == field_names(cfg),
        field_exprs(cfg.push((key, value))) == field_exprs(cfg),
        fields_well_formed(cfg.push((key, value))) == fields_well_formed(cfg),
        no_field_keys(cfg.push((key, value))) == no_field_keys(cfg),
{
    let c2 = cfg.push((key, value));
    assert(c2.drop_last() =~= cfg);
    assert forall|i: int| 0 <= i < cfg.len() implies #[trigger] c2[i] == cfg[i] by {}
    if fields_well_formed(cfg) {
        assert forall|i: int|
            0 <= i < c2.len() && is_field_prefixed(#[trigger] c2[i].0@) implies field_key_result(c2[i].0@) is Ok
                && c2[i].1 is Text by {
            assert(c2[i] == cfg[i]);
        }
    }
    if fields_well_formed(c2) {
        assert forall|i: int|
            0 <= i < cfg.len() && is_field_prefixed(#[trigger] cfg[i].0@) implies field_key_result(cfg[i].0@) is Ok
                && cfg[i].1 is Text by {
            assert(c2[i] == cfg[i]);
        }
    }
    if no_field_keys(cfg) {
        assert forall|j: int| 0 <= j < c2.len() implies !is_field_prefixed(#[trigger] c2[j].0@) by {
            if j < cfg.len() {
                assert(c2[j] == cfg[j]);
            }
        }
    }
    if no_field_keys(c2) {
        assert forall|j: int| 0 <= j < cfg.len() implies !is_field_prefixed(#[trigger] cfg[j].0@) by {
            assert(c2[j] == cfg[j]);
        }
    }
}

proof fn lemma_names_exprs_len(cfg: Seq<(String, ConfigValue)>)
    ensures
        field_names(cfg).len() == field_exprs(cfg).len(),
    decreases cfg.len(),
{
    if cfg.len() > 0 {
        lemma_names_exprs_len(cfg.drop_last());
    }
}

/// Every field key is well formed and holds text.
pub open spec fn fields_well_formed(cfg: Seq<(String, ConfigValue)>) -> bool {
    forall|i: int|
        0 <= i < cfg.len() && is_field_prefixed(#[trigger] cfg[i].0@) ==> field_key_result(cfg[i].0@) is Ok
            && cfg[i].1 is Text
}

/// The pairs of the field names with the example values.
pub open spec fn zip(names: Seq<Seq<char>>, examples: Seq<Seq<char>>) -> Seq<(Seq<char>, Seq<char>)> {
    Seq::new(names.len(), |i: int| (names[i], examples[i]))
}

pub open spec fn markup_of(content: Seq<char>) -> Seq<char> {
    "```\n"@ + content + "```\n"@
}

/// The paths of the rule set are those of defined fields, each once.
pub open spec fn rules_well_formed(rules: Seq<FieldRules>, names: Seq<Seq<char>>) -> bool {
    &&& forall|i: int, j: int| 0 <= i < j < rules.len() ==> #[trigger] rules[i].path@ != #[trigger] rules[j].path@
    &&& forall|i: int| 0 <= i < rules.len() ==> exists|k: int| 0 <= k < names.len() && #[trigger] rules[i].path@ == field_path(#[trigger] names[k])
}

/// The keys of the generator set are the paths of defined fields, each once.
pub open spec fn generators_well_formed(gens: Seq<KeyedGenerator>, names: Seq<Seq<char>>) -> bool {
    &&& forall|i: int, j: int| 0 <= i < j < gens.len() ==> #[trigger] gens[i].key_view() != #[trigger] gens[j].key_view()
    &&& forall|i: int| 0 <= i < gens.len() ==> exists|k: int| 0 <= k < names.len() && #[trigger] gens[i].key_view() == field_path(#[trigger] names[k])
}

/// What pact_models' parse_matcher_def makes of an expression: nothing where
/// it refuses it, else the example value, for each rule entry whether it is
/// an unresolved reference, and whether a generator is defined.
pub uninterp spec fn definition_of(s: Seq<char>) -> Option<(Seq<char>, Seq<bool>, bool)>;

/// For each rule entry, whether it is an unresolved reference.
pub open spec fn entry_kinds(rules: Seq<RuleEntry>) -> Seq<bool> {
    rules.map_values(|e: RuleEntry| e is Reference)
}

pub open spec fn summary(d: FieldDefinition) -> (Seq<char>, Seq<bool>, bool) {
    (d.example@, entry_kinds(d.rules@), d.generator is Some)
}

/// Relies on pact_models' parse_matcher_def: the example value, rules and
/// generator that an expression defines, which depend on the expression
/// alone; an empty expression is refused.
#[verifier::external_body]
fn parse_definition(s: &str) -> (r: Result<FieldDefinition, String>)
    ensures
        r is Ok <==> definition_of(s@) is Some,
        r matches Ok(d) ==> definition_of(s@) == Some(summary(d)),
        s@.len() == 0 ==> r is Err,
{
    match parse_matcher_def(s) {
        Ok(d) => Ok(FieldDefinition {
            example: d.value,
            rules: d.rules.into_iter().map(|e| e.either(RuleEntry::Rule, |r| RuleEntry::Reference(format!("{:?}", r)))).collect(),
            generator: d.generator,
        }),
        Err(e) => Err(e.to_string()),
    }
}

/// Why a configuration value that is not text holds no definition.
pub open spec fn value_error(v: ConfigValue) -> Seq<char> {
    match v {
        ConfigValue::Null => "Null is not a valid value definition value"@,
        ConfigValue::Number => "Number is not a valid value definition value"@,
        ConfigValue::Bool => "Bool is not a valid value definition value"@,
        ConfigValue::Struct => "Struct is not a valid value definition value"@,
        ConfigValue::List => "List is not a valid value definition value"@,
        _ => "Not a valid value definition (missing value)"@,
    }
}

/// Reads the definition of a field from a configuration value, which must be
/// text.
pub fn parse_value(v: &ConfigValue) -> (r: Result<FieldDefinition, String>)
    ensures
        v matches ConfigValue::Text(s) ==> (r is Ok <==> definition_of(s@) is Some),
        v matches ConfigValue::Text(s) ==> (r matches Ok(d) ==> definition_of(s@) == Some(summary(d))),
        !(v is Text) ==> (r matches Err(m) && m@ == value_error(*v)),
{
    match v {
        ConfigValue::Text(s) => parse_definition(s.as_str()),
        ConfigValue::Null => Err(String::from_str("Null is not a valid value definition value")),
        ConfigValue::Number => Err(String::from_str("Number is not a valid value definition value")),
        ConfigValue::Bool => Err(String::from_str("Bool is not a valid value definition value")),
        ConfigValue::Struct => Err(String::from_str("Struct is not a valid value definition value")),
        ConfigValue::List => Err(String::from_str("List is not a valid value definition value")),
        ConfigValue::Missing => Err(String::from_str("Not a valid value definition (missing value)")),
    }
}

fn field_prefixed(k: &String) -> (r: bool)
    ensures
        r == is_field_prefixed(k@),
{
    let s = k.as_str();
    let n = s.unicode_len();
    if n < 6 {
        return false;
    }
    let head = String::from_str(s.substring_char(0, 6));
    let prefix = String::from_str("field:");
    head == prefix
}

pub open spec fn names_view(v: Seq<String>) -> Seq<Seq<char>> {
    v.map_values(|s: String| s@)
}

fn reference_error(r: &String) -> (e: ConfigError)
    ensures
        e matches ConfigError::UnresolvedReference(_),
{
    let mut m = String::from_str("Expected a matching rule definition, but got an un-resolved reference ");
    m.append(r.as_str());
    ConfigError::UnresolvedReference(m)
}

/// The rules of a definition, in order; an error where one of its entries
/// is an unresolved reference.
fn take_rules(entries: Vec<RuleEntry>) -> (r: Vec<MatchingRule>)
    requires
        no_reference(entries@),
    ensures
        r@.len() == entries@.len(),
{
    let ghost total = entries@.len();
    let mut entries = entries;
    let mut rules: Vec<MatchingRule> = Vec::new();
    while entries.len() > 0
        invariant
            no_reference(entries@),
            rules@.len() + entries@.len() == total,
        decreases entries.len(),
    {
        let ghost before = entries@;
        match entries.remove(0) {
            RuleEntry::Rule(rule) => rules.push(rule),
            RuleEntry::Reference(_) => {
                assert(before[0] is Reference);
            },
        }
        assert forall|j: int| 0 <= j < entries@.len() implies !(#[trigger] entries@[j] is Reference) by {
            assert(entries@[j] == before[j + 1]);
        }
    }
    rules
}

pub open spec fn no_reference(entries: Seq<RuleEntry>) -> bool {
    forall|j: int| 0 <= j < entries.len() ==> !(#[trigger] entries[j] is Reference)
}

/// Position of an unresolved reference among the entries, if any.
fn find_reference(entries: &Vec<RuleEntry>) -> (r: Option<usize>)
    ensures
        r matches Some(j) ==> j < entries@.len() && entries@[j as int] is Reference,
        r is None ==> no_reference(entries@),
{
    let mut j: usize = 0;
    while j < entries.len()
        invariant
            j <= entries.len(),
            forall|k: int| 0 <= k < j ==> !(#[trigger] entries@[k] is Reference),
        decreases entries.len() - j,
    {
        if let RuleEntry::Reference(_) = &entries[j] {
            return Some(j);
        }
        j = j + 1;
    }
    None
}

/// The number of rules that the `k`th field's expression defines.
pub open spec fn rule_count(cfg: Seq<(String, ConfigValue)>, k: int) -> nat {
    definition_of(field_exprs(cfg)[k])->Some_0.1.len()
}

/// Whether the `k`th field's expression defines a generator.
pub open spec fn defines_generator(cfg: Seq<(String, ConfigValue)>, k: int) -> bool {
    definition_of(field_exprs(cfg)[k])->Some_0.2
}

/// The `k`th field defines rules, and no later definition of its name does.
pub open spec fn last_with_rules(cfg: Seq<(String, ConfigValue)>, k: int) -> bool {
    rule_count(cfg, k) > 0 && forall|j: int|
        k < j < field_names(cfg).len() && field_names(cfg)[j] == field_names(cfg)[k] ==> #[trigger] rule_count(cfg, j) == 0
}

/// The `k`th field defines a generator, and no later definition of its name
/// does.
pub open spec fn last_with_generator(cfg: Seq<(String, ConfigValue)>, k: int) -> bool {
    defines_generator(cfg, k) && forall|j: int|
        k < j < field_names(cfg).len() && field_names(cfg)[j] == field_names(cfg)[k] ==> !#[trigger] defines_generator(cfg, j)
}

pub open spec fn path_present(rules: Seq<FieldRules>, p: Seq<char>) -> bool {
    exists|i: int| 0 <= i < rules.len() && #[trigger] rules[i].path@ == p
}

pub open spec fn key_present(gens: Seq<KeyedGenerator>, p: Seq<char>) -> bool {
    exists|i: int| 0 <= i < gens.len() && #[trigger] gens[i].key_view() == p
}

/// The rule list stands under the path of a field whose last definition with
/// rules it comes from, with as many rules.
pub open spec fn rules_from(cfg: Seq<(String, ConfigValue)>, fr: FieldRules) -> bool {
    exists|k: int|
        0 <= k < field_names(cfg).len() && #[trigger] last_with_rules(cfg, k) && fr.path@ == field_path(field_names(cfg)[k])
            && fr.rules@.len() == rule_count(cfg, k)
}

/// The generator stands under the path of a field whose last definition with
/// a generator it comes from.
pub open spec fn generator_from(cfg: Seq<(String, ConfigValue)>, g: KeyedGenerator) -> bool {
    exists|k: int|
        0 <= k < field_names(cfg).len() && #[trigger] last_with_generator(cfg, k) && g.key_view() == field_path(field_names(cfg)[k])
}

/// Each rule list comes from the last definition with rules of a field, and
/// each such definition has its list.
pub open spec fn rules_exact(cfg: Seq<(String, ConfigValue)>, rules: Seq<FieldRules>) -> bool {
    &&& forall|i: int| 0 <= i < rules.len() ==> rules_from(cfg, #[trigger] rules[i])
    &&& forall|k: int| 0 <= k < field_names(cfg).len() && #[trigger] last_with_rules(cfg, k) ==> path_present(rules, field_path(field_names(cfg)[k]))
}

/// Each generator comes from the last definition with a generator of a
/// field, and each such definition has its generator.
pub open spec fn generators_exact(cfg: Seq<(String, ConfigValue)>, gens: Seq<KeyedGenerator>) -> bool {
    &&& forall|i: int| 0 <= i < gens.len() ==> generator_from(cfg, #[trigger] gens[i])
    &&& forall|k: int| 0 <= k < field_names(cfg).len() && #[trigger] last_with_generator(cfg, k) ==> key_present(gens, field_path(field_names(cfg)[k]))
}

/// No key of the configuration starts with `field:`.
pub open spec fn no_field_keys(cfg: Seq<(String, ConfigValue)>) -> bool {
    forall|j: int| 0 <= j < cfg.len() ==> !is_field_prefixed(#[trigger] cfg[j].0@)
}

/// `out` is a configuration of the fields of `cfg`: the example body encodes
/// the field names, in order, with their example values; the markup shows it;
/// each rule list and generator stands under the path of a field, each path
/// once, and comes from the last definition of that field that has rules or
/// a generator.
pub open spec fn configured(cfg: Seq<(String, ConfigValue)>, out: InteractionConfig) -> bool {
    let names = field_names(cfg);
    &&& fields_well_formed(cfg)
    &&& out.content_type@ == content_type_name()
    &&& all_defined(cfg)
    &&& !any_reference(cfg)
    &&& out.content@ == encode(zip(names, field_examples(cfg)))
    &&& out.markup@ == markup_of(out.content@)
    &&& rules_well_formed(out.rules@, names)
    &&& generators_well_formed(out.generators@, names)
    &&& rules_exact(cfg, out.rules@)
    &&& generators_exact(cfg, out.generators@)
}

fn has_rule_path(rules: &Vec<FieldRules>, path: &String) -> (r: bool)
    ensures
        r == exists|j: int| 0 <= j < rules@.len() && #[trigger] rules@[j].path@ == path@,
{
    let mut j: usize = 0;
    while j < rules.len()
        invariant
            j <= rules.len(),
            forall|k: int| 0 <= k < j ==> #[trigger] rules@[k].path@ != path@,
        decreases rules.len() - j,
    {
        if rules[j].path == *path {
            return true;
        }
        j = j + 1;
    }
    false
}

fn has_generator_key(gens: &Vec<KeyedGenerator>, key: &String) -> (r: bool)
    ensures
        r == exists|j: int| 0 <= j < gens@.len() && #[trigger] gens@[j].key_view() == key@,
{
    let mut j: usize = 0;
    while j < gens.len()
        invariant
            j <= gens.len(),
            forall|k: int| 0 <= k < j ==> #[trigger] gens@[k].key_view() != key@,
        decreases gens.len() - j,
    {
        if *gens[j].key() == *key {
            return true;
        }
        j = j + 1;
    }
    false
}

/// Configures an interaction from the keys and expressions of a
/// configuration: an example body built from the fields' example values, the
/// rules and the generator of each field under its path, and markup that
/// shows the example body. Keys that do not start with `field:` are ignored.
pub fn setup_form_urlencoded_contents(config: &Option<Vec<(String, ConfigValue)>>) -> (r: Result<
    InteractionConfig,
    ConfigError,
>)
    ensures
        config is None ==> r matches Err(ConfigError::NoConfig),
        config matches Some(cfg) && !fields_well_formed(cfg@) ==> r is Err,
        config matches Some(cfg) && no_field_keys(cfg@) ==> (r matches Ok(out) && out.rules@.len() == 0
            && out.generators@.len() == 0 && out.content@ == encode(seq![])),
        r matches Ok(out) ==> config matches Some(cfg) && configured(cfg@, out),
        config matches Some(cfg) && fields_well_formed(cfg@) && !all_defined(cfg@) ==> r is Err,
        config matches Some(cfg) && fields_well_formed(cfg@) && all_defined(cfg@) && any_reference(cfg@)
            ==> r matches Err(ConfigError::UnresolvedReference(_)),
        config matches Some(cfg) && fields_well_formed(cfg@) && all_defined(cfg@) && !any_reference(cfg@)
            ==> (r is Ok || r matches Err(ConfigError::InvalidGenerator(_))),
{
    let cfg = match config {
        Some(c) => c,
        None => return Err(ConfigError::NoConfig),
    };
    let mut names: Vec<String> = Vec::new();
    let mut defs: Vec<FieldDefinition> = Vec::new();
    let ghost none_prefixed = no_field_keys(cfg@);
    let mut i: usize = 0;
    while i < cfg.len()
        invariant
            *config == Some(*cfg),
            none_prefixed == (no_field_keys(cfg@)),
            i <= cfg.len(),
            defs@.len() == names@.len(),
            names_view(names@) == field_names(cfg@.take(i as int)),
            fields_well_formed(cfg@.take(i as int)),
            (forall|j: int| 0 <= j < i ==> !is_field_prefixed(#[trigger] cfg@[j].0@)) ==> names@.len() == 0,
            field_exprs(cfg@.take(i as int)).len() == defs@.len(),
            forall|k: int| 0 <= k < defs@.len() ==> definition_of(#[trigger] field_exprs(cfg@.take(i as int))[k]) == Some(summary(defs@[k])),
            forall|k: int| 0 <= k < defs@.len() ==> no_reference(#[trigger] defs@[k].rules@),
        decreases cfg.len() - i,
    {
        let key = &cfg[i].0;
        assert(cfg@.take(i as int + 1).drop_last() =~= cfg@.take(i as int));
        assert(cfg@.take(i as int + 1).last() == cfg@[i as int]);
        if field_prefixed(key) {
            let name = match parse_field(key.as_str()) {
                Ok(n) => n,
                Err(e) => {
                    assert(is_field_prefixed(cfg@[i as int].0@));
                    assert(!no_field_keys(cfg@));
                    assert(!fields_well_formed(cfg@));
                    return Err(ConfigError::InvalidKey(e));
                },
            };
            proof {
                lemma_exprs_prefix(cfg@, i as int + 1);
                assert(field_exprs(cfg@.take(i as int + 1)) == field_exprs(cfg@.take(i as int)).push(
                    text_of(cfg@[i as int].1),
                ));
                assert(field_exprs(cfg@.take(i as int + 1))[defs@.len() as int] == text_of(cfg@[i as int].1));
                assert(field_exprs(cfg@)[defs@.len() as int] == text_of(cfg@[i as int].1));
            }
            let def = match parse_value(&cfg[i].1) {
                Ok(d) => d,
                Err(message) => {
                    assert(is_field_prefixed(cfg@[i as int].0@));
                    assert(!no_field_keys(cfg@));
                    proof {
                        if cfg@[i as int].1 is Text {
                            assert(definition_of(field_exprs(cfg@)[defs@.len() as int]) is None);
                        }
                    }
                    return Err(ConfigError::InvalidValue { key: key.clone(), message });
                },
            };
            match find_reference(&def.rules) {
                Some(j) => {
                    let e = match &def.rules[j] {
                        RuleEntry::Reference(text) => reference_error(text),
                        RuleEntry::Rule(_) => ConfigError::UnresolvedReference(String::new()),
                    };
                    assert(is_field_prefixed(cfg@[i as int].0@));
                    assert(!no_field_keys(cfg@));
                    assert(summary(def).1[j as int]);
                    assert(definition_of(field_exprs(cfg@)[defs@.len() as int])->Some_0.1[j as int]);
                    assert(any_reference(cfg@));
                    return Err(e);
                },
                None => {},
            }
            let ghost old_defs = defs@;
            names.push(name);
            defs.push(def);
            assert(names_view(names@) =~= field_names(cfg@.take(i as int + 1)));
            assert forall|k: int| 0 <= k < defs@.len() implies definition_of(#[trigger] field_exprs(cfg@.take(i as int + 1))[k]) == Some(summary(defs@[k])) by {
                if k < old_defs.len() {
                    assert(defs@[k] == old_defs[k]);
                }
            }
            assert forall|k: int| 0 <= k < defs@.len() implies no_reference(#[trigger] defs@[k].rules@) by {
                if k < old_defs.len() {
                    assert(defs@[k] == old_defs[k]);
                }
            }
        } else {
            assert(names_view(names@) =~= field_names(cfg@.take(i as int + 1)));
            assert(field_exprs(cfg@.take(i as int + 1)) == field_exprs(cfg@.take(i as int)));
        }
        assert forall|j: int|
            0 <= j < i + 1 && is_field_prefixed(#[trigger] cfg@.take(i as int + 1)[j].0@) implies field_key_result(
            cfg@.take(i as int + 1)[j].0@,
        ) is Ok && cfg@.take(i as int + 1)[j].1 is Text by {
            if j < i {
                assert(cfg@.take(i as int + 1)[j] == cfg@.take(i as int)[j]);
            }
        }
        i = i + 1;
    }
    assert(cfg@.take(cfg.len() as int) =~= cfg@);
    assert(none_prefixed ==> names@.len() == 0);
    assert(all_defined(cfg@));
    assert(!any_reference(cfg@)) by {
        assert forall|k: int, j: int|
            0 <= k < field_exprs(cfg@).len() && definition_of(field_exprs(cfg@)[k]) is Some && 0 <= j
                < definition_of(field_exprs(cfg@)[k])->Some_0.1.len() implies !#[trigger] definition_of(
            field_exprs(cfg@)[k],
        )->Some_0.1[j] by {
            assert(definition_of(field_exprs(cfg@)[k]) == Some(summary(defs@[k])));
            assert(!(defs@[k].rules@[j] is Reference));
        }
    }
    let ghost all = names_view(names@);
    let mut values: Vec<(String, String)> = Vec::new();
    let mut k: usize = 0;
    while k < names.len()
        invariant
            *config == Some(*cfg),
            fields_well_formed(cfg@),
            all == field_names(cfg@),
            none_prefixed ==> names@.len() == 0,
            none_prefixed == (no_field_keys(cfg@)),
            k <= names.len(),
            defs@.len() == names@.len(),
            all == names_view(names@),
            values@.len() == k,
            forall|j: int| 0 <= j < k ==> (#[trigger] values@[j]).0@ == all[j] && values@[j].1@ == defs@[j].example@,
            field_exprs(cfg@).len() == defs@.len(),
            forall|j: int| 0 <= j < defs@.len() ==> definition_of(#[trigger] field_exprs(cfg@)[j]) == Some(summary(defs@[j])),
            forall|j: int| 0 <= j < defs@.len() ==> no_reference(#[trigger] defs@[j].rules@),
            all_defined(cfg@),
            !any_reference(cfg@),
        decreases names.len() - k,
    {
        values.push((names[k].clone(), defs[k].example.clone()));
        k = k + 1;
    }
    proof {
        lemma_names_exprs_len(cfg@);
    }
    let ghost ex = field_examples(cfg@);
    assert forall|j: int| 0 <= j < all.len() implies #[trigger] ex[j] == defs@[j].example@ by {
        assert(definition_of(field_exprs(cfg@)[j]) == Some(summary(defs@[j])));
    }
    assert(pairs_view(values@) =~= zip(all, ex));
    let content = encode_pairs(&values);
    let mut markup = String::from_str("```\n");
    markup.append(content.as_str());
    markup.append("```\n");
    let ghost total = names@.len();
    let mut rules: Vec<FieldRules> = Vec::new();
    let mut generators: Vec<KeyedGenerator> = Vec::new();
    while defs.len() > 0
        invariant
            *config == Some(*cfg),
            fields_well_formed(cfg@),
            all == field_names(cfg@),
            none_prefixed ==> total == 0,
            none_prefixed == (no_field_keys(cfg@)),
            ex == field_examples(cfg@),
            all_defined(cfg@),
            !any_reference(cfg@),
            forall|k: int| 0 <= k < defs@.len() ==> no_reference(#[trigger] defs@[k].rules@),
            content@ == encode(zip(all, ex)),
            markup@ == markup_of(content@),
            defs@.len() <= names@.len(),
            names@.len() == total,
            all == names_view(names@),
            rules@.len() <= total - defs@.len(),
            generators@.len() <= total - defs@.len(),
            rules_well_formed(rules@, all),
            generators_well_formed(generators@, all),
            field_exprs(cfg@).len() == total,
            forall|j: int| 0 <= j < defs@.len() ==> definition_of(#[trigger] field_exprs(cfg@)[j]) == Some(summary(defs@[j])),
            forall|i: int| 0 <= i < rules@.len() ==> rules_from(cfg@, #[trigger] rules@[i]),
            forall|k: int| defs@.len() <= k < total && #[trigger] rule_count(cfg@, k) > 0 ==> path_present(rules@, field_path(all[k])),
            forall|i: int| 0 <= i < generators@.len() ==> generator_from(cfg@, #[trigger] generators@[i]),
            forall|k: int| defs@.len() <= k < total && #[trigger] defines_generator(cfg@, k) ==> key_present(generators@, field_path(all[k])),
        decreases defs.len(),
    {
        let ghost old_defs = defs@;
        let ghost old_rules = rules@;
        let ghost old_gens = generators@;
        let def = defs.pop().unwrap();
        let n = defs.len();
        assert(def == old_defs[n as int]);
        assert(definition_of(field_exprs(cfg@)[n as int]) == Some(summary(def)));
        assert(rule_count(cfg@, n as int) == def.rules@.len());
        assert(defines_generator(cfg@, n as int) == def.generator is Some);
        assert(all[n as int] == names@[n as int]@);
        let path = path_of(&names[n]);
        let field_rules = take_rules(def.rules);
        if field_rules.len() > 0 && !has_rule_path(&rules, &path) {
            let ghost before = rules@;
            rules.push(FieldRules { path: path.clone(), rules: field_rules });
            proof {
                assert forall|j: int| n < j < all.len() && all[j] == all[n as int] implies #[trigger] rule_count(cfg@, j) == 0 by {
                    if rule_count(cfg@, j) > 0 {
                        assert(path_present(old_rules, field_path(all[j])));
                    }
                }
                assert(last_with_rules(cfg@, n as int));
                assert(rules_from(cfg@, rules@[rules@.len() - 1]));
                assert(rules@[rules@.len() - 1].path@ == path@);
                assert(path_present(rules@, path@));
            }
            assert forall|a: int| 0 <= a < rules@.len() implies exists|b: int|
                0 <= b < all.len() && #[trigger] rules@[a].path@ == field_path(#[trigger] all[b]) by {
                if a == rules@.len() - 1 {
                    assert(rules@[a].path@ == field_path(all[n as int]));
                } else {
                    assert(rules@[a] == before[a]);
                }
            }
            assert forall|a: int, b: int| 0 <= a < b < rules@.len() implies #[trigger] rules@[a].path@ != #[trigger] rules@[b].path@ by {
                if b == rules@.len() - 1 {
                    assert(rules@[a] == before[a]);
                } else {
                    assert(rules@[a] == before[a] && rules@[b] == before[b]);
                }
            }
        }
        proof {
            assert forall|i: int| 0 <= i < rules@.len() implies rules_from(cfg@, #[trigger] rules@[i]) by {
                if i < old_rules.len() {
                    assert(rules@[i] == old_rules[i]);
                }
            }
            assert forall|k: int| n <= k < total && #[trigger] rule_count(cfg@, k) > 0 implies path_present(rules@, field_path(all[k])) by {
                if k > n {
                    let i = choose|i: int| 0 <= i < old_rules.len() && #[trigger] old_rules[i].path@ == field_path(all[k]);
                    assert(rules@[i] == old_rules[i]);
                } else if rules@ == old_rules {
                    assert(path_present(old_rules, path@));
                }
            }
        }
        match def.generator {
            Some(g) => {
                if !has_generator_key(&generators, &path) {
                    let ghost before = generators@;
                    let k = match KeyedGenerator::new(path, g) {
                        Some(k) => k,
                        None => return Err(ConfigError::InvalidGenerator(names[n].clone())),
                    };
                    generators.push(k);
                    proof {
                        assert forall|j: int| n < j < all.len() && all[j] == all[n as int] implies !#[trigger] defines_generator(cfg@, j) by {
                            if defines_generator(cfg@, j) {
                                assert(key_present(old_gens, field_path(all[j])));
                            }
                        }
                        assert(last_with_generator(cfg@, n as int));
                        assert(generator_from(cfg@, generators@[generators@.len() - 1]));
                        assert(generators@[generators@.len() - 1].key_view() == path@);
                        assert(key_present(generators@, path@));
                    }
                    assert forall|a: int| 0 <= a < generators@.len() implies exists|b: int|
                        0 <= b < all.len() && #[trigger] generators@[a].key_view() == field_path(#[trigger] all[b]) by {
                        if a == generators@.len() - 1 {
                            assert(generators@[a].key_view() == field_path(all[n as int]));
                        } else {
                            assert(generators@[a] == before[a]);
                        }
                    }
                    assert forall|a: int, b: int| 0 <= a < b < generators@.len() implies #[trigger] generators@[a].key_view() != #[trigger] generators@[b].key_view() by {
                        if b == generators@.len() - 1 {
                            assert(generators@[a] == before[a]);
                        } else {
                            assert(generators@[a] == before[a] && generators@[b] == before[b]);
                        }
                    }
                }
            },
            None => {},
        }
        proof {
            assert forall|i: int| 0 <= i < generators@.len() implies generator_from(cfg@, #[trigger] generators@[i]) by {
                if i < old_gens.len() {
                    assert(generators@[i] == old_gens[i]);
                }
            }
            assert forall|k: int| n <= k < total && #[trigger] defines_generator(cfg@, k) implies key_present(generators@, field_path(all[k])) by {
                if k > n {
                    let i = choose|i: int| 0 <= i < old_gens.len() && #[trigger] old_gens[i].key_view() == field_path(all[k]);
                    assert(generators@[i] == old_gens[i]);
                } else if generators@ == old_gens {
                    assert(key_present(old_gens, path@));
                }
            }
            assert forall|j: int| 0 <= j < defs@.len() implies definition_of(#[trigger] field_exprs(cfg@)[j]) == Some(summary(defs@[j])) by {
                assert(defs@[j] == old_defs[j]);
            }
            assert forall|j: int| 0 <= j < defs@.len() implies no_reference(#[trigger] defs@[j].rules@) by {
                assert(defs@[j] == old_defs[j]);
            }
        }
    }
    assert(content@ == encode(zip(field_names(cfg@), field_examples(cfg@))));
    assert forall|k: int| 0 <= k < field_names(cfg@).len() && #[trigger] last_with_rules(cfg@, k) implies path_present(rules@, field_path(field_names(cfg@)[k])) by {
        assert(rule_count(cfg@, k) > 0);
    }
    assert forall|k: int| 0 <= k < field_names(cfg@).len() && #[trigger] last_with_generator(cfg@, k) implies key_present(generators@, field_path(field_names(cfg@)[k])) by {
        assert(defines_generator(cfg@, k));
    }
    Ok(
        InteractionConfig {
            content,
            content_type: String::from_str("application/x-www-form-urlencoded"),
            rules,
            generators,
            markup,
        },
    )
}

} // verus!
