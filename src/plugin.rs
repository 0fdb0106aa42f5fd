use vstd::prelude::*;

use crate::codec::decode;
use crate::compare::{compare_bodies, compared_as, mismatches_view, missing_content, unexpected_content, CompareError, FieldRules, Mismatch};
use crate::config::{all_defined, any_reference, configured, no_field_keys, setup_form_urlencoded_contents, ConfigError, ConfigValue, InteractionConfig};
use crate::generate::{calls_generator, generate_form_urlencoded_content, generated_from, keys_valid, GenerateError, KeyedGenerator};

verus! {

/// What the plugin offers for a content type.
#[derive(PartialEq, Eq, Structural, Clone, Copy, Debug)]
pub enum EntryKind {
    ContentMatcher,
    ContentGenerator,
}

/// One entry of the catalogue that the plugin announces.
pub struct CatalogueEntry {
    pub kind: EntryKind,
    pub key: String,
    pub content_type: String,
}

/// The plugin for `application/x-www-form-urlencoded` bodies.
#[derive(Debug, Default)]
pub struct FormUrlEncodedPactPlugin {}

impl FormUrlEncodedPactPlugin {
    /// The catalogue: a content matcher and a content generator, both keyed
    /// `form-urlencoded`, for `application/x-www-form-urlencoded`.
    pub fn init_plugin(&self) -> (r: Vec<CatalogueEntry>)
        ensures
            r@.len() == 2,
            r@[0].kind == EntryKind::ContentMatcher,
            r@[1].kind == EntryKind::ContentGenerator,
            forall|i: int| 0 <= i < 2 ==> #[trigger] r@[i].key@ == "form-urlencoded"@
                && r@[i].content_type@ == "application/x-www-form-urlencoded"@,
    {
        let mut r: Vec<CatalogueEntry> = Vec::new();
        r.push(CatalogueEntry {
            kind: EntryKind::ContentMatcher,
            key: String::from_str("form-urlencoded"),
            content_type: String::from_str("application/x-www-form-urlencoded"),
        });
        r.push(CatalogueEntry {
            kind: EntryKind::ContentGenerator,
            key: String::from_str("form-urlencoded"),
            content_type: String::from_str("application/x-www-form-urlencoded"),
        });
        r
    }

    /// Configures an interaction; see `setup_form_urlencoded_contents`.
    pub fn configure_interaction(&self, config: &Option<Vec<(String, ConfigValue)>>) -> (r: Result<
        InteractionConfig,
        ConfigError,
    >)
        ensures
            config is None ==> r matches Err(ConfigError::NoConfig),
            config matches Some(cfg) && !crate::config::fields_well_formed(cfg@) ==> r is Err,
            config matches Some(cfg) && no_field_keys(cfg@) ==> (r matches Ok(out) && out.rules@.len() == 0
                && out.generators@.len() == 0 && out.content@ == crate::codec::encode(seq![])),
            r matches Ok(out) ==> config matches Some(cfg) && configured(cfg@, out),
            config matches Some(cfg) && crate::config::fields_well_formed(cfg@) && !all_defined(cfg@) ==> r is Err,
            config matches Some(cfg) && crate::config::fields_well_formed(cfg@) && all_defined(cfg@) && any_reference(cfg@)
                ==> r matches Err(ConfigError::UnresolvedReference(_)),
            config matches Some(cfg) && crate::config::fields_well_formed(cfg@) && all_defined(cfg@) && !any_reference(cfg@)
                ==> (r is Ok || r matches Err(ConfigError::InvalidGenerator(_))),
    {
        setup_form_urlencoded_contents(config)
    }

    /// Compares an expected and an actual body; see `compare_bodies`.
    pub fn compare_contents(
        &self,
        expected: &Option<Vec<u8>>,
        actual: &Option<Vec<u8>>,
        allow_unexpected: bool,
        rules: &Vec<FieldRules>,
    ) -> (r: Result<Vec<Mismatch>, CompareError>)
        requires
            crate::compare::paths_unique(rules@),
        ensures
            match (*expected, *actual) {
                (None, None) => r is Ok && r->Ok_0@.len() == 0,
                (None, Some(b)) => r is Ok && mismatches_view(r->Ok_0@) == seq![unexpected_content(b@)],
                (Some(x), None) => r is Ok && mismatches_view(r->Ok_0@) == seq![missing_content(x@)],
                (Some(x), Some(y)) => {
                    &&& !vstd::utf8::valid_utf8(x@) ==> r == Err::<Vec<Mismatch>, _>(CompareError::ExpectedNotUtf8)
                    &&& vstd::utf8::valid_utf8(x@) && !vstd::utf8::valid_utf8(y@) ==> r == Err::<Vec<Mismatch>, _>(CompareError::ActualNotUtf8)
                    &&& vstd::utf8::valid_utf8(x@) && vstd::utf8::valid_utf8(y@) ==> r is Ok && compared_as(
                        decode(vstd::utf8::decode_utf8(x@)),
                        decode(vstd::utf8::decode_utf8(y@)),
                        allow_unexpected,
                        rules@,
                        mismatches_view(r->Ok_0@),
                    )
                },
            },
    {
        compare_bodies(expected, actual, allow_unexpected, rules)
    }

    /// Generates a body from a template; see `generate_form_urlencoded_content`.
    pub fn generate_content(&self, template: &Vec<u8>, generators: &Vec<KeyedGenerator>) -> (r: Result<
        String,
        GenerateError,
    >)
        ensures
            !keys_valid(generators@) ==> r matches Err(GenerateError::InvalidKey(_)),
            keys_valid(generators@) && !vstd::utf8::valid_utf8(template@) ==> r matches Err(GenerateError::NotUtf8),
            keys_valid(generators@) && vstd::utf8::valid_utf8(template@) ==> (r is Ok || r matches Err(GenerateError::GenerationFailed(_))),
            r matches Ok(s) ==> keys_valid(generators@) && vstd::utf8::valid_utf8(template@) && generated_from(
                decode(vstd::utf8::decode_utf8(template@)),
                generators@,
                s@,
            ),
            r matches Err(GenerateError::GenerationFailed(_)) ==> calls_generator(
                decode(vstd::utf8::decode_utf8(template@)),
                generators@,
            ),
            keys_valid(generators@) && vstd::utf8::valid_utf8(template@) && !calls_generator(
                decode(vstd::utf8::decode_utf8(template@)),
                generators@,
            ) ==> r is Ok,
    {
        generate_form_urlencoded_content(template, generators)
    }
}

} // verus!
