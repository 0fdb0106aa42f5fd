use vstd::prelude::*;

use pact_models::generators::{GenerateValue, Generator, NoopVariantMatcher, VariantMatcher};

use crate::codec::{decode, decode_pairs, encode, encode_pairs, lemma_round_trip, pairs_safe, pairs_view, utf8_text};
use crate::parser::{field_key_result, parse_field, FieldKeyError};

verus! {

#[verifier::external_type_specification]
#[verifier::external_body]
pub struct ExGenerator(Generator);

/// A generator, with the bounds of a random integer generator held apart so
/// that they can be checked.
pub enum GeneratorKind {
    RandomInt(i32, i32),
    Other(Generator),
}

/// Relies on pact_models' `Generator` enum: tells its `RandomInt` variant
/// apart from the others, moving the bounds out of it.
#[verifier::external_body]
fn split_generator(g: Generator) -> (r: GeneratorKind) {
    match g {
        Generator::RandomInt(min, max) => GeneratorKind::RandomInt(min, max),
        other => GeneratorKind::Other(other),
    }
}

/// A generator registered under a key of the form `field:<name>`. A random
/// integer generator is only held with bounds that give a non-empty range.
pub struct KeyedGenerator {
    key: String,
    kind: GeneratorKind,
}

impl KeyedGenerator {
    /// The bounds of a random integer generator give a non-empty range.
    #[verifier::type_invariant]
    pub closed spec fn well_formed(&self) -> bool {
        match self.kind {
            GeneratorKind::RandomInt(min, max) => min <= max && min < i32::MAX,
            GeneratorKind::Other(_) => true,
        }
    }

    pub closed spec fn key_view(&self) -> Seq<char> {
        self.key@
    }

    /// The generator under `key`; nothing where it is a random integer
    /// generator whose bounds give an empty range.
    pub fn new(key: String, generator: Generator) -> (r: Option<KeyedGenerator>)
        ensures
            r matches Some(k) ==> k.key_view() == key@,
    {
        match split_generator(generator) {
            GeneratorKind::RandomInt(min, max) => {
                if min <= max && min < i32::MAX {
                    Some(KeyedGenerator { key, kind: GeneratorKind::RandomInt(min, max) })
                } else {
                    None
                }
            },
            GeneratorKind::Other(g) => Some(KeyedGenerator { key, kind: GeneratorKind::Other(g) }),
        }
    }

    pub fn key(&self) -> (r: &String)
        ensures
            r@ == self.key_view(),
    {
        &self.key
    }

    pub fn kind(&self) -> &GeneratorKind {
        &self.kind
    }
}

/// A generator as the host describes it: the key it is registered under, the
/// name of its type and, where given, its attributes.
pub struct GeneratorDefinition {
    pub key: String,
    pub generator_type: String,
    pub values: Option<serde_json::Value>,
}

/// Why content could not be generated.
pub enum GenerateError {
    MissingValues,
    InvalidGenerator(String),
    InvalidKey(FieldKeyError),
    NotUtf8,
    GenerationFailed(String),
}

/// The pairs with each value replaced where a generated one is given.
pub open spec fn fill(p: Seq<(Seq<char>, Seq<char>)>, g: Seq<Option<Seq<char>>>) -> Seq<(Seq<char>, Seq<char>)> {
    Seq::new(
        p.len(),
        |i: int|
            (
                p[i].0,
                match g[i] {
                    Some(v) => v,
                    None => p[i].1,
                },
            ),
    )
}

/// Every key names a field.
pub open spec fn keys_valid(gens: Seq<KeyedGenerator>) -> bool {
    forall|i: int| 0 <= i < gens.len() ==> (#[trigger] field_key_result(gens[i].key_view())) is Ok
}

/// A generator is registered for the field `name`.
pub open spec fn has_generator(gens: Seq<KeyedGenerator>, name: Seq<char>) -> bool {
    exists|i: int| 0 <= i < gens.len() && #[trigger] field_key_result(gens[i].key_view()) == Ok::<Seq<char>, (crate::parser::Expected, int)>(name)
}

/// `s` is the template's pairs, in order and with their duplicates, with a
/// value generated for each field that has a generator and the others kept.
pub open spec fn generated_from(
    template: Seq<(Seq<char>, Seq<char>)>,
    gens: Seq<KeyedGenerator>,
    s: Seq<char>,
) -> bool {
    exists|g: Seq<Option<Seq<char>>>|
        #[trigger] g.len() == template.len() && (forall|i: int|
            0 <= i < template.len() ==> (#[trigger] g[i] is Some <==> has_generator(gens, template[i].0)))
            && s == encode(fill(template, g))
}

/// Some field of the template has a generator.
pub open spec fn calls_generator(template: Seq<(Seq<char>, Seq<char>)>, gens: Seq<KeyedGenerator>) -> bool {
    exists|i: int| 0 <= i < template.len() && has_generator(gens, #[trigger] template[i].0)
}

/// Relies on pact_models' `GenerateValue<String>` impl for `Generator`: a
/// value made from the seed with an empty context, or the generator's message
/// where it fails. A `RandomInt` generator panics where its bounds give an
/// empty range, which `well_formed` rules out; the other kind never holds a
/// `RandomInt` generator, as only `split_generator` makes it.
#[verifier::external_body]
fn generate_value(g: &KeyedGenerator, seed: &String) -> (r: Result<String, String>)
    requires
        g.well_formed(),
{
    let context = std::collections::HashMap::new();
    let matcher = NoopVariantMatcher.boxed();
    let result = match &g.kind {
        GeneratorKind::RandomInt(min, max) => Generator::RandomInt(*min, *max).generate_value(seed, &context, &matcher),
        GeneratorKind::Other(o) => o.generate_value(seed, &context, &matcher),
    };
    result.map_err(|e| e.to_string())
}

/// Relies on pact_models' Generator::from_map: the generator of the named
/// type built from the attributes, where they form an object and the type is
/// known.
#[verifier::external_body]
fn make_generator(generator_type: &str, values: &serde_json::Value) -> (r: Option<Generator>) {
    values.as_object().and_then(|m| Generator::from_map(generator_type, m))
}

/// Builds the generators from their definitions, keeping the keys and their
/// order. A definition without attributes, or one whose generator cannot be
/// built, fails the whole call.
pub fn build_generators(defs: &Vec<GeneratorDefinition>) -> (r: Result<Vec<KeyedGenerator>, GenerateError>)
    ensures
        (exists|i: int| 0 <= i < defs@.len() && (#[trigger] defs@[i]).values is None) ==> r is Err,
        defs@.len() == 0 ==> r is Ok,
        r matches Ok(gs) ==> gs@.len() == defs@.len() && forall|i: int|
            0 <= i < defs@.len() ==> #[trigger] gs@[i].key_view() == defs@[i].key@,
{
    let mut out: Vec<KeyedGenerator> = Vec::new();
    let mut i: usize = 0;
    while i < defs.len()
        invariant
            i <= defs.len(),
            out@.len() == i,
            forall|j: int| 0 <= j < i ==> (#[trigger] defs@[j]).values is Some,
            forall|j: int| 0 <= j < i ==> #[trigger] out@[j].key_view() == defs@[j].key@,
        decreases defs.len() - i,
    {
        let d = &defs[i];
        let values = match &d.values {
            Some(v) => v,
            None => return Err(GenerateError::MissingValues),
        };
        match make_generator(d.generator_type.as_str(), values) {
            Some(generator) => match KeyedGenerator::new(d.key.clone(), generator) {
                Some(k) => out.push(k),
                None => {
                    let mut m = String::from_str("Failed to build generator of type ");
                    m.append(d.generator_type.as_str());
                    return Err(GenerateError::InvalidGenerator(m));
                },
            },
            None => {
                let mut m = String::from_str("Failed to build generator of type ");
                m.append(d.generator_type.as_str());
                return Err(GenerateError::InvalidGenerator(m));
            },
        }
        i = i + 1;
    }
    Ok(out)
}

/// The field names of the keys, in order; the error of the first key that
/// names no field.
fn generator_names(gens: &Vec<KeyedGenerator>) -> (r: Result<Vec<String>, FieldKeyError>)
    ensures
        r is Ok <==> keys_valid(gens@),
        r matches Ok(names) ==> names@.len() == gens@.len() && forall|i: int|
            0 <= i < gens@.len() ==> field_key_result(gens@[i].key_view()) == Ok::<Seq<char>, (crate::parser::Expected, int)>(#[trigger] names@[i]@),
{
    let mut names: Vec<String> = Vec::new();
    let mut i: usize = 0;
    while i < gens.len()
        invariant
            i <= gens.len(),
            names@.len() == i,
            forall|j: int| 0 <= j < i ==> field_key_result(gens@[j].key_view()) == Ok::<Seq<char>, (crate::parser::Expected, int)>(#[trigger] names@[j]@),
        decreases gens.len() - i,
    {
        match parse_field(gens[i].key().as_str()) {
            Ok(n) => names.push(n),
            Err(e) => {
                assert(!keys_valid(gens@));
                return Err(e);
            },
        }
        i = i + 1;
    }
    assert forall|j: int| 0 <= j < gens@.len() implies (#[trigger] field_key_result(gens@[j].key_view())) is Ok by {
        assert(field_key_result(gens@[j].key_view()) == Ok::<Seq<char>, (crate::parser::Expected, int)>(names@[j]@));
    }
    Ok(names)
}

/// Produces a body from a template: each field that has a generator gets a
/// generated value, the others keep theirs, and the order and duplicates of
/// the template stay as they are.
pub fn generate_form_urlencoded_content(template: &Vec<u8>, generators: &Vec<KeyedGenerator>) -> (r: Result<
    String,
    GenerateError,
>)
    ensures
        !keys_valid(generators@) ==> r matches Err(GenerateError::InvalidKey(_)),
        keys_valid(generators@) && !vstd::utf8::valid_utf8(template@) ==> r matches Err(GenerateError::NotUtf8),
        keys_valid(generators@) && vstd::utf8::valid_utf8(template@) ==> (r is Ok || r matches Err(GenerateError::GenerationFailed(_))),
        r matches Ok(s) ==> keys_valid(generators@) && vstd::utf8::valid_utf8(template@) && generated_from(
            decode(vstd::utf8::decode_utf8(template@)),
            generators@,
            s@,
        ),
        r matches Err(GenerateError::GenerationFailed(_)) ==> calls_generator(
            decode(vstd::utf8::decode_utf8(template@)),
            generators@,
        ),
        keys_valid(generators@) && vstd::utf8::valid_utf8(template@) && !calls_generator(
            decode(vstd::utf8::decode_utf8(template@)),
            generators@,
        ) ==> r is Ok,
{
    let names = match generator_names(generators) {
        Ok(n) => n,
        Err(e) => return Err(GenerateError::InvalidKey(e)),
    };
    let text = match utf8_text(template.as_slice()) {
        Some(t) => t,
        None => return Err(GenerateError::NotUtf8),
    };
    let pairs = decode_pairs(text.as_str());
    let ghost p = pairs_view(pairs@);
    let ghost mut g: Seq<Option<Seq<char>>> = seq![];
    let mut out: Vec<(String, String)> = Vec::new();
    let mut i: usize = 0;
    while i < pairs.len()
        invariant
            i <= pairs.len(),
            p == pairs_view(pairs@),
            p == decode(vstd::utf8::decode_utf8(template@)),
            keys_valid(generators@),
            vstd::utf8::valid_utf8(template@),
            names@.len() == generators@.len(),
            forall|j: int| 0 <= j < generators@.len() ==> field_key_result(generators@[j].key_view()) == Ok::<Seq<char>, (crate::parser::Expected, int)>(#[trigger] names@[j]@),
            g.len() == i,
            forall|j: int| 0 <= j < i ==> (#[trigger] g[j] is Some <==> has_generator(generators@, p[j].0)),
            pairs_view(out@) == fill(p.take(i as int), g),
        decreases pairs.len() - i,
    {
        let name = &pairs[i].0;
        let value = &pairs[i].1;
        assert(p[i as int] == (name@, value@));
        let mut found: Option<usize> = None;
        let mut k: usize = 0;
        while k < names.len()
            invariant
                k <= names.len(),
                names@.len() == generators@.len(),
                found matches Some(f) ==> f < names@.len() && names@[f as int]@ == name@,
                found is None ==> forall|j: int| 0 <= j < k ==> #[trigger] names@[j]@ != name@,
            decreases names.len() - k,
        {
            if names[k] == *name {
                found = Some(k);
            }
            k = k + 1;
        }
        proof {
            if found is None {
                assert forall|j: int| 0 <= j < generators@.len() implies #[trigger] field_key_result(generators@[j].key_view()) != Ok::<Seq<char>, (crate::parser::Expected, int)>(name@) by {
                    assert(names@[j]@ != name@);
                }
            } else {
                let f = found->Some_0 as int;
                assert(field_key_result(generators@[f].key_view()) == Ok::<Seq<char>, (crate::parser::Expected, int)>(names@[f]@));
            }
        }
        let ghost old_g = g;
        let ghost old_out = out@;
        match found {
            Some(f) => {
                let gk = &generators[f];
                proof {
                    use_type_invariant(gk);
                }
                match generate_value(gk, value) {
                    Ok(v) => {
                        proof {
                            g = g.push(Some(v@));
                        }
                        let ghost vv = v@;
                        out.push((name.clone(), v));
                        assert(pairs_view(out@) =~= pairs_view(old_out).push((name@, vv)));
                    },
                    Err(msg) => {
                        assert(has_generator(generators@, p[i as int].0));
                        return Err(GenerateError::GenerationFailed(msg));
                    },
                }
            },
            None => {
                proof {
                    g = g.push(None);
                }
                out.push((name.clone(), value.clone()));
                assert(pairs_view(out@) =~= pairs_view(old_out).push((name@, value@)));
            },
        }
        assert forall|j: int| 0 <= j < i implies #[trigger] fill(p.take(i as int + 1), g)[j] == fill(p.take(i as int), old_g)[j] by {
            assert(g[j] == old_g[j]);
        }
        assert(pairs_view(out@) =~= fill(p.take(i as int + 1), g));
        assert forall|j: int| 0 <= j < i + 1 implies (#[trigger] g[j] is Some <==> has_generator(generators@, p[j].0)) by {
            if j < i {
                assert(g[j] == old_g[j]);
            }
        }
        i = i + 1;
    }
    assert(p.take(pairs.len() as int) =~= p);
    let s = encode_pairs(&out);
    assert(g.len() == p.len());
    Ok(s)
}

pub open spec fn generated_view(g: Seq<Option<String>>) -> Seq<Option<Seq<char>>> {
    g.map_values(|o: Option<String>| match o {
        Some(v) => Some(v@),
        None => None,
    })
}

/// Encodes the pairs with each value replaced where a generated one is
/// given, in the order of the pairs.
pub fn fill_values(pairs: &Vec<(String, String)>, generated: &Vec<Option<String>>) -> (r: String)
    requires
        generated@.len() == pairs@.len(),
    ensures
        r@ == encode(fill(pairs_view(pairs@), generated_view(generated@))),
{
    let ghost p = pairs_view(pairs@);
    let ghost g = generated_view(generated@);
    let mut out: Vec<(String, String)> = Vec::new();
    let mut i: usize = 0;
    while i < pairs.len()
        invariant
            i <= pairs.len(),
            generated@.len() == pairs@.len(),
            p == pairs_view(pairs@),
            g == generated_view(generated@),
            pairs_view(out@) == fill(p, g).take(i as int),
        decreases pairs.len() - i,
    {
        let ghost before = out@;
        let value = match &generated[i] {
            Some(v) => v.clone(),
            None => pairs[i].1.clone(),
        };
        out.push((pairs[i].0.clone(), value));
        assert(pairs_view(out@) =~= fill(p, g).take(i as int + 1)) by {
            assert(pairs_view(out@) =~= pairs_view(before).push(fill(p, g)[i as int]));
        }
        i = i + 1;
    }
    assert(fill(p, g).take(pairs.len() as int) =~= fill(p, g));
    encode_pairs(&out)
}

/// A generated body decodes back to the template's names, in order, with the
/// generated values, where no name or value holds `&` or `=`.
pub proof fn lemma_generated_decodes(template: Seq<(Seq<char>, Seq<char>)>, g: Seq<Option<Seq<char>>>)
    requires
        pairs_safe(fill(template, g)),
    ensures
        decode(encode(fill(template, g))) == fill(template, g),
{
    lemma_round_trip(fill(template, g));
}

/// Generation is repeatable: with the same template and the same generated
/// values, as deterministic generators give, the body is the same.
pub proof fn lemma_generation_repeatable(
    template: Seq<(Seq<char>, Seq<char>)>,
    g1: Seq<Option<Seq<char>>>,
    g2: Seq<Option<Seq<char>>>,
)
    requires
        g1.len() == template.len(),
        g2.len() == template.len(),
        forall|i: int| 0 <= i < template.len() ==> g1[i] == g2[i],
    ensures
        encode(fill(template, g1)) == encode(fill(template, g2)),
{
    assert(fill(template, g1) =~= fill(template, g2));
}

/// Where no field of a body has a generator, generation gives back the body
/// byte for byte, for a body that encodes pairs holding no `&` or `=`.
pub proof fn lemma_generation_without_generators(
    p: Seq<(Seq<char>, Seq<char>)>,
    gens: Seq<KeyedGenerator>,
    s: Seq<char>,
)
    requires
        pairs_safe(p),
        forall|i: int| 0 <= i < p.len() ==> !has_generator(gens, #[trigger] p[i].0),
        generated_from(decode(encode(p)), gens, s),
    ensures
        s == encode(p),
{
    lemma_round_trip(p);
    let g = choose|g: Seq<Option<Seq<char>>>|
        #[trigger] g.len() == p.len() && (forall|i: int|
            0 <= i < p.len() ==> (#[trigger] g[i] is Some <==> has_generator(gens, p[i].0)))
            && s == encode(fill(p, g));
    assert forall|i: int| 0 <= i < p.len() implies #[trigger] g[i] is None by {
        assert(!has_generator(gens, p[i].0));
    }
    assert(fill(p, g) =~= p);
}

} // verus!
