use vstd::prelude::*;

verus! {

/// A decoded body: its (name, value) pairs in order, duplicates kept.
pub open spec fn pairs_view(v: Seq<(String, String)>) -> Seq<(Seq<char>, Seq<char>)> {
    v.map_values(|p: (String, String)| (p.0@, p.1@))
}

/// Position of the first `c` in `s`, or the length of `s` where there is none.
pub open spec fn find(s: Seq<char>, c: char) -> int
    decreases s.len(),
{
    if s.len() == 0 {
        0
    } else if s[0] == c {
        0
    } else {
        1 + find(s.drop_first(), c)
    }
}

/// Each pair as `name=value&`, in order.
pub open spec fn encode(p: Seq<(Seq<char>, Seq<char>)>) -> Seq<char>
    decreases p.len(),
{
    if p.len() == 0 {
        seq![]
    } else {
        p[0].0 + seq!['='] + p[0].1 + seq!['&'] + encode(p.drop_first())
    }
}

/// One `&`-separated segment: the text before its first `=` and the text
/// between that and the next `=`; nothing where it holds no `=`.
pub open spec fn decode_segment(seg: Seq<char>) -> Option<(Seq<char>, Seq<char>)> {
    let i = find(seg, '=');
    if i >= seg.len() {
        None
    } else {
        let rest = seg.skip(i + 1);
        Some((seg.take(i), rest.take(find(rest, '='))))
    }
}

/// The pairs of the `&`-separated segments of `s`, in order.
pub open spec fn decode(s: Seq<char>) -> Seq<(Seq<char>, Seq<char>)>
    decreases s.len(),
{
    let i = find(s, '&');
    let tail = if 0 <= i < s.len() {
        decode(s.skip(i + 1))
    } else {
        seq![]
    };
    match decode_segment(s.take(i)) {
        Some(p) => seq![p] + tail,
        None => tail,
    }
}

/// Text that the codec carries unchanged: no `&` and no `=`.
pub open spec fn codec_safe(s: Seq<char>) -> bool {
    forall|i: int| 0 <= i < s.len() ==> #[trigger] s[i] != '&' && s[i] != '='
}

pub open spec fn pairs_safe(p: Seq<(Seq<char>, Seq<char>)>) -> bool {
    forall|i: int| 0 <= i < p.len() ==> codec_safe(#[trigger] p[i].0) && codec_safe(p[i].1)
}

proof fn lemma_find_bounds(s: Seq<char>, c: char)
    ensures
        0 <= find(s, c) <= s.len(),
        find(s, c) < s.len() ==> s[find(s, c)] == c,
        forall|k: int| 0 <= k < find(s, c) ==> #[trigger] s[k] != c,
    decreases s.len(),
{
    if s.len() > 0 && s[0] != c {
        lemma_find_bounds(s.drop_first(), c);
        assert forall|k: int| 0 <= k < find(s, c) implies #[trigger] s[k] != c by {
            if k > 0 {
                assert(s[k] == s.drop_first()[k - 1]);
            }
        }
    }
}

proof fn lemma_find_at(s: Seq<char>, c: char, j: int)
    requires
        0 <= j <= s.len(),
        forall|k: int| 0 <= k < j ==> #[trigger] s[k] != c,
        j == s.len() || s[j] == c,
    ensures
        find(s, c) == j,
    decreases s.len(),
{
    if s.len() > 0 && j > 0 {
        assert forall|k: int| 0 <= k < j - 1 implies #[trigger] s.drop_first()[k] != c by {
            assert(s.drop_first()[k] == s[k + 1]);
        }
        lemma_find_at(s.drop_first(), c, j - 1);
    }
}

proof fn lemma_decode_one(name: Seq<char>, value: Seq<char>, rest: Seq<char>)
    requires
        codec_safe(name),
        codec_safe(value),
    ensures
        decode(name + seq!['='] + value + seq!['&'] + rest) == seq![(name, value)] + decode(rest),
{
    let s = name + seq!['='] + value + seq!['&'] + rest;
    let i = name.len() + 1 + value.len() as int;
    assert forall|k: int| 0 <= k < i implies #[trigger] s[k] != '&' by {
        if k < name.len() {
            assert(s[k] == name[k]);
        } else if k > name.len() {
            assert(s[k] == value[k - name.len() - 1]);
        }
    }
    lemma_find_at(s, '&', i);
    let seg = s.take(i);
    assert(seg =~= name + seq!['='] + value);
    assert forall|k: int| 0 <= k < name.len() implies #[trigger] seg[k] != '=' by {
        assert(seg[k] == name[k]);
    }
    lemma_find_at(seg, '=', name.len() as int);
    let tail = seg.skip(name.len() as int + 1);
    assert(tail =~= value);
    assert forall|k: int| 0 <= k < value.len() implies #[trigger] tail[k] != '=' by {
        assert(tail[k] == value[k]);
    }
    lemma_find_at(tail, '=', value.len() as int);
    assert(seg.take(name.len() as int) =~= name);
    assert(tail.take(value.len() as int) =~= value);
    assert(s.skip(i + 1) =~= rest);
}

/// Decoding an encoded sequence of pairs gives back the pairs, in order and
/// with their duplicates, where no name or value holds `&` or `=`.
pub proof fn lemma_round_trip(p: Seq<(Seq<char>, Seq<char>)>)
    requires
        pairs_safe(p),
    ensures
        decode(encode(p)) == p,
    decreases p.len(),
{
    if p.len() > 0 {
        assert(pairs_safe(p.drop_first())) by {
            assert forall|i: int| 0 <= i < p.drop_first().len() implies codec_safe(
                #[trigger] p.drop_first()[i].0,
            ) && codec_safe(p.drop_first()[i].1) by {
                assert(p.drop_first()[i] == p[i + 1]);
                assert(codec_safe(p[i + 1].0) && codec_safe(p[i + 1].1));
            }
        }
        lemma_round_trip(p.drop_first());
        assert(codec_safe(p[0].0) && codec_safe(p[0].1));
        lemma_decode_one(p[0].0, p[0].1, encode(p.drop_first()));
        assert(seq![p[0]] + p.drop_first() =~= p);
    }
}

/// Re-encoding a decoded body gives back the body, byte for byte, where the
/// body is the encoding of pairs that hold no `&` or `=`.
pub proof fn lemma_reencode_identity(p: Seq<(Seq<char>, Seq<char>)>)
    requires
        pairs_safe(p),
    ensures
        encode(decode(encode(p))) == encode(p),
{
    lemma_round_trip(p);
}

/// Relies on querystring::stringify: each pair written as `name=value&`, in order.
#[verifier::external_body]
pub(crate) fn encode_pairs(pairs: &Vec<(String, String)>) -> (r: String)
    ensures
        r@ == encode(pairs_view(pairs@)),
{
    querystring::stringify(pairs.iter().map(|p| (p.0.as_str(), p.1.as_str())).collect())
}

/// Relies on querystring::querify: the `&`-separated segments that hold a `=`,
/// each cut at its first two `=`.
#[verifier::external_body]
pub(crate) fn decode_pairs(s: &str) -> (r: Vec<(String, String)>)
    ensures
        pairs_view(r@) == decode(s@),
{
    querystring::querify(s).into_iter().map(|p| (p.0.to_string(), p.1.to_string())).collect()
}

/// Relies on std::str::from_utf8: the bytes as text where they are valid UTF-8.
#[verifier::external_body]
pub(crate) fn utf8_text(b: &[u8]) -> (r: Option<String>)
    ensures
        r is Some <==> vstd::utf8::valid_utf8(b@),
        r matches Some(t) ==> t@ == vstd::utf8::decode_utf8(b@),
{
    std::str::from_utf8(b).ok().map(|t| t.to_string())
}

/// The pairs of an encoded body, in order and with their duplicates.
pub fn decode_body(s: &str) -> (r: Vec<(String, String)>)
    ensures
        pairs_view(r@) == decode(s@),
{
    decode_pairs(s)
}

/// The encoding of the pairs, in the order given.
pub fn encode_body(pairs: &Vec<(String, String)>) -> (r: String)
    ensures
        r@ == encode(pairs_view(pairs@)),
{
    encode_pairs(pairs)
}

} // verus!
