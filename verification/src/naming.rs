//! Random run identifiers and the container naming convention.
//!
//! Every resource created for a run carries a 20-character random tag of
//! lowercase letters: the run's network and named volumes share one run
//! identifier, and every container name ends in a tag of its own.

use rand::Rng;
use vstd::prelude::*;
use vstd::string::StringExecFns;

verus! {

/// Length of the random tag on container names, volume names and the
/// run's network name.
pub const RANDOM_TAG_LEN: usize = 20;

/// A lowercase ASCII letter.
pub open spec fn is_lower_alpha(c: char) -> bool {
    97 <= c as u32 <= 122
}

/// A string of exactly `len` lowercase ASCII letters.
pub open spec fn is_lower_alpha_tag(s: Seq<char>, len: int) -> bool {
    s.len() == len && (forall|i: int| 0 <= i < s.len() ==> is_lower_alpha(#[trigger] s[i]))
}

/// The final name of a container: `{namespace}-{base}-{suffix}`, where
/// `base` is the composition's handle or user-supplied name.
pub open spec fn spec_final_name(ns: Seq<char>, base: Seq<char>, sfx: Seq<char>) -> Seq<char> {
    ns + seq!['-'] + base + seq!['-'] + sfx
}

/// Relies on `rand::thread_rng` and `rand::Rng::gen_range`: a draw from a
/// non-empty inclusive byte range lies within that range.
#[verifier::external_body]
fn random_lowercase_byte() -> (b: u8)
    ensures
        97 <= b <= 122,
{
    rand::thread_rng().gen_range(b'a'..=b'z')
}

/// Relies on `String::from_utf8`: bytes below 0x80 are valid UTF-8 and
/// decode one byte to one character of the same code point.
#[verifier::external_body]
fn string_from_ascii_bytes(bytes: Vec<u8>) -> (s: String)
    requires
        forall|i: int| 0 <= i < bytes@.len() ==> bytes@[i] < 128,
    ensures
        s@.len() == bytes@.len(),
        forall|i: int| 0 <= i < bytes@.len() ==> #[trigger] s@[i] as u32 == bytes@[i] as u32,
{
    match String::from_utf8(bytes) {
        Ok(s) => s,
        Err(_) => String::new(),
    }
}

/// A fresh random string of `len` lowercase letters.
pub fn generate_random_string(len: usize) -> (s: String)
    ensures
        is_lower_alpha_tag(s@, len as int),
{
    let mut bytes: Vec<u8> = Vec::new();
    let mut i: usize = 0;
    while i < len
        invariant
            i <= len,
            bytes@.len() == i,
            forall|j: int| 0 <= j < bytes@.len() ==> 97 <= #[trigger] bytes@[j] <= 122,
        decreases len - i,
    {
        bytes.push(random_lowercase_byte());
        i = i + 1;
    }
    let s = string_from_ascii_bytes(bytes);
    assert forall|j: int| 0 <= j < s@.len() implies is_lower_alpha(#[trigger] s@[j]) by {
        assert(s@[j] as u32 == bytes@[j] as u32);
    }
    s
}

/// Builds `{namespace}-{base}-{suffix}`.
pub fn build_final_name(namespace: &str, base: &str, suffix: &str) -> (r: String)
    ensures
        r@ == spec_final_name(namespace@, base@, suffix@),
{
    proof {
        reveal_strlit("-");
    }
    let mut r = namespace.to_owned();
    r.append("-");
    r.append(base);
    r.append("-");
    r.append(suffix);
    proof {
        assert("-"@ =~= seq!['-']);
        assert(r@ =~= spec_final_name(namespace@, base@, suffix@));
    }
    r
}

/// Builds `{base}-{suffix}`, the shape of suffixed volume names and of
/// the run's network name.
pub fn build_suffixed_name(base: &str, suffix: &str) -> (r: String)
    ensures
        r@ == base@ + seq!['-'] + suffix@,
{
    proof {
        reveal_strlit("-");
    }
    let mut r = base.to_owned();
    r.append("-");
    r.append(suffix);
    proof {
        assert("-"@ =~= seq!['-']);
        assert(r@ =~= base@ + seq!['-'] + suffix@);
    }
    r
}

/// Distinct random tags give distinct final container names, whatever the
/// namespaces and base names are: the final name always ends in its
/// tag, so equal names would force equal tags.
pub proof fn lemma_distinct_suffixes_distinct_names(
    ns1: Seq<char>,
    base1: Seq<char>,
    sfx1: Seq<char>,
    ns2: Seq<char>,
    base2: Seq<char>,
    sfx2: Seq<char>,
)
    requires
        sfx1.len() == sfx2.len(),
        sfx1 != sfx2,
    ensures
        spec_final_name(ns1, base1, sfx1) != spec_final_name(ns2, base2, sfx2),
{
    let n1 = spec_final_name(ns1, base1, sfx1);
    let n2 = spec_final_name(ns2, base2, sfx2);
    assert(n1.subrange(n1.len() - sfx1.len(), n1.len() as int) =~= sfx1);
    assert(n2.subrange(n2.len() - sfx2.len(), n2.len() as int) =~= sfx2);
    if n1 == n2 {
        assert(sfx1 =~= sfx2);
    }
}

} // verus!
