//! Random short codes: six characters drawn from `a`–`z` and `0`–`9`.
use rand::Rng;
use vstd::prelude::*;
use crate::text::{chars_of, string_of};

verus! {

/// The characters a generated code is drawn from, in this order.
pub const CODE_ALPHABET: &'static str = "abcdefghijklmnopqrstuvwxyz0123456789";

/// The number of characters in `CODE_ALPHABET`.
pub const ALPHABET_LEN: usize = 36;

/// The number of characters of a generated code.
pub const CODE_LEN: usize = 6;

/// `s` has the shape of a generated code: six characters, each one of
/// `CODE_ALPHABET`.
pub open spec fn is_generated_code(s: Seq<char>) -> bool {
    s.len() == CODE_LEN && forall|i: int| 0 <= i < s.len() ==> CODE_ALPHABET@.contains(#[trigger] s[i])
}

/// The code made of the alphabet characters at the positions `indices`.
pub open spec fn code_for(indices: Seq<usize>) -> Seq<char> {
    indices.map_values(|i: usize| CODE_ALPHABET@[i as int])
}

/// A uniformly drawn number below `bound`, from the thread-local generator
/// of `rand` (`rand::rng().random_range(0..bound)`). The draw panics on an
/// empty range, which `bound > 0` excludes; all that is stated of the
/// result is that it lies in the range.
#[verifier::external_body]
fn random_below(bound: usize) -> (r: usize)
    requires
        bound > 0,
    ensures
        r < bound,
{
    rand::rng().random_range(0..bound)
}

/// The code whose characters are the alphabet characters at `indices`.
pub fn code_from_indices(indices: &Vec<usize>) -> (s: String)
    requires
        forall|k: int| 0 <= k < indices@.len() ==> #[trigger] indices@[k] < ALPHABET_LEN,
    ensures
        s@ == code_for(indices@),
{
    proof {
        reveal_strlit("abcdefghijklmnopqrstuvwxyz0123456789");
    }
    let alphabet = chars_of(CODE_ALPHABET);
    let mut chars: Vec<char> = Vec::new();
    for k in 0..indices.len()
        invariant
            alphabet@ == CODE_ALPHABET@,
            alphabet@.len() == ALPHABET_LEN,
            forall|j: int| 0 <= j < indices@.len() ==> #[trigger] indices@[j] < ALPHABET_LEN,
            chars@ == code_for(indices@.take(k as int)),
    {
        chars.push(alphabet[indices[k]]);
        assert(code_for(indices@.take(k + 1)) == code_for(indices@.take(k as int)).push(
            CODE_ALPHABET@[indices@[k as int] as int],
        ));
    }
    assert(indices@.take(indices@.len() as int) == indices@);
    string_of(&chars)
}

/// A fresh random code: six characters, each drawn uniformly from
/// `CODE_ALPHABET`.
pub fn generate_code() -> (s: String)
    ensures
        is_generated_code(s@),
        s@.len() == 6,
        forall|i: int| 0 <= i < s@.len() ==> CODE_ALPHABET@.contains(#[trigger] s@[i]),
{
    let mut indices: Vec<usize> = Vec::new();
    for k in 0..CODE_LEN
        invariant
            indices@.len() == k,
            forall|j: int| 0 <= j < k ==> #[trigger] indices@[j] < ALPHABET_LEN,
    {
        indices.push(random_below(ALPHABET_LEN));
    }
    let s = code_from_indices(&indices);
    proof {
        reveal_strlit("abcdefghijklmnopqrstuvwxyz0123456789");
        assert forall|i: int| 0 <= i < s@.len() implies CODE_ALPHABET@.contains(#[trigger] s@[i]) by {
            assert(CODE_ALPHABET@[indices@[i] as int] == s@[i]);
        }
    }
    s
}

} // verus!
