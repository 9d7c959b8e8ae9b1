use rand::distr::{Alphanumeric, SampleString};
use vstd::prelude::*;

verus! {

/// Characters a generated entry key is drawn from: the 62-symbol
/// alphanumeric alphabet.
pub open spec fn is_key_char(c: char) -> bool {
    ('a' <= c && c <= 'z') || ('A' <= c && c <= 'Z') || ('0' <= c && c <= '9')
}

/// A fresh random key of `len` characters.
///
/// Relies on `rand::distr::Alphanumeric` through `SampleString::sample_string`:
/// it appends exactly `len` characters, each drawn uniformly from
/// `A-Z a-z 0-9`. The value itself is random, so nothing more is promised.
#[verifier::external_body]
pub fn generate_key(len: usize) -> (r: String)
    ensures
        r@.len() == len,
        forall|i: int| 0 <= i < r@.len() ==> is_key_char(r@[i]),
{
    Alphanumeric.sample_string(&mut rand::rng(), len)
}

} // verus!
