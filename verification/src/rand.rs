//! Names for storage directories.

use vstd::prelude::*;

verus! {

/// Whether `c` is an ASCII letter or digit.
pub open spec fn is_alphanumeric(c: char) -> bool {
    ('0' <= c <= '9') || ('a' <= c <= 'z') || ('A' <= c <= 'Z')
}

/// Whether `s` has the shape of a storage name: sixteen ASCII letters and
/// digits.
pub open spec fn is_storage_name(s: Seq<char>) -> bool {
    s.len() == 16 && forall|i: int| 0 <= i < s.len() ==> is_alphanumeric(#[trigger] s[i])
}

/// One random character as text, drawn by `rand::Rng::sample` from the
/// distribution `rand::distributions::Alphanumeric` with the generator
/// `rand::thread_rng()`.
///
/// Trusted: the distribution yields one of the 62 ASCII letters and digits.
/// Which one is not stated, and differs from call to call.
#[verifier::external_body]
fn random_alphanumeric() -> (text: String)
    ensures
        text@.len() == 1,
        is_alphanumeric(text@[0]),
{
    let byte: u8 = ::rand::Rng::sample(&mut ::rand::thread_rng(), ::rand::distributions::Alphanumeric);
    char::from(byte).to_string()
}

/// A fresh name for a storage directory: sixteen random ASCII letters and
/// digits.
pub fn rand_string() -> (result: String)
    ensures
        is_storage_name(result@),
{
    let mut result = String::new();
    let mut i: usize = 0;
    while i < 16
        invariant
            i <= 16,
            result@.len() == i,
            forall|k: int| 0 <= k < i ==> is_alphanumeric(#[trigger] result@[k]),
        decreases 16 - i,
    {
        let next = random_alphanumeric();
        let ghost before = result@;
        result.append(next.as_str());
        assert forall|k: int| 0 <= k < i + 1 implies is_alphanumeric(#[trigger] result@[k]) by {
            if k < i {
                assert(result@[k] == before[k]);
            } else {
                assert(result@[k] == next@[0]);
            }
        }
        i += 1;
    }
    result
}

} // verus!
