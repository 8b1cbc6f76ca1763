//! The `application/x-www-form-urlencoded` syntax, as the `url` crate reads
//! it.

use vstd::prelude::*;
use vstd::string::*;

verus! {

/// The name and value pairs that `url::form_urlencoded::parse` finds in
/// `input`, in the order in which they stand there.
pub uninterp spec fn form_pairs(input: Seq<u8>) -> Seq<(Seq<char>, Seq<char>)>;

pub open spec fn pairs_of(pairs: Seq<(String, String)>) -> Seq<(Seq<char>, Seq<char>)> {
    pairs.map_values(|p: (String, String)| (p.0@, p.1@))
}

/// Decodes a byte string with `url::form_urlencoded::parse`: the input is
/// split at `&`, each piece at its first `=`, and both sides are
/// percent-decoded. The contract names the result and claims nothing more.
#[verifier::external_body]
pub fn from_bytes(input: &[u8]) -> (pairs: Vec<(String, String)>)
    ensures
        pairs_of(pairs@) == form_pairs(input@),
{
    url::form_urlencoded::parse(input).into_owned().collect()
}

/// Decodes a string in the `application/x-www-form-urlencoded` syntax into
/// its pairs, duplicates kept, in order.
pub fn from_str(input: &str) -> (pairs: Vec<(String, String)>)
    ensures
        pairs_of(pairs@) == form_pairs(input.spec_bytes()),
{
    from_bytes(input.as_bytes())
}

} // verus!
