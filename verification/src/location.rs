//! Locations: where an anchor leads from the current location.

use vstd::prelude::*;
use url::Url;

verus! {

/// The location `new_location` resolves to, relative to the location `base`,
/// serialized; `None` when `base` does not parse or the join fails.
pub uninterp spec fn joined_url(base: Seq<char>, new_location: Seq<char>) -> Option<Seq<char>>;

/// Parses `base` with `Url::parse` and resolves `new_location` against it
/// with `Url::join`, serializing the result.
#[verifier::external_body]
fn url_join(base: &str, new_location: &str) -> (res: Option<String>)
    ensures
        res is None <==> joined_url(base@, new_location@) is None,
        res matches Some(s) ==> s@ == joined_url(base@, new_location@).unwrap(),
{
    match Url::parse(base) {
        Ok(u) => match u.join(new_location) {
            Ok(joined) => Some(joined.into()),
            Err(_) => None,
        },
        Err(_) => None,
    }
}

/// Where following an anchor to `new_location` leads from the location
/// `current`: the joined location, or `None` when it cannot be joined (the
/// location then stays as it is).
pub fn join_location(current: &str, new_location: &str) -> (res: Option<String>)
    ensures
        res is None <==> joined_url(current@, new_location@) is None,
        res matches Some(s) ==> s@ == joined_url(current@, new_location@).unwrap(),
{
    url_join(current, new_location)
}

} // verus!
