//! Web addresses, as `reqwest` reads and joins them.

use vstd::prelude::*;

verus! {

/// The text of the address that a reference has, seen from the address `base`, by
/// `reqwest::Url`; nothing where one of the two cannot be read.
pub uninterp spec fn joined_url(base: Seq<char>, reference: Seq<char>) -> Option<Seq<char>>;

/// `reqwest::Url::join`, on the address that `reqwest::Url::parse` reads from `base`, as
/// text. Which address that is, and whether there is one, is named only: it depends on
/// the two texts alone. An error of either is given as `None`.
#[verifier::external_body]
pub(crate) fn join(base: &str, reference: &str) -> (r: Option<String>)
    ensures
        match r {
            Some(u) => joined_url(base@, reference@) == Some(u@),
            None => joined_url(base@, reference@) is None,
        },
{
    let url = reqwest::Url::parse(base).ok()?;
    Some(url.join(reference).ok()?.to_string())
}

}
