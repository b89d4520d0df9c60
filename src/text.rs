//! Text helpers on addresses and domain names.

use mail_auth::common::resolver::IntoFqdn;
use vstd::prelude::*;

verus! {

/// The name of the lower-case form of a string.
pub uninterp spec fn lower_of(s: Seq<char>) -> Seq<char>;

/// Relies on str::to_lowercase: the result depends on the characters alone,
/// and an empty string stays empty.
#[verifier::external_body]
pub(crate) fn lowercase(s: &str) -> (r: String)
    ensures
        r@ == lower_of(s@),
        s@.len() == 0 ==> r@.len() == 0,
{
    s.to_lowercase()
}

/// The position of the last '@' in `s`, or -1 when there is none.
pub open spec fn last_at(s: Seq<char>) -> int
    decreases s.len(),
{
    if s.len() == 0 {
        -1
    } else if s.last() == '@' {
        s.len() - 1
    } else {
        last_at(s.drop_last())
    }
}

/// The domain part of an address: what follows its last '@', or nothing.
pub open spec fn domain_of(s: Seq<char>) -> Seq<char> {
    if last_at(s) < 0 {
        Seq::empty()
    } else {
        s.subrange(last_at(s) + 1, s.len() as int)
    }
}

/// Relies on str::rsplit_once: it splits at the last occurrence of the
/// delimiter, or finds none.
#[verifier::external_body]
fn after_last_at(s: &str) -> (r: String)
    ensures
        r@ == domain_of(s@),
{
    match s.rsplit_once('@') {
        Some((_, domain)) => domain.to_string(),
        None => String::new(),
    }
}

/// The domain part of an address.
pub fn domain_part(address: &str) -> (r: String)
    ensures
        r@ == domain_of(address@),
{
    after_last_at(address)
}

/// A fully qualified, lower-case domain name: a trailing dot is added when
/// missing.
pub open spec fn fqdn_of(s: Seq<char>) -> Seq<char> {
    if s.len() > 0 && s.last() == '.' {
        lower_of(s)
    } else {
        lower_of(s).push('.')
    }
}

/// Relies on mail_auth's IntoFqdn for &str: it lower-cases the name with
/// str::to_lowercase and appends a dot unless the name already ends in one.
#[verifier::external_body]
pub(crate) fn into_fqdn(name: &str) -> (r: String)
    ensures
        r@ == fqdn_of(name@),
{
    name.into_fqdn().into_owned()
}

} // verus!
