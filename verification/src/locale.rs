//! The application locale: what the system reports, with a fixed fallback
//! when nothing is detectable.
use vstd::prelude::*;
use crate::tokens::{default_locale, default_locale_v};

verus! {

/// Relies on sys-locale's `get_locale`: the system locale, when one can
/// be detected; nothing is promised of the answer.
#[verifier::external_body]
fn locale_lookup() -> (r: Option<Vec<u8>>) {
    sys_locale::get_locale().map(String::into_bytes)
}

/// Chooses the detected locale, or the fallback when none was found.
pub fn locale_or_default(found: Option<Vec<u8>>) -> (r: Vec<u8>)
    ensures
        found matches Some(l) ==> r@ == l@,
        found is None ==> r@ == default_locale(),
{
    match found {
        Some(l) => l,
        None => default_locale_v(),
    }
}

/// The application locale: the system's, or the fallback.
pub fn get_app_locale() -> (r: Vec<u8>) {
    locale_or_default(locale_lookup())
}

} // verus!
