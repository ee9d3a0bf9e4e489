//! Display text for push instants.
//!
//! Rendering a seconds-since-epoch instant as "YYYY-MM-DD HH:MM:SS" is done
//! by the chrono crate; the library only names the text it produces.

use vstd::prelude::*;

verus! {

/// The text chrono renders for an instant given as seconds since the Unix
/// epoch, in UTC; empty when the instant lies outside chrono's range.
pub uninterp spec fn ts_display_of(secs: int) -> Seq<char>;

/// Relies on chrono's `DateTime::from_timestamp` and the `Display` of
/// `NaiveDateTime`: both are pure functions of the seconds alone, so the
/// result is only given a name. `from_timestamp` returns `None` outside
/// chrono's representable range; the text is then empty.
#[verifier::external_body]
pub(crate) fn timestamp_display(secs: i64) -> (r: String)
    ensures
        r@ == ts_display_of(secs as int),
{
    match chrono::DateTime::from_timestamp(secs, 0) {
        Some(dt) => dt.naive_utc().to_string(),
        None => String::new(),
    }
}

} // verus!
