//! The wall clock and fresh random identifiers, the only nondeterministic inputs of the kernel and
//! the store.

use vstd::prelude::*;

verus! {

/// The RFC 3339 text (whole seconds, `Z` suffix) of a UNIX time, where chrono can represent it.
pub uninterp spec fn rfc3339_utc(seconds: int) -> Option<Seq<char>>;

/// The instant an RFC 3339 text denotes, if it parses: its UNIX time in whole seconds and the
/// nanoseconds past that second.
pub uninterp spec fn rfc3339_instant(text: Seq<char>) -> Option<(int, int)>;

/// The UNIX time (in seconds) that an RFC 3339 text denotes, if it parses.
pub open spec fn rfc3339_seconds(text: Seq<char>) -> Option<int> {
    match rfc3339_instant(text) {
        Some((seconds, _)) => Some(seconds),
        None => None,
    }
}

/// One instant comes strictly after another.
pub open spec fn instant_after(a: (int, int), b: (int, int)) -> bool {
    a.0 > b.0 || (a.0 == b.0 && a.1 > b.1)
}

/// `chrono::Utc::now().timestamp()`: the current UNIX time in whole seconds. `Utc::now` builds its
/// value with `DateTime::from_timestamp(seconds, nanos).unwrap()`, so the seconds it returns are
/// within chrono's range and can be written as RFC 3339; nothing else is promised of the value.
/// `Utc::now` panics when the system clock reads before 1970, a state of the machine that no
/// precondition can exclude.
#[verifier::external_body]
pub(crate) fn utc_now_seconds() -> (r: i64)
    ensures
        rfc3339_utc(r as int) is Some,
{
    chrono::Utc::now().timestamp()
}

/// `chrono::Utc::now()` written with `to_rfc3339_opts(SecondsFormat::Secs, true)`: whole seconds
/// of a time within chrono's range, so the text is what `rfc3339_utc` writes for some second;
/// nothing else is promised of the value. It panics, as `Utc::now` does, when the system clock
/// reads before 1970.
#[verifier::external_body]
pub(crate) fn canonical_now_text() -> (r: String)
    ensures
        exists|seconds: int| rfc3339_utc(seconds) == Some(r@),
{
    chrono::Utc::now().to_rfc3339_opts(chrono::SecondsFormat::Secs, true)
}

/// `chrono::DateTime::from_timestamp(seconds, 0)` written with
/// `to_rfc3339_opts(SecondsFormat::Secs, true)`; `None` where chrono's range ends.
#[verifier::external_body]
pub(crate) fn format_rfc3339(seconds: i64) -> (r: Option<String>)
    ensures
        match r {
            Some(text) => rfc3339_utc(seconds as int) == Some(text@),
            None => rfc3339_utc(seconds as int) is None,
        },
{
    match chrono::DateTime::from_timestamp(seconds, 0) {
        Some(time) => Some(time.to_rfc3339_opts(chrono::SecondsFormat::Secs, true)),
        None => None,
    }
}

/// `chrono::DateTime::parse_from_rfc3339` followed by `timestamp()` and
/// `timestamp_subsec_nanos()`; `None` where parsing fails. chrono orders two parsed times by
/// these two numbers, whatever offsets the texts carry.
#[verifier::external_body]
pub(crate) fn parse_rfc3339_instant(text: &str) -> (r: Option<(i64, u32)>)
    ensures
        match r {
            Some((seconds, nanos)) => rfc3339_instant(text@) == Some((seconds as int, nanos as int)),
            None => rfc3339_instant(text@) is None,
        },
{
    match chrono::DateTime::parse_from_rfc3339(text) {
        Ok(time) => Some((time.timestamp(), time.timestamp_subsec_nanos())),
        Err(_) => None,
    }
}

/// `chrono::Utc::now().to_rfc3339()`: the current time with sub-second digits and a `+00:00`
/// offset. Nothing is promised of the value. It panics, as `Utc::now` does, when the system
/// clock reads before 1970.
#[verifier::external_body]
pub(crate) fn now_rfc3339() -> (r: String) {
    chrono::Utc::now().to_rfc3339()
}

/// Every character is a lowercase hexadecimal digit.
pub open spec fn is_lower_hex(s: Seq<char>) -> bool {
    forall|i: int| 0 <= i < s.len() ==> ('0' <= #[trigger] s[i] <= '9' || 'a' <= s[i] <= 'f')
}

/// `uuid::Uuid::new_v4()` in its simple form: uuid's `Display` for `Simple` writes the sixteen
/// bytes as 32 lowercase hexadecimal digits. The value is random: nothing more is promised.
/// `new_v4` panics when the operating system's random source fails, a state of the machine that
/// no precondition can exclude.
#[verifier::external_body]
pub(crate) fn fresh_uuid_simple() -> (r: String)
    ensures
        r@.len() == 32,
        is_lower_hex(r@),
{
    uuid::Uuid::new_v4().simple().to_string()
}

/// A fresh dispatch token: `dispatch_` and a random UUID in its simple form.
pub(crate) fn fresh_dispatch_token() -> (r: String)
    ensures
        r@.len() == 41,
        r@.subrange(0, 9) == "dispatch_"@,
        is_lower_hex(r@.subrange(9, 41)),
{
    let mut token = "dispatch_".to_string();
    let suffix = fresh_uuid_simple();
    token.append(suffix.as_str());
    proof {
        reveal_strlit("dispatch_");
        assert(token@.subrange(0, 9) =~= "dispatch_"@);
        assert(token@.subrange(9, 41) =~= suffix@);
    }
    token
}

} // verus!
