//! The timestamp in front of a log line, and in a channel message.
use crate::time::{
    in_four_digit_years, millis_form, rfc3339_opts, to_rfc3339_opts, utc_now, Precision, Timestamp,
};
use vstd::prelude::*;

verus! {

/// The text of a time in front of a log line and in a channel message: RFC 3339
/// in UTC with millisecond precision.
pub open spec fn stamp_text(t: Timestamp) -> Seq<char> {
    rfc3339_opts(t.secs, t.nanos, true, true)
}

/// The text of a time in front of a log line.
pub fn stamp(t: Timestamp) -> (r: String)
    requires
        t.wf(),
    ensures
        r@ == stamp_text(t),
        in_four_digit_years(t.secs as int) ==> millis_form(r@),
{
    to_rfc3339_opts(t, Precision::Millis, true)
}

/// The text of the present time in front of a log line.
pub fn now() -> (r: String)
    ensures
        exists|t: Timestamp|
            t.wf() && r@ == #[trigger] stamp_text(t) && (in_four_digit_years(t.secs as int)
                ==> millis_form(r@)),
{
    let t = utc_now();
    let r = stamp(t);
    proof {
        assert(t.wf() && r@ == stamp_text(t) && (in_four_digit_years(t.secs as int)
            ==> millis_form(r@)));
    }
    r
}

/// A log line and a channel message carry a time to the millisecond, with `Z` for
/// UTC.
pub proof fn law_stamps_are_to_the_millisecond(t: Timestamp)
    ensures
        stamp_text(t) == rfc3339_opts(t.secs, t.nanos, true, true),
{
}

} // verus!
