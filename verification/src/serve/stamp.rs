//! Points in time as text.

use vstd::prelude::*;
use crate::serve::json::{text_or_null, Json, JsonView};
use crate::session::event::Moment;

verus! {

/// The RFC 3339 form of a point in time, in UTC. There is none for one that no
/// calendar date stands for.
pub uninterp spec fn rfc3339_text(seconds: i64, nanos: u32) -> Option<Seq<char>>;

/// `chrono::DateTime::to_rfc3339`, on what `DateTime::from_timestamp` makes of
/// the seconds and nanoseconds since 1970: `None` where that gives no date. Both
/// are functions of the two numbers alone.
#[verifier::external_body]
fn rfc3339(seconds: i64, nanos: u32) -> (r: Option<String>)
    ensures
        match r {
            Some(text) => rfc3339_text(seconds, nanos) == Some(text@),
            None => rfc3339_text(seconds, nanos) is None,
        },
{
    chrono::DateTime::from_timestamp(seconds, nanos).map(|at| at.to_rfc3339())
}

/// A point in time on the wire.
pub open spec fn stamped(ts: Moment) -> JsonView {
    text_or_null(rfc3339_text(ts.seconds, ts.nanos))
}

pub fn stamp(ts: &Moment) -> (r: Json)
    ensures
        r@ == stamped(*ts),
{
    match rfc3339(ts.seconds, ts.nanos) {
        Some(text) => Json::Text(text),
        None => Json::Null,
    }
}

} // verus!
