//! The two export encodings, as functions of the stored events.

use vstd::prelude::*;
use crate::decimal::signed_decimal_text;
use crate::event::{EventKind, EventModel};
use crate::timestamp::Timestamp;

verus! {

/// The first line of every table.
pub open spec fn header_text() -> Seq<char> {
    "Press or Release,Key,Time\n"@
}

/// `P` for a press, `R` for a release.
pub open spec fn indicator_text(kind: EventKind) -> Seq<char> {
    match kind {
        EventKind::Press => "P"@,
        EventKind::Release => "R"@,
    }
}

/// One line of the table: indicator, key and whole milliseconds, separated by
/// commas and closed by a line feed. The key stands as it is, unquoted; the
/// milliseconds of an instant below zero carry a minus sign.
pub open spec fn row_text(e: EventModel) -> Seq<char> {
    indicator_text(e.kind) + ","@ + e.key + ","@ + signed_decimal_text(
        e.stamp.whole_millis_spec(),
    ) + "\n"@
}

/// The lines of the events, in order.
pub open spec fn rows_text(events: Seq<EventModel>) -> Seq<char>
    decreases events.len(),
{
    if events.len() == 0 {
        Seq::empty()
    } else {
        rows_text(events.drop_last()) + row_text(events.last())
    }
}

/// The whole table: the header line, then one line for each event.
pub open spec fn table_text(events: Seq<EventModel>) -> Seq<char> {
    header_text() + rows_text(events)
}

/// One exported record, as a value.
pub struct RawRecordModel {
    pub indicator: Seq<char>,
    pub key: Seq<char>,
    pub timestamp: Timestamp,
}

/// The record of one event: the instant is kept whole, not truncated.
pub open spec fn raw_record(e: EventModel) -> RawRecordModel {
    RawRecordModel { indicator: indicator_text(e.kind), key: e.key, timestamp: e.stamp }
}

/// The records of the events, in order.
pub open spec fn raw_records(events: Seq<EventModel>) -> Seq<RawRecordModel> {
    events.map_values(|e: EventModel| raw_record(e))
}

} // verus!
