//! What holds of the recorder across calls.

use vstd::prelude::*;
use crate::decimal::{decimal_text, digit_char, signed_decimal_text};
use crate::event::{CaptureError, CaptureModel, EventModel, KeyInput};
use crate::text::{
    header_text, indicator_text, raw_records, row_text, rows_text, table_text,
};
use crate::timestamp::{lemma_whole_part_monotone, Timestamp};

verus! {

/// A recorder that holds no more than its capacity still does so after a
/// capture, whatever its outcome, and after it is cleared; a new one does.
pub proof fn law_capacity_bounds_every_state(
    m: CaptureModel,
    key: Seq<char>,
    is_release: bool,
    stamp: Timestamp,
)
    requires
        m.valid(),
    ensures
        m.capture(key, is_release, stamp).0.valid(),
        m.capture(key, is_release, stamp).0.capacity == m.capacity,
        m.cleared().valid(),
        m.cleared().capacity == m.capacity,
        CaptureModel::empty(m.capacity).valid(),
{
}

/// While fewer inputs have been given than the capacity, every capture has
/// succeeded and every input is stored.
proof fn lemma_after_within_capacity(capacity: nat, inputs: Seq<KeyInput>)
    requires
        inputs.len() <= capacity,
    ensures
        CaptureModel::empty(capacity).after(inputs).capacity == capacity,
        CaptureModel::empty(capacity).after(inputs).events.len() == inputs.len(),
    decreases inputs.len(),
{
    if inputs.len() > 0 {
        lemma_after_within_capacity(capacity, inputs.drop_last());
    }
}

/// A new recorder of capacity `c` accepts `c` captures, each of which
/// succeeds; the capture after them fails with `CapacityExceeded` and leaves
/// the recorder as it was, with `c` events.
pub proof fn law_capacity_is_a_hard_stop(capacity: nat, inputs: Seq<KeyInput>, extra: KeyInput)
    requires
        inputs.len() == capacity,
    ensures
        forall|k: int|
            0 <= k < capacity ==> (#[trigger] CaptureModel::empty(capacity).after(
                inputs.take(k),
            )).capture(inputs[k].key, inputs[k].is_release, inputs[k].stamp).1 is Ok,
        CaptureModel::empty(capacity).after(inputs).count() == capacity,
        CaptureModel::empty(capacity).after(inputs).capture(
            extra.key,
            extra.is_release,
            extra.stamp,
        ) == (
            CaptureModel::empty(capacity).after(inputs),
            Err::<(), CaptureError>(CaptureError::CapacityExceeded),
        ),
{
    lemma_after_within_capacity(capacity, inputs);
    assert forall|k: int| 0 <= k < capacity implies (#[trigger] CaptureModel::empty(
        capacity,
    ).after(inputs.take(k))).capture(inputs[k].key, inputs[k].is_release, inputs[k].stamp).1 is Ok by {
        lemma_after_within_capacity(capacity, inputs.take(k));
    }
}

/// After a capture that succeeded, the last exported record carries the key
/// exactly as it was given, and its indicator is `"R"` if and only if the
/// capture was of a release; otherwise it is `"P"`.
pub proof fn law_last_record_is_last_capture(
    m: CaptureModel,
    key: Seq<char>,
    is_release: bool,
    stamp: Timestamp,
)
    requires
        m.capture(key, is_release, stamp).1 is Ok,
    ensures
        raw_records(m.capture(key, is_release, stamp).0.events).len() == m.count() + 1,
        raw_records(m.capture(key, is_release, stamp).0.events).last().key == key,
        raw_records(m.capture(key, is_release, stamp).0.events).last().timestamp == stamp,
        raw_records(m.capture(key, is_release, stamp).0.events).last().indicator == "R"@
            <==> is_release,
        raw_records(m.capture(key, is_release, stamp).0.events).last().indicator == "P"@
            <==> !is_release,
{
    reveal_strlit("R");
    reveal_strlit("P");
    assert("R"@[0] != "P"@[0]);
}

/// Every stored instant is a number, of either sign, and none is later than
/// one stored after it: the events came from a clock that does not run
/// backwards.
pub open spec fn in_clock_order(events: Seq<EventModel>) -> bool {
    forall|i: int, j: int|
        #![trigger events[i], events[j]]
        0 <= i <= j < events.len() ==> events[i].stamp.is_instant()
            && events[j].stamp.is_instant() && events[i].stamp.not_after(events[j].stamp)
}

/// A recorder whose events are in clock order stays so after a capture at an
/// instant that is not before its last event, whatever the outcome, and after
/// it is cleared; a new recorder is in clock order.
pub proof fn law_clock_order_is_kept(
    m: CaptureModel,
    key: Seq<char>,
    is_release: bool,
    stamp: Timestamp,
)
    requires
        in_clock_order(m.events),
        stamp.is_instant(),
        m.count() > 0 ==> m.events.last().stamp.not_after(stamp),
    ensures
        in_clock_order(m.capture(key, is_release, stamp).0.events),
        in_clock_order(m.cleared().events),
        in_clock_order(CaptureModel::empty(m.capacity).events),
{
    let next = m.capture(key, is_release, stamp).0.events;
    assert forall|i: int, j: int|
        #![trigger next[i], next[j]]
        0 <= i <= j < next.len() implies next[i].stamp.is_instant() && next[j].stamp.is_instant()
        && next[i].stamp.not_after(next[j].stamp) by {
        let n = m.events.len() as int;
        if j < n {
            assert(next[i] == m.events[i] && next[j] == m.events[j]);
        } else if i < n {
            assert(next[i] == m.events[i] && m.events[n - 1] == m.events.last());
        }
    }
}

/// Where the events are in clock order, the exported times do not decrease
/// from one event to the next: neither the whole milliseconds of the table
/// nor the instants of the records.
pub proof fn law_exported_times_do_not_decrease(events: Seq<EventModel>)
    requires
        in_clock_order(events),
    ensures
        forall|i: int, j: int|
            #![trigger events[i], events[j]]
            0 <= i <= j < events.len() ==> events[i].stamp.whole_millis_spec()
                <= events[j].stamp.whole_millis_spec(),
        forall|i: int, j: int|
            #![trigger raw_records(events)[i], raw_records(events)[j]]
            0 <= i <= j < events.len() ==> raw_records(events)[i].timestamp.not_after(
                raw_records(events)[j].timestamp,
            ),
{
    assert forall|i: int, j: int|
        #![trigger events[i], events[j]]
        0 <= i <= j < events.len() implies events[i].stamp.whole_millis_spec()
        <= events[j].stamp.whole_millis_spec() by {
        lemma_whole_part_monotone(events[i].stamp, events[j].stamp);
    }
    assert forall|i: int, j: int|
        #![trigger raw_records(events)[i], raw_records(events)[j]]
        0 <= i <= j < events.len() implies raw_records(events)[i].timestamp.not_after(
        raw_records(events)[j].timestamp,
    ) by {
        assert(events[i].stamp.not_after(events[j].stamp));
    }
}

/// The number of line feeds in a text.
pub open spec fn line_feeds(s: Seq<char>) -> nat
    decreases s.len(),
{
    if s.len() == 0 {
        0
    } else {
        line_feeds(s.drop_last()) + if s.last() == '\n' {
            1nat
        } else {
            0nat
        }
    }
}

/// No key of the events holds a line feed.
pub open spec fn keys_on_one_line(events: Seq<EventModel>) -> bool {
    forall|i: int, j: int|
        0 <= i < events.len() && 0 <= j < events[i].key.len() ==> events[i].key[j] != '\n'
}

proof fn lemma_line_feeds_concat(a: Seq<char>, b: Seq<char>)
    ensures
        line_feeds(a + b) == line_feeds(a) + line_feeds(b),
    decreases b.len(),
{
    if b.len() == 0 {
        assert(a + b =~= a);
    } else {
        assert((a + b).drop_last() =~= a + b.drop_last());
        lemma_line_feeds_concat(a, b.drop_last());
    }
}

proof fn lemma_line_feeds_none(s: Seq<char>)
    requires
        forall|j: int| 0 <= j < s.len() ==> s[j] != '\n',
    ensures
        line_feeds(s) == 0,
    decreases s.len(),
{
    if s.len() > 0 {
        lemma_line_feeds_none(s.drop_last());
    }
}

proof fn lemma_decimal_is_digits(n: nat)
    ensures
        forall|j: int| 0 <= j < decimal_text(n).len() ==> decimal_text(n)[j] != '\n',
    decreases n,
{
    let text = decimal_text(n);
    if n >= 10 {
        lemma_decimal_is_digits(n / 10);
        assert(text.last() == digit_char(n % 10));
        assert(digit_char(n % 10) as int == 48 + n % 10);
    } else {
        assert(text.len() == 1);
        assert(text[0] == digit_char(n));
        assert(digit_char(n) as int == 48 + n);
    }
    assert('\n' as int == 10);
    assert forall|j: int| 0 <= j < text.len() implies text[j] != '\n' by {
        if n >= 10 && j < text.len() - 1 {
            assert(text[j] == decimal_text(n / 10)[j]);
        }
    }
}

proof fn lemma_row_is_one_line(e: EventModel)
    requires
        forall|j: int| 0 <= j < e.key.len() ==> e.key[j] != '\n',
    ensures
        line_feeds(row_text(e)) == 1,
{
    reveal_strlit("P");
    reveal_strlit("R");
    reveal_strlit(",");
    reveal_strlit("\n");
    let millis = e.stamp.whole_millis_spec();
    let digits = signed_decimal_text(millis);
    if millis < 0 {
        lemma_decimal_is_digits((-millis) as nat);
    } else {
        lemma_decimal_is_digits(millis as nat);
    }
    assert('-' as int == 45 && '\n' as int == 10);
    assert forall|j: int| 0 <= j < digits.len() implies digits[j] != '\n' by {
        if millis < 0 && j > 0 {
            assert(digits[j] == decimal_text((-millis) as nat)[j - 1]);
        }
    }
    let body = indicator_text(e.kind) + ","@ + e.key + ","@ + digits;
    lemma_line_feeds_none(body);
    lemma_line_feeds_concat(body, "\n"@);
    assert("\n"@.drop_last() =~= Seq::<char>::empty());
    assert(line_feeds("\n"@.drop_last()) == 0);
    assert(line_feeds("\n"@) == 1);
}

proof fn lemma_rows_line_feeds(events: Seq<EventModel>)
    requires
        keys_on_one_line(events),
    ensures
        line_feeds(rows_text(events)) == events.len(),
    decreases events.len(),
{
    if events.len() > 0 {
        lemma_rows_line_feeds(events.drop_last());
        lemma_row_is_one_line(events.last());
        lemma_line_feeds_concat(rows_text(events.drop_last()), row_text(events.last()));
    }
}

/// The record export has one record for each stored event. Where no key
/// holds a line feed, the table has one line for each stored event and one
/// more, the header: each line ends in a line feed, and there are no others.
pub proof fn law_exports_match_count(m: CaptureModel)
    ensures
        raw_records(m.events).len() == m.count(),
        keys_on_one_line(m.events) ==> line_feeds(table_text(m.events)) == m.count() + 1,
{
    if keys_on_one_line(m.events) {
        reveal_strlit("Press or Release,Key,Time\n");
        let h = header_text();
        lemma_line_feeds_none(h.drop_last());
        assert(line_feeds(h) == 1);
        lemma_rows_line_feeds(m.events);
        lemma_line_feeds_concat(h, rows_text(m.events));
    }
}

} // verus!
