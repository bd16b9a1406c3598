//! The recorder itself.

use vstd::prelude::*;
use crate::decimal::push_signed_decimal;
use crate::event::{kind_of, CaptureError, CaptureModel, EventKind, EventModel};
use crate::text::{
    header_text, raw_record, raw_records, row_text, rows_text, table_text, RawRecordModel,
};
use crate::timestamp::Timestamp;

verus! {

struct Event {
    kind: EventKind,
    key: String,
    stamp: Timestamp,
}

impl View for Event {
    type V = EventModel;

    closed spec fn view(&self) -> EventModel {
        EventModel { kind: self.kind, key: self.key@, stamp: self.stamp }
    }
}

/// One exported record: the indicator `"P"` or `"R"`, the key as it was
/// given, and the instant.
#[derive(Debug)]
pub struct RawRecord {
    pub indicator: String,
    pub key: String,
    pub timestamp: Timestamp,
}

impl View for RawRecord {
    type V = RawRecordModel;

    open spec fn view(&self) -> RawRecordModel {
        RawRecordModel {
            indicator: self.indicator@,
            key: self.key@,
            timestamp: self.timestamp,
        }
    }
}

/// The records of a vector, each by its view.
pub open spec fn records_view(records: Seq<RawRecord>) -> Seq<RawRecordModel> {
    records.map_values(|r: RawRecord| r@)
}

/// A bounded recorder of key events. `C` is the handle of the clock source
/// that the recorder was constructed with; the recorder keeps it for its
/// owner and never calls through it.
pub struct KeystrokeCapture<C> {
    events: Vec<Event>,
    capacity: usize,
    clock: C,
}

impl<C> View for KeystrokeCapture<C> {
    type V = CaptureModel;

    closed spec fn view(&self) -> CaptureModel {
        CaptureModel {
            capacity: self.capacity as nat,
            events: self.events@.map_values(|e: Event| e@),
        }
    }
}

impl<C> KeystrokeCapture<C> {
    /// The clock handle that the recorder holds.
    pub closed spec fn clock_spec(self) -> C {
        self.clock
    }

    /// A recorder for up to `capacity` events. Construction needs a clock
    /// source: without one it fails and nothing is constructed.
    pub fn new(capacity: usize, clock: Option<C>) -> (r: Result<KeystrokeCapture<C>, CaptureError>)
        ensures
            match clock {
                Some(c) => r is Ok && r->Ok_0@ == CaptureModel::empty(capacity as nat)
                    && r->Ok_0@.valid() && r->Ok_0.clock_spec() == c,
                None => r matches Err(CaptureError::EnvironmentUnavailable),
            },
    {
        match clock {
            Some(c) => {
                let rec = KeystrokeCapture { events: Vec::new(), capacity, clock: c };
                assert(rec@.events =~= Seq::empty());
                Ok(rec)
            },
            None => Err(CaptureError::EnvironmentUnavailable),
        }
    }

    /// The clock handle, for the owner to read the time with.
    pub fn clock(&self) -> (c: &C)
        ensures
            *c == self.clock_spec(),
    {
        &self.clock
    }

    /// Records one event that happened at `stamp`. A full recorder refuses
    /// it and stays as it was; nothing is ever evicted.
    pub fn capture_keystroke(&mut self, key: &str, is_release: bool, stamp: Timestamp) -> (r:
        Result<(), CaptureError>)
        ensures
            (final(self)@, r) == old(self)@.capture(key@, is_release, stamp),
            old(self)@.valid() ==> final(self)@.valid(),
            final(self).clock_spec() == old(self).clock_spec(),
    {
        if self.events.len() >= self.capacity {
            return Err(CaptureError::CapacityExceeded);
        }
        let kind = if is_release {
            EventKind::Release
        } else {
            EventKind::Press
        };
        self.events.push(Event { kind, key: key.to_owned(), stamp });
        proof {
            assert(final(self)@.events =~= old(self)@.events.push(
                EventModel { kind: kind_of(is_release), key: key@, stamp },
            ));
        }
        Ok(())
    }

    /// The number of stored events.
    pub fn get_event_count(&self) -> (n: usize)
        ensures
            n as nat == self@.count(),
    {
        self.events.len()
    }

    /// The table of the stored events: the header line, then a line for each
    /// event in arrival order.
    pub fn export_as_csv(&self) -> (csv: String)
        ensures
            csv@ == table_text(self@.events),
    {
        let mut csv = String::new();
        csv.push_str("Press or Release,Key,Time\n");
        assert(csv@ =~= header_text() + rows_text(self@.events.take(0)));
        let n: usize = self.events.len();
        let mut i: usize = 0;
        while i < n
            invariant
                i <= n,
                n == self.events.len(),
                csv@ == header_text() + rows_text(self@.events.take(i as int)),
            decreases n - i,
        {
            let e = &self.events[i];
            let ghost before = csv@;
            match e.kind {
                EventKind::Press => csv.push_str("P"),
                EventKind::Release => csv.push_str("R"),
            }
            csv.push_str(",");
            csv.push_str(e.key.as_str());
            csv.push_str(",");
            push_signed_decimal(&mut csv, e.stamp.whole_millis());
            csv.push_str("\n");
            proof {
                let upto = self@.events.take(i + 1);
                assert(upto.drop_last() =~= self@.events.take(i as int));
                assert(upto.last() == e@);
                assert(csv@ =~= before + row_text(e@));
                assert(csv@ =~= header_text() + rows_text(upto));
            }
            i += 1;
        }
        assert(self@.events.take(n as int) =~= self@.events);
        csv
    }

    /// Empties the recorder. Its capacity and its clock handle stay.
    pub fn clear(&mut self)
        ensures
            final(self)@ == old(self)@.cleared(),
            final(self)@.count() == 0,
            final(self)@.valid(),
            final(self).clock_spec() == old(self).clock_spec(),
    {
        self.events.clear();
        proof {
            assert(final(self)@.events =~= Seq::empty());
        }
    }

    /// The stored events as records, in arrival order, with each instant
    /// kept whole.
    pub fn get_raw_data(&self) -> (records: Vec<RawRecord>)
        ensures
            records_view(records@) == raw_records(self@.events),
            records@.len() == self@.count(),
            forall|i: int|
                0 <= i < records@.len() ==> (#[trigger] records@[i])@ == raw_record(
                    self@.events[i],
                ),
    {
        let mut records: Vec<RawRecord> = Vec::new();
        let n: usize = self.events.len();
        let mut i: usize = 0;
        while i < n
            invariant
                i <= n,
                n == self.events.len(),
                records@.len() == i,
                forall|j: int| 0 <= j < i ==> (#[trigger] records@[j])@ == raw_record(self@.events[j]),
            decreases n - i,
        {
            let e = &self.events[i];
            let indicator = match e.kind {
                EventKind::Press => "P".to_owned(),
                EventKind::Release => "R".to_owned(),
            };
            records.push(RawRecord { indicator, key: e.key.clone(), timestamp: e.stamp });
            i += 1;
        }
        assert(records_view(records@) =~= raw_records(self@.events));
        records
    }
}

} // verus!
