//! The events a recorder holds, and the recorder as a mathematical value.

use vstd::prelude::*;
use crate::timestamp::Timestamp;

verus! {

/// Whether a key went down or came up.
#[derive(Clone, Copy, Debug, PartialEq, Eq, Structural)]
pub enum EventKind {
    Press,
    Release,
}

/// Why an operation of the recorder failed.
#[derive(Clone, Copy, Debug, PartialEq, Eq, Structural)]
pub enum CaptureError {
    /// No clock source was available when the recorder was constructed.
    EnvironmentUnavailable,
    /// The recorder already holds as many events as its capacity allows.
    CapacityExceeded,
}

/// The kind of an event, from the flag that callers pass.
pub open spec fn kind_of(is_release: bool) -> EventKind {
    if is_release {
        EventKind::Release
    } else {
        EventKind::Press
    }
}

/// One recorded event.
pub struct EventModel {
    pub kind: EventKind,
    pub key: Seq<char>,
    pub stamp: Timestamp,
}

/// What one call of capture is given.
pub struct KeyInput {
    pub key: Seq<char>,
    pub is_release: bool,
    pub stamp: Timestamp,
}

/// A recorder: its fixed capacity and its events in arrival order.
pub struct CaptureModel {
    pub capacity: nat,
    pub events: Seq<EventModel>,
}

impl CaptureModel {
    /// The recorder with no events.
    pub open spec fn empty(capacity: nat) -> CaptureModel {
        CaptureModel { capacity, events: Seq::empty() }
    }

    /// The recorder holds no more than its capacity.
    pub open spec fn valid(self) -> bool {
        self.events.len() <= self.capacity
    }

    /// No further event fits.
    pub open spec fn is_full(self) -> bool {
        self.events.len() >= self.capacity
    }

    /// The number of stored events.
    pub open spec fn count(self) -> nat {
        self.events.len()
    }

    /// One capture: the recorder afterwards and the outcome. A full recorder
    /// stays as it is and the capture fails; otherwise the event is appended.
    pub open spec fn capture(self, key: Seq<char>, is_release: bool, stamp: Timestamp) -> (
        CaptureModel,
        Result<(), CaptureError>,
    ) {
        if self.is_full() {
            (self, Err(CaptureError::CapacityExceeded))
        } else {
            (
                CaptureModel {
                    capacity: self.capacity,
                    events: self.events.push(
                        EventModel { kind: kind_of(is_release), key, stamp },
                    ),
                },
                Ok(()),
            )
        }
    }

    /// The recorder after one capture for each input in turn, whatever the
    /// outcome of each.
    pub open spec fn after(self, inputs: Seq<KeyInput>) -> CaptureModel
        decreases inputs.len(),
    {
        if inputs.len() == 0 {
            self
        } else {
            let last = inputs.last();
            self.after(inputs.drop_last()).capture(last.key, last.is_release, last.stamp).0
        }
    }

    /// The recorder emptied, with its capacity kept.
    pub open spec fn cleared(self) -> CaptureModel {
        CaptureModel { capacity: self.capacity, events: Seq::empty() }
    }
}

} // verus!
