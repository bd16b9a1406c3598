use keystroke_capture::capture::{KeystrokeCapture, RawRecord};
use keystroke_capture::event::CaptureError;
use keystroke_capture::timestamp::{Timestamp, TIME_OFFSET_MILLIS};

/// The instant of a clock reading, shifted onto the absolute scale.
fn at(reading: f64) -> Timestamp {
    Timestamp { bits: (reading + 1735660000000.0).to_bits() }
}

fn recorder(capacity: usize) -> KeystrokeCapture<()> {
    KeystrokeCapture::new(capacity, Some(())).unwrap()
}

fn millis(record: &RawRecord) -> f64 {
    f64::from_bits(record.timestamp.bits)
}

#[test]
fn two_events_fill_a_recorder_of_two() {
    let mut rec = recorder(2);
    assert_eq!(rec.capture_keystroke("a", false, at(100.0)), Ok(()));
    assert_eq!(rec.capture_keystroke("a", true, at(150.0)), Ok(()));
    assert_eq!(
        rec.capture_keystroke("b", false, at(175.0)),
        Err(CaptureError::CapacityExceeded)
    );
    assert_eq!(rec.get_event_count(), 2);
    assert_eq!(
        rec.export_as_csv(),
        "Press or Release,Key,Time\nP,a,1735660000100\nR,a,1735660000150\n"
    );
}

#[test]
fn a_recorder_of_zero_refuses_everything() {
    let mut rec = recorder(0);
    assert_eq!(
        rec.capture_keystroke("a", false, at(1.0)),
        Err(CaptureError::CapacityExceeded)
    );
    assert_eq!(
        rec.capture_keystroke("", true, at(2.0)),
        Err(CaptureError::CapacityExceeded)
    );
    assert_eq!(rec.get_event_count(), 0);
    assert_eq!(rec.export_as_csv(), "Press or Release,Key,Time\n");
    assert!(rec.get_raw_data().is_empty());
}

#[test]
fn construction_needs_a_clock() {
    let made: Result<KeystrokeCapture<u8>, CaptureError> = KeystrokeCapture::new(4, None);
    assert!(matches!(made, Err(CaptureError::EnvironmentUnavailable)));
    let made = KeystrokeCapture::new(4, Some(7u8)).unwrap();
    assert_eq!(*made.clock(), 7u8);
    assert_eq!(made.get_event_count(), 0);
}

#[test]
fn every_capacity_is_a_hard_stop() {
    for capacity in 0..6usize {
        let mut rec = recorder(capacity);
        for k in 0..capacity {
            assert_eq!(rec.capture_keystroke("k", k % 2 == 1, at(k as f64)), Ok(()));
            assert_eq!(rec.get_event_count(), k + 1);
        }
        let table = rec.export_as_csv();
        assert_eq!(
            rec.capture_keystroke("late", false, at(99.0)),
            Err(CaptureError::CapacityExceeded)
        );
        assert_eq!(rec.get_event_count(), capacity);
        assert_eq!(rec.export_as_csv(), table);
    }
}

#[test]
fn clear_empties_and_keeps_capacity_and_clock() {
    let mut rec = KeystrokeCapture::new(2, Some(41u32)).unwrap();
    rec.clear();
    assert_eq!(rec.get_event_count(), 0);
    rec.capture_keystroke("x", false, at(1.0)).unwrap();
    rec.capture_keystroke("y", false, at(2.0)).unwrap();
    rec.clear();
    assert_eq!(rec.get_event_count(), 0);
    assert_eq!(*rec.clock(), 41u32);
    assert_eq!(rec.export_as_csv(), "Press or Release,Key,Time\n");
    assert!(rec.get_raw_data().is_empty());
    assert_eq!(rec.capture_keystroke("x", true, at(3.0)), Ok(()));
    assert_eq!(rec.capture_keystroke("y", true, at(4.0)), Ok(()));
    assert_eq!(
        rec.capture_keystroke("z", true, at(5.0)),
        Err(CaptureError::CapacityExceeded)
    );
    assert_eq!(rec.get_event_count(), 2);
}

#[test]
fn last_record_is_the_last_capture() {
    let mut rec = recorder(3);
    rec.capture_keystroke("Shift", false, at(10.25)).unwrap();
    let records = rec.get_raw_data();
    let last = records.last().unwrap();
    assert_eq!(last.indicator, "P");
    assert_eq!(last.key, "Shift");
    assert_eq!(millis(last), 10.25 + 1735660000000.0);

    rec.capture_keystroke(" é,\n", true, at(11.5)).unwrap();
    let records = rec.get_raw_data();
    assert_eq!(records.len(), 2);
    let last = records.last().unwrap();
    assert_eq!(last.indicator, "R");
    assert_eq!(last.key, " é,\n");
    assert_eq!(millis(last), 11.5 + 1735660000000.0);
    assert_eq!(records[0].indicator, "P");
    assert_eq!(records[0].key, "Shift");
}

#[test]
fn records_keep_the_fraction_and_the_table_drops_it() {
    let mut rec = recorder(1);
    rec.capture_keystroke("q", false, at(100.75)).unwrap();
    let records = rec.get_raw_data();
    assert_eq!(millis(&records[0]), 1735660000100.75);
    assert_eq!(rec.export_as_csv(), "Press or Release,Key,Time\nP,q,1735660000100\n");
}

#[test]
fn keys_are_written_as_given() {
    let mut rec = recorder(3);
    rec.capture_keystroke("", false, at(1.0)).unwrap();
    rec.capture_keystroke(",", true, at(2.0)).unwrap();
    rec.capture_keystroke("a\nb", false, at(3.0)).unwrap();
    assert_eq!(
        rec.export_as_csv(),
        "Press or Release,Key,Time\nP,,1735660000001\nR,,,1735660000002\nP,a\nb,1735660000003\n"
    );
}

#[test]
fn exports_have_one_entry_for_each_event() {
    let mut rec = recorder(5);
    for k in 0..4usize {
        assert_eq!(rec.export_as_csv().lines().count(), rec.get_event_count() + 1);
        assert_eq!(rec.get_raw_data().len(), rec.get_event_count());
        rec.capture_keystroke("key", k % 2 == 0, at(k as f64 * 16.5)).unwrap();
    }
    assert_eq!(rec.get_event_count(), 4);
    assert_eq!(rec.export_as_csv().lines().count(), 5);
    assert_eq!(rec.get_raw_data().len(), 4);
}

#[test]
fn a_rising_clock_gives_rising_exports() {
    let readings = [0.0, 0.4, 0.4, 1.0, 99.99, 100.0, 5000.125, 86400000.0];
    let mut rec = recorder(readings.len());
    for r in readings {
        rec.capture_keystroke("k", false, at(r)).unwrap();
    }
    let records = rec.get_raw_data();
    for pair in records.windows(2) {
        assert!(pair[0].timestamp.bits <= pair[1].timestamp.bits);
        assert!(millis(&pair[0]) <= millis(&pair[1]));
        assert!(pair[0].timestamp.whole_millis() <= pair[1].timestamp.whole_millis());
    }
    let table = rec.export_as_csv();
    let times: Vec<u64> = table
        .lines()
        .skip(1)
        .map(|line| line.rsplit(',').next().unwrap().parse().unwrap())
        .collect();
    assert_eq!(times.len(), readings.len());
    for pair in times.windows(2) {
        assert!(pair[0] <= pair[1]);
    }
    assert_eq!(times[0], 1735660000000);
    assert_eq!(times[7], 1735746400000);
}

#[test]
fn the_offset_is_the_documented_constant() {
    assert_eq!(TIME_OFFSET_MILLIS, 1735660000000);
    assert_eq!(TIME_OFFSET_MILLIS as f64, 1735660000000.0);
    assert_eq!(at(0.0).whole_millis(), TIME_OFFSET_MILLIS as i128);
}

#[test]
fn a_clock_of_whole_milliseconds_gives_the_same_table() {
    let mut rec = recorder(2);
    rec.capture_keystroke("a", false, Timestamp::from_clock_millis(100).unwrap()).unwrap();
    rec.capture_keystroke("a", true, Timestamp::from_clock_millis(150).unwrap()).unwrap();
    assert_eq!(
        rec.export_as_csv(),
        "Press or Release,Key,Time\nP,a,1735660000100\nR,a,1735660000150\n"
    );
    let records = rec.get_raw_data();
    assert_eq!(millis(&records[0]), 1735660000100.0);
    assert_eq!(millis(&records[1]), 1735660000150.0);
}

#[test]
fn an_instant_below_zero_is_written_with_its_sign() {
    let mut rec = recorder(4);
    assert_eq!(rec.capture_keystroke("a", false, at(-1735660000001.0)), Ok(()));
    assert_eq!(f64::from_bits(rec.get_raw_data()[0].timestamp.bits), -1.0);
    let table = rec.export_as_csv();
    let lines: Vec<&str> = table.lines().collect();
    assert_eq!(lines, ["Press or Release,Key,Time", "P,a,-1"]);

    rec.clear();
    rec.capture_keystroke("a", false, at(-1735660000250.0)).unwrap();
    rec.capture_keystroke("b", true, at(-1735660000001.5)).unwrap();
    rec.capture_keystroke("c", false, at(-1735660000000.5)).unwrap();
    rec.capture_keystroke("d", true, at(-1735660000000.0)).unwrap();
    assert_eq!(
        rec.export_as_csv(),
        "Press or Release,Key,Time\nP,a,-250\nR,b,-1\nP,c,0\nR,d,0\n"
    );
}

#[test]
fn a_rising_clock_gives_rising_exports_from_below_zero() {
    let readings = [-1735660000900.0, -1735660000002.5, -1735660000001.0, -1735660000000.0, 3.0];
    let mut rec = recorder(readings.len());
    for r in readings {
        rec.capture_keystroke("k", false, at(r)).unwrap();
    }
    let records = rec.get_raw_data();
    for pair in records.windows(2) {
        assert!(millis(&pair[0]) <= millis(&pair[1]));
        assert!(pair[0].timestamp.whole_millis() <= pair[1].timestamp.whole_millis());
    }
    assert_eq!(
        rec.export_as_csv(),
        "Press or Release,Key,Time\nP,k,-900\nP,k,-2\nP,k,-1\nP,k,0\nP,k,1735660000003\n"
    );
}
