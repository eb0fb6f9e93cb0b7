use maritime_mesh::clock::{now_ns, ns_from_epoch_nanos};
use maritime_mesh::detector::{DarkEvent, DarkZoneDetector};
use maritime_mesh::frame::VesselState;

const MIN: i64 = 60_000_000_000;

fn state(mmsi: u32, last_seen_ns: i64) -> VesselState {
    VesselState {
        mmsi,
        vessel_name: None,
        vessel_type: 0,
        lat: 30_000_000 + mmsi as i32,
        lon: 1_000_000,
        sog: 80,
        cog: 900,
        heading: Some(90),
        last_seen_ns,
        is_dark: false,
        confidence: 1000,
    }
}

fn detector() -> DarkZoneDetector {
    DarkZoneDetector::new(15 * MIN as u128)
}

#[test]
fn silent_vessel_goes_dark() {
    let mut d = detector();
    let now = 100 * MIN;
    let vessels = vec![(1, state(1, now - 20 * MIN)), (2, state(2, now - 5 * MIN))];
    assert!(d.sweep_at(&vessels, now));
    let ev = d.vessel_event(1).unwrap();
    assert_eq!(
        ev,
        DarkEvent {
            dark_event_id: 1,
            mmsi: 1,
            gap_start_ns: now - 20 * MIN,
            gap_end_ns: None,
            last_lat: 30_000_001,
            last_lon: 1_000_000,
            last_sog: 80,
            last_cog: 900,
            is_ongoing: true,
        }
    );
    assert!(d.vessel_event(2).is_none());
    assert_eq!(d.active_events().len(), 1);
}

#[test]
fn threshold_is_inclusive() {
    let mut d = detector();
    let now = 100 * MIN;
    assert!(d.sweep_at(&vec![(7, state(7, now - 15 * MIN))], now));
    assert!(d.vessel_event(7).is_some());
    let mut d = detector();
    assert!(d.sweep_at(&vec![(7, state(7, now - 15 * MIN + 1))], now));
    assert!(d.vessel_event(7).is_none());
}

#[test]
fn reappearing_vessel_closes_event() {
    let mut d = detector();
    let now = 100 * MIN;
    assert!(d.sweep_at(&vec![(3, state(3, now - 30 * MIN))], now));
    assert!(d.vessel_event(3).is_some());
    assert!(d.sweep_at(&vec![(3, state(3, now + MIN))], now + 2 * MIN));
    assert!(d.vessel_event(3).is_none());
    assert!(d.active_events().is_empty());
}

#[test]
fn open_event_is_kept_across_sweeps() {
    let mut d = detector();
    let now = 100 * MIN;
    assert!(d.sweep_at(&vec![(4, state(4, now - 30 * MIN))], now));
    let first = d.vessel_event(4).unwrap();
    assert!(d.sweep_at(&vec![(4, state(4, now - 30 * MIN))], now + 10 * MIN));
    assert_eq!(d.vessel_event(4).unwrap(), first);
}

#[test]
fn event_numbers_increase() {
    let mut d = detector();
    let now = 100 * MIN;
    let vessels = vec![(10, state(10, 0)), (11, state(11, 0)), (12, state(12, now))];
    assert!(d.sweep_at(&vessels, now));
    let a = d.vessel_event(10).unwrap().dark_event_id;
    let b = d.vessel_event(11).unwrap().dark_event_id;
    assert_eq!((a, b), (1, 2));
    assert!(d.sweep_at(&vec![(10, state(10, now))], now));
    assert!(d.sweep_at(&vec![(10, state(10, 0))], now));
    assert_eq!(d.vessel_event(10).unwrap().dark_event_id, 3);
    let mut ids: Vec<u64> = d.active_events().iter().map(|e| e.dark_event_id).collect();
    ids.sort();
    assert_eq!(ids, vec![2, 3]);
}

#[test]
fn vessels_outside_the_sweep_are_untouched() {
    let mut d = detector();
    let now = 100 * MIN;
    assert!(d.sweep_at(&vec![(20, state(20, 0))], now));
    assert!(d.sweep_at(&vec![(21, state(21, now))], now));
    assert!(d.vessel_event(20).is_some());
}

#[test]
fn sweep_with_clock_runs() {
    let mut d = detector();
    assert!(d.sweep(&vec![(30, state(30, 0))]));
    assert!(d.vessel_event(30).is_some());
    assert!(d.sweep(&vec![]));
}

#[test]
fn numbers_are_issued_consecutively_over_sweeps() {
    let mut d = detector();
    let now = 100 * MIN;
    let mut issued: Vec<u64> = Vec::new();
    // three rounds: two vessels go dark, one comes back, two more go dark
    let rounds = vec![
        vec![(1, state(1, 0)), (2, state(2, 0)), (3, state(3, now))],
        vec![(1, state(1, now)), (2, state(2, 0)), (3, state(3, now))],
        vec![(1, state(1, 0)), (3, state(3, 0))],
    ];
    for round in &rounds {
        let before: Vec<u32> = d.active_events().iter().map(|e| e.mmsi).collect();
        assert!(d.sweep_at(round, now));
        let mut opened: Vec<u64> = d
            .active_events()
            .iter()
            .filter(|e| !before.contains(&e.mmsi))
            .map(|e| e.dark_event_id)
            .collect();
        opened.sort();
        issued.extend(opened);
        for e in d.active_events() {
            assert!(e.is_ongoing && e.gap_end_ns.is_none());
        }
    }
    assert_eq!(issued, vec![1, 2, 3, 4]);
}

#[test]
fn event_opens_then_closes_over_two_sweeps() {
    let mut d = detector();
    let now = 100 * MIN;
    let s = state(8, now - 40 * MIN);
    assert!(d.sweep_at(&vec![(8, s.clone())], now));
    let e = d.vessel_event(8).unwrap();
    assert_eq!(e.mmsi, 8);
    assert_eq!(e.gap_start_ns, s.last_seen_ns);
    assert!(e.is_ongoing && e.gap_end_ns.is_none());
    assert_eq!(d.active_events(), vec![e]);
    assert!(d.sweep_at(&vec![(8, state(8, now + MIN))], now + 2 * MIN));
    assert_eq!(d.vessel_event(8), None);
}

#[test]
fn clock_readings_become_timestamps() {
    assert_eq!(ns_from_epoch_nanos(None), 0);
    assert_eq!(ns_from_epoch_nanos(Some(1_700_000_000_123_456_789)), 1_700_000_000_123_456_789);
    // wraps as `as` does
    assert_eq!(ns_from_epoch_nanos(Some((1u128 << 64) + 3)), 3);
    assert_eq!(ns_from_epoch_nanos(Some(1u128 << 63)), i64::MIN);
    assert!(now_ns() > 0);
}
