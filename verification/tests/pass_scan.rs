use trabant::passes::{
    HorizonEventError, HorizonSearch, PassError, PassScan, PassTimes, PassWindow, ScanReaction,
    SearchStep, NANOS_PER_SECOND,
};

const S: i128 = NANOS_PER_SECOND;

/// Runs a bisection against an elevation profile that is above the minimum
/// from `crossing` on (rise) or before it (set).
fn bisect(from: i128, to: i128, rise: bool, tolerance: i64, crossing: i128) -> Result<i128, usize> {
    let mut search = HorizonSearch::new(from, to, rise, tolerance);
    let mut probes = 0;
    loop {
        match search.step() {
            SearchStep::Probe(t) => {
                assert!(from <= t && t <= to);
                probes += 1;
                let above = if rise { t >= crossing } else { t < crossing };
                search.observe(above);
            }
            SearchStep::Found(t) => return Ok(t),
            SearchStep::NotConverged => return Err(probes),
        }
    }
}

#[test]
fn rise_is_found_within_tolerance() {
    let crossing = 1_000 * S + 123_456_789;
    let t = bisect(0, 3_600 * S, true, 1, crossing).unwrap();
    assert!(t >= 0 && t <= 3_600 * S);
    assert!((t - crossing).abs() <= 2 * S);
}

#[test]
fn set_is_found_within_tolerance() {
    let crossing = 59 * S;
    let t = bisect(0, 60 * S, false, 0, crossing).unwrap();
    assert!((t - crossing).abs() <= S);
}

#[test]
fn bisection_gives_up_after_fifty_probes() {
    // A negative tolerance can never be met.
    assert_eq!(bisect(0, 60 * S, true, -1, 30 * S), Err(50));
}

#[test]
fn narrow_bracket_needs_no_probe() {
    let mut search = HorizonSearch::new(10 * S, 11 * S, true, 1);
    assert_eq!(search.step(), SearchStep::Found(10 * S + S / 2));
    let _ = &mut search;
}

#[test]
fn scan_refuses_empty_range() {
    match PassScan::new(5 * S, 5 * S, 60 * S) {
        Err(PassError::TimeError(m)) => assert_eq!(m, "Start time must be before end time"),
        _ => panic!("expected a time error"),
    }
    assert!(PassScan::new(6 * S, 5 * S, 60 * S).is_err());
}

/// Drives a scan over an elevation profile given per sample index.
fn scan(elevations: &[i32], min: i32, step: i128) -> Vec<PassTimes> {
    let end = elevations.len() as i128 * step;
    let mut scan = PassScan::new(0, end, step).unwrap();
    let mut max: Option<i32> = None;
    let mut found = Vec::new();
    while let Some(t) = scan.next_sample() {
        let e = elevations[(t / step) as usize];
        let higher = max.map_or(false, |m| e > m);
        match scan.observe(e >= min, higher) {
            ScanReaction::Continue => {}
            ScanReaction::NewMaximum => max = Some(e),
            ScanReaction::FindRise { from, to } => {
                assert_eq!(to - from, step);
                scan.rise_found(to - 1);
                max = Some(e);
            }
            ScanReaction::FindSet { from, to } => {
                assert_eq!(to - from, step);
                found.push(scan.set_found(from + 1));
                max = None;
            }
        }
    }
    let (all, ongoing) = scan.finish();
    if let Some(p) = ongoing {
        found.push(p);
    }
    assert_eq!(all, found);
    found
}

#[test]
fn scan_finds_passes_in_order() {
    let profile = [-5, 3, 10, 7, -2, -8, 1, 20, 30];
    let passes = scan(&profile, 0, 60 * S);
    assert_eq!(passes.len(), 2);
    assert_eq!(
        passes[0],
        PassTimes { rise: 60 * S - 1, max_elevation: 120 * S, set: 180 * S + 1 }
    );
    // The second pass is still up at the end of the range.
    assert_eq!(
        passes[1],
        PassTimes { rise: 360 * S - 1, max_elevation: 480 * S, set: 540 * S }
    );
    for p in &passes {
        assert!(p.rise <= p.max_elevation && p.max_elevation <= p.set);
    }
    assert!(passes[0].set <= passes[1].rise);
}

#[test]
fn scan_without_pass() {
    assert!(scan(&[-1, -2, -3], 0, 300 * S).is_empty());
}

#[test]
fn pass_window_requires_end_after_start() {
    let w = PassWindow::new(10, 20).unwrap();
    assert_eq!((w.start, w.end), (10, 20));
    match PassWindow::new(20, 20) {
        Err(HorizonEventError::InvalidTimeWindow(m)) => {
            assert_eq!(m, "End time must be after start time")
        }
        _ => panic!("a window of no length is refused"),
    }
    assert!(PassWindow::new(30, 20).is_err());
}

#[test]
fn test_find_passes_time_validation() {
    // The epoch 2025-08-29T07:07:09.975072Z, and an end one hour before it.
    let start_time = 1_756_451_229 * S + 975_072_000;
    let end_time = start_time - 3600 * S;
    match PassScan::new(start_time, end_time, 60 * S) {
        Err(PassError::TimeError(_)) => {}
        _ => panic!("Expected TimeError for invalid time range"),
    }
}

#[test]
fn test_pass_predictor_time_validation() {
    // 2025-08-29T12:00:00Z, and an end one hour before it.
    let start_time = 1_756_468_800 * S;
    let end_time = start_time - 3600 * S;
    let result = PassScan::new(start_time, end_time, 60 * S);
    assert!(result.is_err());
    match result {
        Err(PassError::TimeError(_)) => {}
        _ => panic!("Expected TimeError for invalid time range"),
    }
}

#[test]
fn test_binary_search_horizon_crossing() {
    // A satellite below 10 degrees at one minute-step sample and above it at
    // the next, with a 1 second tolerance; it crosses 10 degrees 37.25
    // seconds after the first sample.
    let below = 1_756_451_229 * S + 975_072_000;
    let above = below + 60 * S;
    let crossing = below + 37 * S + 250_000_000;
    let rise_time = bisect(below, above, true, 1, crossing).unwrap();
    assert!(rise_time >= below, "Rise time should be after below time");
    assert!(rise_time <= above, "Rise time should be before above time");
    assert!((rise_time - crossing).abs() <= 2 * S);
}

#[test]
fn single_sample_pass_has_its_sample_as_maximum() {
    // Only the sample at 120 s is above the minimum: it is the maximum, not
    // the refined rise instant before it.
    let passes = scan(&[-5, -1, 4, -3], 0, 60 * S);
    assert_eq!(
        passes,
        vec![PassTimes { rise: 120 * S - 1, max_elevation: 120 * S, set: 120 * S + 1 }]
    );
}

#[test]
fn test_find_passes_short_duration() {
    // A one-hour window sampled every 300 s (12 samples) with a minimum
    // elevation of 0 degrees; the elevations at the samples, in degrees.
    let profile = [-12, -4, 2, 15, 31, 22, 6, -3, -9, -1, 1, -2];
    let step = 300 * S;
    let min_elevation = 0;
    let passes = scan(&profile, min_elevation, step);
    assert_eq!(passes.len(), 2);
    for pass in &passes {
        assert!(pass.rise <= pass.max_elevation, "Rise time should be before max elevation");
        assert!(pass.max_elevation <= pass.set, "Max elevation should be before set time");
        let max_elevation = profile[(pass.max_elevation / step) as usize];
        assert!(max_elevation >= min_elevation, "Max elevation should be non-negative");
        assert!(max_elevation <= 90, "Max elevation should not exceed 90°");
    }
    assert_eq!(passes[0].max_elevation, 4 * step);
    assert_eq!(passes[1].max_elevation, 10 * step);
}
