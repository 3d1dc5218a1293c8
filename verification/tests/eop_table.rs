use trabant::eop::{EopCache, EopLookupError, Located};

/// EOP values as (mjd, x_pole, y_pole, ut1_utc, lod).
type Record = (i64, f64, f64, f64, f64);

fn record(mjd: i64, x_pole: f64, y_pole: f64, ut1_utc: f64, lod: f64) -> Record {
    (mjd, x_pole, y_pole, ut1_utc, lod)
}

fn insert(cache: &mut EopCache<Record>, r: Record) {
    cache.insert(r.0, r);
}

#[test]
fn test_eop_cache_basic() {
    let mut cache = EopCache::new();
    assert!(cache.is_empty());

    let eop1 = record(59000, 0.1, 0.2, 0.05, 0.001);
    let eop2 = record(59001, 0.2, 0.3, 0.06, 0.002);

    insert(&mut cache, eop1);
    insert(&mut cache, eop2);

    assert_eq!(cache.len(), 2);
    assert_eq!(cache.get_exact(59000).unwrap(), &eop1);
    assert_eq!(cache.get_exact(59001).unwrap(), &eop2);
}

#[test]
fn test_eop_cache_interpolation() {
    let mut cache = EopCache::new();

    let eop1 = record(59000, 0.1, 0.2, 0.05, 0.001);
    let eop2 = record(59002, 0.3, 0.4, 0.07, 0.003);

    insert(&mut cache, eop1);
    insert(&mut cache, eop2);

    // Interpolate at midpoint
    match cache.locate(59001) {
        Ok(Located::Between { before_mjd, before, after_mjd, after }) => {
            assert_eq!((before_mjd, after_mjd), (59000, 59002));
            let t = (59001 - before_mjd) as f64 / (after_mjd - before_mjd) as f64;
            let x_pole = before.1 + t * (after.1 - before.1);
            let y_pole = before.2 + t * (after.2 - before.2);
            let ut1_utc = before.3 + t * (after.3 - before.3);
            assert!((x_pole - 0.2).abs() < 1e-10);
            assert!((y_pole - 0.3).abs() < 1e-10);
            assert!((ut1_utc - 0.06).abs() < 1e-10);
        }
        _ => panic!("expected the two records around the date"),
    }
}

#[test]
fn test_eop_cache_out_of_range() {
    let mut cache = EopCache::new();
    insert(&mut cache, record(59000, 0.1, 0.2, 0.05, 0.001));

    assert!(cache.locate(58999).is_err());
    assert!(cache.locate(59001).is_err());
}

#[test]
fn lookup_errors_and_exact_hits() {
    let mut cache: EopCache<Record> = EopCache::new();
    assert!(matches!(cache.locate(59000), Err(EopLookupError::NoDataAvailable)));
    assert_eq!(cache.date_range(), None);

    for mjd in [59010, 59000, 59020] {
        insert(&mut cache, record(mjd, 0.0, 0.0, 0.0, 0.0));
    }
    assert_eq!(cache.date_range(), Some((59000, 59020)));
    match cache.locate(59030) {
        Err(EopLookupError::DateOutOfRange { mjd, start_mjd, end_mjd }) => {
            assert_eq!((mjd, start_mjd, end_mjd), (59030, 59000, 59020));
        }
        _ => panic!("expected out of range"),
    }
    assert!(matches!(cache.locate(59010), Ok(Located::Exact(r)) if r.0 == 59010));
    match cache.locate(59015) {
        Ok(Located::Between { before_mjd, after_mjd, .. }) => {
            assert_eq!((before_mjd, after_mjd), (59010, 59020))
        }
        _ => panic!("expected a bracket"),
    }
    // A later record for a date replaces the earlier one.
    insert(&mut cache, record(59010, 1.0, 0.0, 0.0, 0.0));
    assert_eq!(cache.len(), 3);
    assert_eq!(cache.get_exact(59010).unwrap().1, 1.0);
    assert!(cache.get_exact(59011).is_none());
}
