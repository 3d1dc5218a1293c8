use trabant::optimization::{
    cache_use, check_memory_limit, context_instants, estimated_memory, hour_key, serve_request,
    CacheCounters, time_steps, CacheUse, CachedPropagation,
    ContextCache, MemoryExcess, PropagationCache,
};
use trabant::passes::NANOS_PER_SECOND;

const S: i128 = NANOS_PER_SECOND;

#[test]
fn test_adaptive_time_stepping_efficiency() {
    // 2025-08-29T07:07:10Z
    let start_time: i128 = 1_756_451_230 * S;
    let end_time = start_time + 86_400 * S;
    let orbital_period = 90.0;

    let max_time_step_seconds = 60.0;
    let min_time_step_seconds = 1.0;
    let base_step_seconds: f64 = (orbital_period * 60.0 / 360.0_f64)
        .min(max_time_step_seconds)
        .max(min_time_step_seconds);
    let steps = time_steps(start_time, end_time, base_step_seconds as i128 * S);

    println!("Generated {} time steps for 24-hour period", steps.len());

    // Should generate reasonable number of time steps
    assert!(steps.len() > 1000, "Should generate enough time steps for accuracy");
    assert!(steps.len() < 10000, "Should not generate excessive time steps");

    // Time steps should be ordered
    for window in steps.windows(2) {
        assert!(window[1] > window[0], "Time steps should be in chronological order");
    }

    // Calculate average step size
    let total_duration = ((end_time - start_time) / S) as f64;
    let avg_step = total_duration / steps.len() as f64;

    println!("Average time step: {:.1} seconds", avg_step);

    // Average step should be reasonable
    assert!(avg_step > 5.0, "Average step should be >5 seconds");
    assert!(avg_step < 120.0, "Average step should be <2 minutes");
}

#[test]
fn time_steps_end_with_end() {
    assert_eq!(time_steps(0, 10, 3), vec![0, 3, 6, 9, 10]);
    assert_eq!(time_steps(0, 9, 3), vec![0, 3, 6, 9]);
    assert_eq!(time_steps(5, 5, 3), vec![5]);
    assert_eq!(time_steps(7, 5, 3), vec![5]);
}

#[test]
fn hour_keys_round_toward_zero() {
    assert_eq!(hour_key(7199), 1);
    assert_eq!(hour_key(7200), 2);
    assert_eq!(hour_key(-1), 0);
    assert_eq!(hour_key(-3600), -1);
    assert_eq!(hour_key(-3601), -1);
    assert_eq!(hour_key(1_756_451_230), 1_756_451_230 / 3600);
}

#[test]
fn cache_use_by_whole_seconds() {
    assert_eq!(cache_use(10 * S, 10 * S + S - 1), CacheUse::Reuse);
    assert_eq!(cache_use(10 * S, 11 * S), CacheUse::Extrapolate);
    assert_eq!(cache_use(40 * S, 10 * S + 1), CacheUse::Extrapolate);
    assert_eq!(cache_use(40 * S, 10 * S), CacheUse::Recompute);
    assert_eq!(cache_use(0, 100 * S), CacheUse::Recompute);
}

#[test]
fn memory_limit() {
    assert_eq!(check_memory_limit(10 * 1024 * 1024, 10), Ok(()));
    assert_eq!(
        check_memory_limit(10 * 1024 * 1024 + 1, 10),
        Err(MemoryExcess { current_mb: 10, limit_mb: 10 })
    );
    assert_eq!(
        check_memory_limit(35 * 1024 * 1024, 20),
        Err(MemoryExcess { current_mb: 35, limit_mb: 20 })
    );
}

#[test]
fn context_cache_drops_old_hours() {
    let mut cache = ContextCache::new();
    for k in [100i64, 101, 102, 103] {
        cache.insert(k, format!("ctx{}", k));
    }
    assert!(cache.contains_key(101));
    assert_eq!(cache.remove_before(102), 2);
    assert_eq!(cache.len(), 2);
    assert!(!cache.contains_key(101));
    assert_eq!(cache.get(103).map(|s| s.as_str()), Some("ctx103"));
    assert_eq!(cache.remove_before(0), 0);
}

#[test]
fn propagation_cache_expires_by_age() {
    let mut cache = PropagationCache::new();
    let hour = 3_600 * S;
    for (i, age_hours) in [1i128, 30, 24, 25].iter().enumerate() {
        cache.insert(
            (56954, i as i64, 999),
            CachedPropagation { state: i, cached_at: 100 * hour - age_hours * hour, propagation_time: 0 },
        );
    }
    // Strictly older than the time to live goes; exactly as old stays.
    assert_eq!(cache.remove_expired(100 * hour, 24 * hour), 2);
    assert_eq!(cache.len(), 2);
    assert!(cache.get((56954, 0, 999)).is_some());
    assert!(cache.get((56954, 2, 999)).is_some());
    assert!(cache.get((56954, 1, 999)).is_none());
    assert_eq!(cache.get((56954, 0, 999)).unwrap().state, 0);
}

#[test]
fn memory_estimate_sums_both_caches() {
    assert_eq!(estimated_memory(3, 100, 2, 40), 380);
    assert_eq!(estimated_memory(0, 100, 0, 40), 0);
}

#[test]
fn context_instants_cover_the_range_at_the_step() {
    let h = 3600 * NANOS_PER_SECOND;
    assert_eq!(context_instants(0, 3 * h, h), vec![0, h, 2 * h, 3 * h]);
    assert_eq!(context_instants(5, 3 * h, h), vec![5, h + 5, 2 * h + 5]);
    assert_eq!(context_instants(10, 9, h), Vec::<i128>::new());
}

#[test]
fn each_request_is_counted_once() {
    let s = NANOS_PER_SECOND;
    let mut c = CacheCounters { cache_hits: 0, cache_misses: 0 };
    assert_eq!(serve_request(&mut c, None, 100 * s), CacheUse::Recompute);
    assert_eq!(c, CacheCounters { cache_hits: 0, cache_misses: 1 });
    assert_eq!(serve_request(&mut c, Some(100 * s), 100 * s + s / 2), CacheUse::Reuse);
    assert_eq!(serve_request(&mut c, Some(100 * s), 110 * s), CacheUse::Extrapolate);
    assert_eq!(c, CacheCounters { cache_hits: 2, cache_misses: 1 });
    assert_eq!(serve_request(&mut c, Some(100 * s), 130 * s), CacheUse::Recompute);
    assert_eq!(c, CacheCounters { cache_hits: 2, cache_misses: 2 });
}
