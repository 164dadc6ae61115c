//! The prefetch burst: two-phase candidate walk, dispatch gates,
//! deduplication, whole-burst abort, and idempotence.

use uv_resolver::burst::{
    ConstraintTerm, DistInfo, DistKind, DistributionRegistry, IndexCapabilities,
    PythonRequirement, VersionCandidate, VersionMap, WheelMeta,
};
use uv_resolver::identity::PackageIdentity;
use uv_resolver::prefetch::BatchPrefetcher;
use uv_resolver::version_range::VersionRange;

fn base(name: &str) -> PackageIdentity {
    PackageIdentity::Package { name: name.to_string(), extra: None, dev: None, marker: None }
}

/// A wheel candidate whose index serves metadata sidecars.
fn wheel_candidate(version: u64) -> VersionCandidate {
    VersionCandidate {
        version,
        version_id: 1000 + version,
        dist: Some(DistInfo {
            wheel: Some(WheelMeta { dist_info_metadata: true, index: 1 }),
            kind: DistKind::Wheel { requires_python: None },
        }),
    }
}

fn wide_python() -> PythonRequirement {
    PythonRequirement {
        installed: VersionRange::singleton(39),
        target: VersionRange::higher_than(39),
    }
}

fn map_of(candidates: Vec<VersionCandidate>) -> VersionMap {
    let mut map = VersionMap::new();
    for c in candidates {
        map.push_candidate(c);
    }
    map
}

fn tried(prefetcher: &mut BatchPrefetcher, id: usize, n: usize) {
    let pkg = base("a");
    for _ in 0..n {
        prefetcher.version_tried(id, &pkg);
    }
}

#[test]
fn two_phase_walk_in_order() {
    // compatible range [15, 20), chosen version 19 already registered;
    // a root constraint pins the walk to >= 12
    let mut p = BatchPrefetcher::new();
    tried(&mut p, 0, 20);
    let map = map_of((11..=19).map(wheel_candidate).collect());
    let range = VersionRange::higher_than(15).intersection(&VersionRange::strictly_lower_than(20));
    let constraint = ConstraintTerm::Positive(VersionRange::higher_than(12));
    let caps = IndexCapabilities::new();
    let mut registry = DistributionRegistry::new();
    assert!(registry.register(1000 + 19));
    let outcome = p.prefetch_batches(
        0,
        20,
        19,
        &range,
        Some(&constraint),
        &wide_python(),
        &map,
        &caps,
        true,
        &mut registry,
    );
    assert!(!outcome.aborted);
    let versions: Vec<u64> = outcome.requests.iter().map(|r| r.version).collect();
    // phase one walks the compatible range downwards, phase two continues in
    // version order down to the constraint; 11 is never emitted
    assert_eq!(versions, vec![18, 17, 16, 15, 14, 13, 12]);
}

#[test]
fn lowest_version_policy_walks_upwards() {
    let mut p = BatchPrefetcher::new();
    tried(&mut p, 0, 10);
    let map = map_of((1..=6).map(wheel_candidate).collect());
    let range = VersionRange::singleton(3);
    let caps = IndexCapabilities::new();
    let mut registry = DistributionRegistry::new();
    assert!(registry.register(1000 + 3));
    let outcome = p.prefetch_batches(
        0,
        10,
        3,
        &range,
        None,
        &wide_python(),
        &map,
        &caps,
        false,
        &mut registry,
    );
    assert!(!outcome.aborted);
    let versions: Vec<u64> = outcome.requests.iter().map(|r| r.version).collect();
    assert_eq!(versions, vec![4, 5, 6]);
}

#[test]
fn burst_size_is_bounded_by_tried() {
    let mut p = BatchPrefetcher::new();
    tried(&mut p, 0, 5);
    let map = map_of((1..=30).map(wheel_candidate).collect());
    let range = VersionRange::full();
    let caps = IndexCapabilities::new();
    let mut registry = DistributionRegistry::new();
    let outcome = p.prefetch_batches(
        0,
        5,
        30,
        &range,
        None,
        &wide_python(),
        &map,
        &caps,
        true,
        &mut registry,
    );
    // five tried versions allow exactly five steps, all of which dispatch
    assert_eq!(outcome.requests.len(), 5);
    let versions: Vec<u64> = outcome.requests.iter().map(|r| r.version).collect();
    assert_eq!(versions, vec![30, 29, 28, 27, 26]);
}

#[test]
fn gates_filter_candidates() {
    let mut p = BatchPrefetcher::new();
    tried(&mut p, 0, 20);
    let mut candidates = Vec::new();
    // no compatible distribution: skipped
    candidates.push(VersionCandidate { version: 1, version_id: 1001, dist: None });
    // source-only (no wheel): skipped
    candidates.push(VersionCandidate {
        version: 2,
        version_id: 1002,
        dist: Some(DistInfo { wheel: None, kind: DistKind::Source { requires_python: None } }),
    });
    // wheel whose file requires a newer target interpreter: skipped
    candidates.push(VersionCandidate {
        version: 3,
        version_id: 1003,
        dist: Some(DistInfo {
            wheel: Some(WheelMeta { dist_info_metadata: true, index: 1 }),
            kind: DistKind::Wheel { requires_python: Some(VersionRange::higher_than(400)) },
        }),
    });
    // source fallback suiting both interpreters, sidecar metadata: dispatched
    candidates.push(VersionCandidate {
        version: 4,
        version_id: 1004,
        dist: Some(DistInfo {
            wheel: Some(WheelMeta { dist_info_metadata: true, index: 1 }),
            kind: DistKind::Source { requires_python: Some(VersionRange::higher_than(30)) },
        }),
    });
    // plain wheel: dispatched
    candidates.push(wheel_candidate(5));
    let map = map_of(candidates);
    let caps = IndexCapabilities::new();
    let mut registry = DistributionRegistry::new();
    let outcome = p.prefetch_batches(
        0,
        20,
        9,
        &VersionRange::full(),
        None,
        &wide_python(),
        &map,
        &caps,
        true,
        &mut registry,
    );
    assert!(!outcome.aborted);
    let ids: Vec<u64> = outcome.requests.iter().map(|r| r.version_id).collect();
    // the walk runs from the highest version down
    assert_eq!(ids, vec![1005, 1004]);
}

#[test]
fn incapable_index_aborts_burst_without_commit() {
    let mut p = BatchPrefetcher::new();
    tried(&mut p, 0, 20);
    let mut candidates = vec![wheel_candidate(1)];
    // no sidecar metadata and an index that answers no range requests
    candidates.push(VersionCandidate {
        version: 2,
        version_id: 1002,
        dist: Some(DistInfo {
            wheel: Some(WheelMeta { dist_info_metadata: false, index: 9 }),
            kind: DistKind::Wheel { requires_python: None },
        }),
    });
    let map = map_of(candidates);
    let caps = IndexCapabilities::new();
    let mut registry = DistributionRegistry::new();
    let outcome = p.prefetch_batches(
        0,
        20,
        5,
        &VersionRange::full(),
        None,
        &wide_python(),
        &map,
        &caps,
        true,
        &mut registry,
    );
    // the highest candidate (version 2) aborts the whole burst at once
    assert!(outcome.aborted);
    assert_eq!(outcome.requests.len(), 0);
    // nothing was committed: the thresholds still fire
    let (tried_now, fire) = p.should_prefetch(0);
    assert_eq!(tried_now, 20);
    assert!(fire);
}

#[test]
fn range_request_capability_admits_wheel_without_sidecar() {
    let mut p = BatchPrefetcher::new();
    tried(&mut p, 0, 20);
    let map = map_of(vec![VersionCandidate {
        version: 2,
        version_id: 1002,
        dist: Some(DistInfo {
            wheel: Some(WheelMeta { dist_info_metadata: false, index: 9 }),
            kind: DistKind::Wheel { requires_python: None },
        }),
    }]);
    let mut caps = IndexCapabilities::new();
    caps.mark_range_requests(9);
    assert!(caps.supports_range_requests(9));
    assert!(!caps.supports_range_requests(4));
    let mut registry = DistributionRegistry::new();
    let outcome = p.prefetch_batches(
        0,
        20,
        5,
        &VersionRange::full(),
        None,
        &wide_python(),
        &map,
        &caps,
        true,
        &mut registry,
    );
    assert!(!outcome.aborted);
    assert_eq!(outcome.requests.len(), 1);
    assert_eq!(outcome.requests[0].version_id, 1002);
}

#[test]
fn second_run_with_unchanged_state_dispatches_nothing() {
    let mut p = BatchPrefetcher::new();
    tried(&mut p, 0, 20);
    let map = map_of((1..=10).map(wheel_candidate).collect());
    let range = VersionRange::full();
    let caps = IndexCapabilities::new();
    let mut registry = DistributionRegistry::new();
    let first = p.prefetch_batches(
        0,
        20,
        10,
        &range,
        None,
        &wide_python(),
        &map,
        &caps,
        true,
        &mut registry,
    );
    assert!(!first.aborted);
    assert!(!first.requests.is_empty());
    // after the commit the controller no longer fires at this count
    let (_, fire) = p.should_prefetch(0);
    assert!(!fire);
    // and even a forced rerun finds every candidate registered
    let second = p.prefetch_batches(
        0,
        20,
        10,
        &range,
        None,
        &wide_python(),
        &map,
        &caps,
        true,
        &mut registry,
    );
    assert!(!second.aborted);
    assert_eq!(second.requests.len(), 0);
}

#[test]
fn registry_deduplicates() {
    let mut registry = DistributionRegistry::new();
    assert!(registry.register(7));
    assert!(!registry.register(7));
    assert!(registry.register(8));
    assert!(!registry.register(8));
}

#[test]
fn version_range_operations() {
    let r = VersionRange::higher_than(5);
    assert!(r.contains(5));
    assert!(!r.contains(4));
    let s = VersionRange::strictly_lower_than(8);
    let both = r.intersection(&s);
    assert!(both.contains(5) && both.contains(7));
    assert!(!both.contains(8) && !both.contains(4));
    let outside = both.complement();
    assert!(outside.contains(8) && outside.contains(4));
    assert!(!outside.contains(6));
    let one = VersionRange::singleton(3);
    assert!(one.contains(3) && !one.contains(2) && !one.contains(4));
    assert!(one.subset_of(&VersionRange::lower_than(3)));
    assert!(!VersionRange::lower_than(3).subset_of(&one));
    let either = one.union(&VersionRange::singleton(9));
    assert!(either.contains(3) && either.contains(9) && !either.contains(5));
    assert!(VersionRange::strictly_higher_than(9).contains(10));
    assert!(!VersionRange::strictly_higher_than(9).contains(9));
    assert!(r.duplicate().contains(5));
}
