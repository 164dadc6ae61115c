//! Attempt counting, burst thresholds, and identity interning.

use uv_resolver::identity::{is_base_package, IdentityInterner, PackageIdentity};
use uv_resolver::prefetch::BatchPrefetcher;

fn base(name: &str) -> PackageIdentity {
    PackageIdentity::Package { name: name.to_string(), extra: None, dev: None, marker: None }
}

#[test]
fn thresholds_fire_at_5_10_20_with_commits() {
    let mut p = BatchPrefetcher::new();
    let pkg = base("a");
    let mut fired_at: Vec<usize> = Vec::new();
    for t in 1..=25usize {
        p.version_tried(0, &pkg);
        let (tried, fire) = p.should_prefetch(0);
        assert_eq!(tried, t);
        if fire {
            fired_at.push(t);
            p.commit_prefetch(0, tried);
        }
    }
    assert_eq!(fired_at, vec![5, 10, 20]);
}

#[test]
fn steady_state_fires_every_20_attempts() {
    let mut p = BatchPrefetcher::new();
    let pkg = base("a");
    for _ in 0..20 {
        p.version_tried(0, &pkg);
    }
    p.commit_prefetch(0, 20);
    for t in 21..40usize {
        p.version_tried(0, &pkg);
        let (tried, fire) = p.should_prefetch(0);
        assert_eq!(tried, t);
        assert!(!fire, "no burst before 20 new attempts (at {t})");
    }
    p.version_tried(0, &pkg);
    let (tried, fire) = p.should_prefetch(0);
    assert_eq!(tried, 40);
    assert!(fire);
    assert_eq!(tried.min(50), 40);
}

#[test]
fn monotone_until_commit() {
    let mut p = BatchPrefetcher::new();
    let pkg = base("a");
    for _ in 0..5 {
        p.version_tried(0, &pkg);
    }
    // once it fires, it keeps firing until a commit
    for t in 5..12usize {
        let (tried, fire) = p.should_prefetch(0);
        assert_eq!(tried, t);
        assert!(fire);
        p.version_tried(0, &pkg);
    }
    p.commit_prefetch(0, 12);
    let (_, fire) = p.should_prefetch(0);
    assert!(!fire);
}

#[test]
fn only_base_packages_are_tracked() {
    let mut p = BatchPrefetcher::new();
    let extra = PackageIdentity::Extra {
        name: "a".to_string(),
        extra: "x".to_string(),
        marker: None,
    };
    let marker = PackageIdentity::Marker {
        name: "a".to_string(),
        marker: "python_version >= '3.9'".to_string(),
    };
    let with_dev = PackageIdentity::Package {
        name: "a".to_string(),
        extra: None,
        dev: Some("dev".to_string()),
        marker: None,
    };
    assert!(!is_base_package(&extra));
    assert!(!is_base_package(&marker));
    assert!(!is_base_package(&with_dev));
    assert!(is_base_package(&base("a")));
    for _ in 0..10 {
        p.version_tried(0, &extra);
        p.version_tried(0, &marker);
        p.version_tried(0, &with_dev);
    }
    let (tried, fire) = p.should_prefetch(0);
    assert_eq!(tried, 0);
    assert!(!fire);
}

#[test]
fn counters_are_per_handle() {
    let mut p = BatchPrefetcher::new();
    let a = base("a");
    let b = base("b");
    for _ in 0..5 {
        p.version_tried(0, &a);
    }
    for _ in 0..3 {
        p.version_tried(7, &b);
    }
    assert_eq!(p.should_prefetch(0).0, 5);
    assert_eq!(p.should_prefetch(7).0, 3);
    assert_eq!(p.should_prefetch(3).0, 0);
    assert_eq!(p.total_tried(), 8);
    assert_eq!(p.tried_counts(), vec![(0, 5), (7, 3)]);
}

#[test]
fn interner_is_idempotent() {
    let mut interner = IdentityInterner::new();
    let h0 = interner.intern(base("a"));
    let h1 = interner.intern(PackageIdentity::Extra {
        name: "a".to_string(),
        extra: "x".to_string(),
        marker: None,
    });
    let h2 = interner.intern(base("a"));
    let h3 = interner.intern(base("b"));
    assert_eq!(h0, h2);
    assert_ne!(h0, h1);
    assert_ne!(h0, h3);
    assert_ne!(h1, h3);
    assert_eq!(interner.len(), 3);
    assert!(interner.is_base_handle(h0));
    assert!(!interner.is_base_handle(h1));
    match interner.get(h3) {
        PackageIdentity::Package { name, .. } => assert_eq!(name, "b"),
        _ => panic!("expected a base package"),
    }
}
