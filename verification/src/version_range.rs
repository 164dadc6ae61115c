//! Version ranges: finite unions of version intervals with set operations,
//! backed by the `pubgrub` crate's `Ranges` type. Versions are the resolver's
//! ordinal version numbers. Contracts speak of the set of versions a range
//! holds, and of the user-facing version specifiers that compile to ranges.

use vstd::prelude::*;

use pubgrub::Ranges;

verus! {

#[verifier::external_type_specification]
#[verifier::external_body]
#[verifier::reject_recursive_types(V)]
pub struct ExRanges<V>(Ranges<V>);

/// The set of versions a `pubgrub` range holds.
pub uninterp spec fn ranges_set(r: Ranges<u64>) -> Set<u64>;

/// Whether `pubgrub`'s segment-wise containment check accepts the pair: it is
/// a fixed function of the two range representations, and when it holds the
/// first range's versions are a subset of the second's. (The converse can
/// fail: over a discrete version space two different segment shapes may hold
/// the same versions.)
pub uninterp spec fn ranges_subsumed(a: Ranges<u64>, b: Ranges<u64>) -> bool;

/// Relies on `pubgrub::Ranges::full`: the set of all possible versions.
#[verifier::external_body]
fn rng_full() -> (r: Ranges<u64>)
    ensures
        ranges_set(r) == Set::<u64>::full(),
{
    Ranges::full()
}

/// Relies on `pubgrub::Ranges::singleton`: the set containing exactly one version.
#[verifier::external_body]
fn rng_singleton(v: u64) -> (r: Ranges<u64>)
    ensures
        ranges_set(r) == Set::<u64>::empty().insert(v),
{
    Ranges::singleton(v)
}

/// Relies on `pubgrub::Ranges::strictly_lower_than`: all versions lower than `v`.
#[verifier::external_body]
fn rng_strictly_lower_than(v: u64) -> (r: Ranges<u64>)
    ensures
        ranges_set(r) == Set::new(|u: u64| u < v),
{
    Ranges::strictly_lower_than(v)
}

/// Relies on `pubgrub::Ranges::strictly_higher_than`: all versions higher than `v`.
#[verifier::external_body]
fn rng_strictly_higher_than(v: u64) -> (r: Ranges<u64>)
    ensures
        ranges_set(r) == Set::new(|u: u64| u > v),
{
    Ranges::strictly_higher_than(v)
}

/// Relies on `pubgrub::Ranges::lower_than`: all versions lower than or equal to `v`.
#[verifier::external_body]
fn rng_lower_than(v: u64) -> (r: Ranges<u64>)
    ensures
        ranges_set(r) == Set::new(|u: u64| u <= v),
{
    Ranges::lower_than(v)
}

/// Relies on `pubgrub::Ranges::higher_than`: all versions higher than or equal to `v`.
#[verifier::external_body]
fn rng_higher_than(v: u64) -> (r: Ranges<u64>)
    ensures
        ranges_set(r) == Set::new(|u: u64| u >= v),
{
    Ranges::higher_than(v)
}

/// Relies on `pubgrub::Ranges::complement`: everything not in the range.
#[verifier::external_body]
fn rng_complement(a: &Ranges<u64>) -> (r: Ranges<u64>)
    ensures
        ranges_set(r) == ranges_set(*a).complement(),
{
    a.complement()
}

/// Relies on `pubgrub::Ranges::intersection` of the two version sets.
#[verifier::external_body]
fn rng_intersection(a: &Ranges<u64>, b: &Ranges<u64>) -> (r: Ranges<u64>)
    ensures
        ranges_set(r) == ranges_set(*a).intersect(ranges_set(*b)),
{
    a.intersection(b)
}

/// Relies on `pubgrub::Ranges::union` of the two version sets.
#[verifier::external_body]
fn rng_union(a: &Ranges<u64>, b: &Ranges<u64>) -> (r: Ranges<u64>)
    ensures
        ranges_set(r) == ranges_set(*a).union(ranges_set(*b)),
{
    a.union(b)
}

/// Relies on `pubgrub::Ranges::contains`: whether the range holds the version.
#[verifier::external_body]
fn rng_contains(a: &Ranges<u64>, v: u64) -> (r: bool)
    ensures
        r == ranges_set(*a).contains(v),
{
    a.contains(&v)
}

/// Relies on `pubgrub::Ranges::subset_of`, the segment-wise containment
/// check: a fixed function of the two representations which, when it holds,
/// guarantees set containment.
#[verifier::external_body]
fn rng_subset_of(a: &Ranges<u64>, b: &Ranges<u64>) -> (r: bool)
    ensures
        r == ranges_subsumed(*a, *b),
        r ==> ranges_set(*a).subset_of(ranges_set(*b)),
{
    a.subset_of(b)
}

/// Relies on `pubgrub::Ranges::clone`: the clone holds the same versions.
#[verifier::external_body]
fn rng_clone(a: &Ranges<u64>) -> (r: Ranges<u64>)
    ensures
        ranges_set(r) == ranges_set(*a),
{
    a.clone()
}

/// A set of versions: a finite union of version intervals. Its mathematical
/// value is the set of versions it holds.
pub struct VersionRange {
    inner: Ranges<u64>,
}

impl View for VersionRange {
    type V = Set<u64>;

    closed spec fn view(&self) -> Set<u64> {
        ranges_set(self.inner)
    }
}

impl VersionRange {
    /// The set of all versions.
    pub fn full() -> (r: Self)
        ensures
            r@ == Set::<u64>::full(),
    {
        VersionRange { inner: rng_full() }
    }

    /// The set holding exactly one version.
    pub fn singleton(v: u64) -> (r: Self)
        ensures
            r@ == Set::<u64>::empty().insert(v),
    {
        VersionRange { inner: rng_singleton(v) }
    }

    /// All versions strictly lower than `v`.
    pub fn strictly_lower_than(v: u64) -> (r: Self)
        ensures
            r@ == Set::new(|u: u64| u < v),
    {
        VersionRange { inner: rng_strictly_lower_than(v) }
    }

    /// All versions strictly higher than `v`.
    pub fn strictly_higher_than(v: u64) -> (r: Self)
        ensures
            r@ == Set::new(|u: u64| u > v),
    {
        VersionRange { inner: rng_strictly_higher_than(v) }
    }

    /// All versions lower than or equal to `v`.
    pub fn lower_than(v: u64) -> (r: Self)
        ensures
            r@ == Set::new(|u: u64| u <= v),
    {
        VersionRange { inner: rng_lower_than(v) }
    }

    /// All versions higher than or equal to `v`.
    pub fn higher_than(v: u64) -> (r: Self)
        ensures
            r@ == Set::new(|u: u64| u >= v),
    {
        VersionRange { inner: rng_higher_than(v) }
    }

    /// Everything not in this range.
    pub fn complement(&self) -> (r: Self)
        ensures
            r@ == self@.complement(),
    {
        VersionRange { inner: rng_complement(&self.inner) }
    }

    /// The versions in both ranges.
    pub fn intersection(&self, other: &Self) -> (r: Self)
        ensures
            r@ == self@.intersect(other@),
    {
        VersionRange { inner: rng_intersection(&self.inner, &other.inner) }
    }

    /// The versions in either range.
    pub fn union(&self, other: &Self) -> (r: Self)
        ensures
            r@ == self@.union(other@),
    {
        VersionRange { inner: rng_union(&self.inner, &other.inner) }
    }

    /// Whether the range holds this version.
    pub fn contains(&self, v: u64) -> (r: bool)
        ensures
            r == self@.contains(v),
    {
        rng_contains(&self.inner, v)
    }

    /// The fixed result of the segment-wise containment check on this pair of
    /// range representations.
    pub closed spec fn subsumed_by(self, other: Self) -> bool {
        ranges_subsumed(self.inner, other.inner)
    }

    /// Segment-wise containment: when it holds, every version in `self` is
    /// also in `other`.
    pub fn subset_of(&self, other: &Self) -> (r: bool)
        ensures
            r == self.subsumed_by(*other),
            r ==> self@.subset_of(other@),
    {
        rng_subset_of(&self.inner, &other.inner)
    }

    /// A copy holding the same versions.
    pub fn duplicate(&self) -> (r: Self)
        ensures
            r@ == self@,
    {
        VersionRange { inner: rng_clone(&self.inner) }
    }
}

/// A comparison operator of a user-facing version specifier.
#[derive(Clone, Copy, PartialEq, Eq, Structural, Debug)]
pub enum SpecOp {
    /// Exactly this version.
    Eq,
    /// Anything but this version.
    Ne,
    /// Strictly lower.
    Lt,
    /// Lower or equal.
    Le,
    /// Strictly higher.
    Gt,
    /// Higher or equal.
    Ge,
}

/// One user-facing version constraint, e.g. "higher than or equal to 3".
#[derive(Clone, Copy, PartialEq, Eq, Structural, Debug)]
pub struct VersionSpecifier {
    pub op: SpecOp,
    pub version: u64,
}

/// The set of versions one specifier admits.
pub open spec fn specifier_set(s: VersionSpecifier) -> Set<u64> {
    match s.op {
        SpecOp::Eq => Set::<u64>::empty().insert(s.version),
        SpecOp::Ne => Set::<u64>::empty().insert(s.version).complement(),
        SpecOp::Lt => Set::new(|u: u64| u < s.version),
        SpecOp::Le => Set::new(|u: u64| u <= s.version),
        SpecOp::Gt => Set::new(|u: u64| u > s.version),
        SpecOp::Ge => Set::new(|u: u64| u >= s.version),
    }
}

/// The set of versions a conjunction of specifiers admits: the intersection
/// of all of them, the full set when there are none.
pub open spec fn specifiers_set(s: Seq<VersionSpecifier>) -> Set<u64>
    decreases s.len(),
{
    if s.len() == 0 {
        Set::<u64>::full()
    } else {
        specifiers_set(s.drop_last()).intersect(specifier_set(s.last()))
    }
}

/// The range one specifier admits.
fn specifier_range(s: &VersionSpecifier) -> (r: VersionRange)
    ensures
        r@ == specifier_set(*s),
{
    match s.op {
        SpecOp::Eq => VersionRange::singleton(s.version),
        SpecOp::Ne => VersionRange::singleton(s.version).complement(),
        SpecOp::Lt => VersionRange::strictly_lower_than(s.version),
        SpecOp::Le => VersionRange::lower_than(s.version),
        SpecOp::Gt => VersionRange::strictly_higher_than(s.version),
        SpecOp::Ge => VersionRange::higher_than(s.version),
    }
}

/// Compile a conjunction of user-facing specifiers into the version range
/// holding exactly the versions that satisfy all of them.
pub fn from_specifiers(specs: &Vec<VersionSpecifier>) -> (r: VersionRange)
    ensures
        r@ == specifiers_set(specs@),
{
    let mut range = VersionRange::full();
    let n = specs.len();
    for i in 0..n
        invariant
            n == specs@.len(),
            range@ == specifiers_set(specs@.take(i as int)),
    {
        range = range.intersection(&specifier_range(&specs[i]));
        proof {
            assert(specs@.take(i + 1).drop_last() =~= specs@.take(i as int));
            assert(specs@.take(i + 1).last() == specs@[i as int]);
        }
    }
    proof {
        assert(specs@.take(n as int) =~= specs@);
    }
    range
}

} // verus!
