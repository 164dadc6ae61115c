//! Resolver package identities: base packages plus the virtual nodes for
//! extras, dev groups and conditional (marker) edges, and the interner that
//! hands out stable numeric handles for them.

use vstd::prelude::*;

verus! {

/// A resolver package identity. The resolver reasons about extras and markers
/// as first-class package nodes, so besides real packages there are virtual
/// variants; the version of a virtual node equals the version of its base.
#[allow(inconsistent_fields)]
pub enum PackageIdentity {
    /// Synthetic top-level package that seeds the resolution.
    Root,
    /// A real package. Only values with `extra`, `dev` and `marker` all `None`
    /// are base packages; the prefetcher acts on those alone.
    Package { name: String, extra: Option<String>, dev: Option<String>, marker: Option<String> },
    /// Virtual node pulling in an optional feature set of the base package.
    Extra { name: String, extra: String, marker: Option<String> },
    /// Virtual node for a dependency edge guarded by an environment marker.
    Marker { name: String, marker: String },
}

/// The mathematical value of a `PackageIdentity`: the same shape over
/// character sequences. Two identities are equal exactly when their views are.
#[allow(inconsistent_fields)]
pub ghost enum IdentityView {
    Root,
    Package { name: Seq<char>, extra: Option<Seq<char>>, dev: Option<Seq<char>>, marker: Option<Seq<char>> },
    Extra { name: Seq<char>, extra: Seq<char>, marker: Option<Seq<char>> },
    Marker { name: Seq<char>, marker: Seq<char> },
}

impl IdentityView {
    /// A base package: a real package with no extra, no dev group, no marker.
    pub open spec fn is_base(self) -> bool {
        self matches IdentityView::Package { extra: None, dev: None, marker: None, .. }
    }

}

impl View for PackageIdentity {
    type V = IdentityView;

    open spec fn view(&self) -> IdentityView {
        match self {
            PackageIdentity::Root => IdentityView::Root,
            PackageIdentity::Package { name, extra, dev, marker } => IdentityView::Package {
                name: name@,
                extra: extra.deep_view(),
                dev: dev.deep_view(),
                marker: marker.deep_view(),
            },
            PackageIdentity::Extra { name, extra, marker } => IdentityView::Extra {
                name: name@,
                extra: extra@,
                marker: marker.deep_view(),
            },
            PackageIdentity::Marker { name, marker } => IdentityView::Marker {
                name: name@,
                marker: marker@,
            },
        }
    }
}

/// The identity a dependency edge translates to, by its optional extra and
/// optional marker: an extra yields an extra node; otherwise a marker yields
/// a marker node; otherwise the base package.
pub open spec fn from_package_view(
    name: Seq<char>,
    extra: Option<Seq<char>>,
    marker: Option<Seq<char>>,
) -> IdentityView {
    match extra {
        Some(e) => IdentityView::Extra { name, extra: e, marker },
        None => match marker {
            Some(m) => IdentityView::Marker { name, marker: m },
            None => IdentityView::Package { name, extra: None, dev: None, marker: None },
        },
    }
}

/// Build the identity for a dependency edge from its name, optional extra
/// and optional marker.
pub fn from_package(name: String, extra: Option<String>, marker: Option<String>) -> (r:
    PackageIdentity)
    ensures
        r@ == from_package_view(name@, extra.deep_view(), marker.deep_view()),
{
    match extra {
        Some(e) => PackageIdentity::Extra { name, extra: e, marker },
        None => match marker {
            Some(m) => PackageIdentity::Marker { name, marker: m },
            None => PackageIdentity::Package { name, extra: None, dev: None, marker: None },
        },
    }
}

/// True iff the identity is a base package, the only kind that prefetch
/// tracking and prefetch triggering act on.
pub fn is_base_package(identity: &PackageIdentity) -> (r: bool)
    ensures
        r == identity@.is_base(),
{
    match identity {
        PackageIdentity::Package { extra: None, dev: None, marker: None, .. } => true,
        _ => false,
    }
}

/// Equality of two optional strings, decided by their character sequences.
fn opt_str_eq(a: &Option<String>, b: &Option<String>) -> (r: bool)
    ensures
        r == (a.deep_view() == b.deep_view()),
{
    match (a, b) {
        (None, None) => true,
        (Some(x), Some(y)) => *x == *y,
        _ => false,
    }
}

/// Semantic equality of identities: equal exactly when all fields match.
pub fn identity_eq(a: &PackageIdentity, b: &PackageIdentity) -> (r: bool)
    ensures
        r == (a@ == b@),
{
    match (a, b) {
        (PackageIdentity::Root, PackageIdentity::Root) => true,
        (
            PackageIdentity::Package { name: n1, extra: e1, dev: d1, marker: m1 },
            PackageIdentity::Package { name: n2, extra: e2, dev: d2, marker: m2 },
        ) => *n1 == *n2 && opt_str_eq(e1, e2) && opt_str_eq(d1, d2) && opt_str_eq(m1, m2),
        (
            PackageIdentity::Extra { name: n1, extra: e1, marker: m1 },
            PackageIdentity::Extra { name: n2, extra: e2, marker: m2 },
        ) => *n1 == *n2 && *e1 == *e2 && opt_str_eq(m1, m2),
        (
            PackageIdentity::Marker { name: n1, marker: m1 },
            PackageIdentity::Marker { name: n2, marker: m2 },
        ) => *n1 == *n2 && *m1 == *m2,
        _ => false,
    }
}

/// The identity interner. It owns every identity seen during one resolution
/// and hands out stable numeric handles; equal identities get equal handles.
pub struct IdentityInterner {
    items: Vec<PackageIdentity>,
}

impl View for IdentityInterner {
    type V = Seq<IdentityView>;

    closed spec fn view(&self) -> Seq<IdentityView> {
        Seq::new(self.items@.len(), |i: int| self.items@[i]@)
    }
}

impl IdentityInterner {
    /// No two handles stand for the same identity.
    pub closed spec fn wf(self) -> bool {
        forall|i: int, j: int| 0 <= i < j < self@.len() ==> self@[i] != self@[j]
    }

    pub fn new() -> (r: Self)
        ensures
            r.wf(),
            r@.len() == 0,
    {
        IdentityInterner { items: Vec::new() }
    }

    /// Intern an identity. Idempotent: if an equal identity is already held,
    /// its handle comes back and nothing changes; otherwise the identity is
    /// appended. Either way the handle is the first one with this identity,
    /// and all earlier handles keep their identities.
    pub fn intern(&mut self, identity: PackageIdentity) -> (h: usize)
        requires
            old(self).wf(),
            old(self)@.len() < usize::MAX,
        ensures
            final(self).wf(),
            h < final(self)@.len(),
            final(self)@[h as int] == identity@,
            forall|i: int| 0 <= i < h ==> final(self)@[i] != identity@,
            forall|i: int| 0 <= i < old(self)@.len() ==> final(self)@[i] == old(self)@[i],
            old(self)@.contains(identity@) ==> final(self)@ == old(self)@,
            !old(self)@.contains(identity@) ==> final(self)@ == old(self)@.push(identity@),
    {
        let n = self.items.len();
        for i in 0..n
            invariant
                *self == *old(self),
                self.wf(),
                n == self.items.len(),
                forall|j: int| 0 <= j < i ==> self@[j] != identity@,
        {
            if identity_eq(&self.items[i], &identity) {
                proof {
                    assert(self@[i as int] == identity@);
                }
                return i;
            }
        }
        proof {
            assert(forall|j: int| 0 <= j < self@.len() ==> self@[j] != identity@);
            assert(!self@.contains(identity@));
        }
        self.items.push(identity);
        proof {
            assert(self@ =~= old(self)@.push(identity@));
        }
        n
    }

    /// The identity behind a handle.
    pub fn get(&self, h: usize) -> (r: &PackageIdentity)
        requires
            h < self@.len(),
        ensures
            r@ == self@[h as int],
    {
        &self.items[h]
    }

    /// How many identities are interned.
    pub fn len(&self) -> (r: usize)
        ensures
            r == self@.len(),
    {
        self.items.len()
    }

    /// True iff the handle stands for a base package.
    pub fn is_base_handle(&self, h: usize) -> (r: bool)
        requires
            h < self@.len(),
        ensures
            r == self@[h as int].is_base(),
    {
        is_base_package(&self.items[h])
    }
}

} // verus!
