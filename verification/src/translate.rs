//! Requirement translation: one user-facing dependency requirement becomes
//! the dependency edges the resolver consumes, one for the base package and
//! one per requested extra, each with a version range and URL metadata.
//! Self-dependencies from non-dev contexts are dropped and reported.

use vstd::prelude::*;

use crate::identity::{from_package, from_package_view, PackageIdentity};
use crate::version_range::{from_specifiers, specifiers_set, VersionRange, VersionSpecifier};

verus! {

/// Where a requirement points: a registry specifier, or one of the concrete
/// URL-like sources. Every non-registry source keeps the verbatim user
/// spelling in `url` besides its parsed fields.
pub enum RequirementSource {
    /// A registry requirement: a conjunction of version specifiers.
    Registry { specifier: Vec<VersionSpecifier> },
    /// A remote archive.
    Url { location: String, subdirectory: Option<String>, ext: String, url: String },
    /// A git repository, optionally pinned to a precise commit.
    Git {
        repository: String,
        reference: Option<String>,
        precise: Option<String>,
        subdirectory: Option<String>,
        url: String,
    },
    /// A local archive file.
    Path { install_path: String, ext: String, url: String },
    /// A local directory, possibly editable, possibly metadata-only.
    Directory { install_path: String, editable: bool, is_virtual: bool, url: String },
}

/// One dependency requirement as the user states it.
pub struct Requirement {
    pub name: String,
    pub extras: Vec<String>,
    pub marker: Option<String>,
    pub source: RequirementSource,
}

/// The normalized parsed form of a non-registry source.
pub enum ParsedUrl {
    Archive { location: String, subdirectory: Option<String>, ext: String },
    Git {
        repository: String,
        reference: Option<String>,
        precise: Option<String>,
        subdirectory: Option<String>,
    },
    Path { install_path: String, ext: String },
    Directory { install_path: String, editable: bool, is_virtual: bool },
}

/// A parsed URL together with the verbatim user spelling it came from.
pub struct VerbatimParsedUrl {
    pub parsed_url: ParsedUrl,
    pub verbatim: String,
}

/// A resolver-ready package and version range, with the originating
/// specifiers and URL when the requirement had them.
pub struct PubGrubRequirement {
    pub package: PackageIdentity,
    pub version: VersionRange,
    pub specifier: Option<Vec<VersionSpecifier>>,
    pub url: Option<VerbatimParsedUrl>,
}

/// One dependency edge as the resolver consumes it.
pub struct PubGrubDependency {
    pub package: PackageIdentity,
    pub version: VersionRange,
    pub specifier: Option<Vec<VersionSpecifier>>,
    pub url: Option<VerbatimParsedUrl>,
}

/// The verbatim user spelling a source carries; empty for registry sources,
/// which have none.
pub open spec fn verbatim_of(s: RequirementSource) -> Seq<char> {
    match s {
        RequirementSource::Registry { .. } => Seq::<char>::empty(),
        RequirementSource::Url { url, .. } => url@,
        RequirementSource::Git { url, .. } => url@,
        RequirementSource::Path { url, .. } => url@,
        RequirementSource::Directory { url, .. } => url@,
    }
}

/// The parsed URL corresponds to the source: same variant, same fields.
pub open spec fn parsed_matches_source(p: ParsedUrl, s: RequirementSource) -> bool {
    match (p, s) {
        (
            ParsedUrl::Archive { location: l, subdirectory: sd, ext: e },
            RequirementSource::Url { location: l2, subdirectory: sd2, ext: e2, .. },
        ) => l@ == l2@ && sd.deep_view() == sd2.deep_view() && e@ == e2@,
        (
            ParsedUrl::Git { repository: r, reference: rf, precise: pr, subdirectory: sd },
            RequirementSource::Git {
                repository: r2,
                reference: rf2,
                precise: pr2,
                subdirectory: sd2,
                ..
            },
        ) => r@ == r2@ && rf.deep_view() == rf2.deep_view() && pr.deep_view() == pr2.deep_view()
            && sd.deep_view() == sd2.deep_view(),
        (
            ParsedUrl::Path { install_path: ip, ext: e },
            RequirementSource::Path { install_path: ip2, ext: e2, .. },
        ) => ip@ == ip2@ && e@ == e2@,
        (
            ParsedUrl::Directory { install_path: ip, editable: ed, is_virtual: vi },
            RequirementSource::Directory {
                install_path: ip2,
                editable: ed2,
                is_virtual: vi2,
                ..
            },
        ) => ip@ == ip2@ && ed == ed2 && vi == vi2,
        _ => false,
    }
}

/// What one translation yields for a requirement and one optional extra: the
/// identity is determined by name, extra and marker; a registry requirement
/// yields the compiled specifier range, its specifiers, and no URL; any other
/// source yields the full range, no specifiers, and its parsed URL with the
/// verbatim spelling preserved.
pub open spec fn requirement_matches(
    r: PubGrubRequirement,
    requirement: Requirement,
    extra: Option<Seq<char>>,
) -> bool {
    &&& r.package@ == from_package_view(requirement.name@, extra, requirement.marker.deep_view())
    &&& match requirement.source {
        RequirementSource::Registry { specifier } => {
            &&& r.version@ == specifiers_set(specifier@)
            &&& (r.specifier matches Some(s) && s@ == specifier@)
            &&& r.url is None
        },
        _ => {
            &&& r.version@ == Set::<u64>::full()
            &&& r.specifier is None
            &&& (r.url matches Some(u) && u.verbatim@ == verbatim_of(requirement.source)
                && parsed_matches_source(u.parsed_url, requirement.source))
        },
    }
}

/// The same statement for a finished dependency edge.
pub open spec fn dependency_matches(
    d: PubGrubDependency,
    requirement: Requirement,
    extra: Option<Seq<char>>,
) -> bool {
    requirement_matches(
        PubGrubRequirement { package: d.package, version: d.version, specifier: d.specifier, url: d.url },
        requirement,
        extra,
    )
}

/// A self-dependency that must be dropped: the edge comes from a non-dev
/// context, resolves to a base-package node (no marker), and that node is the
/// owning package itself.
pub open spec fn self_dependency(
    requirement: Requirement,
    dev: Option<Seq<char>>,
    source_name: Option<Seq<char>>,
) -> bool {
    &&& dev is None
    &&& (source_name matches Some(n) && n == requirement.name@)
    &&& requirement.marker is None
}

/// A copy of an optional string.
fn clone_opt_string(s: &Option<String>) -> (r: Option<String>)
    ensures
        r == *s,
{
    match s {
        Some(v) => Some(v.clone()),
        None => None,
    }
}

/// A copy of a specifier list.
fn copy_specifiers(v: &Vec<VersionSpecifier>) -> (r: Vec<VersionSpecifier>)
    ensures
        r@ == v@,
{
    let mut out: Vec<VersionSpecifier> = Vec::new();
    let n = v.len();
    for i in 0..n
        invariant
            n == v@.len(),
            out@ == v@.take(i as int),
    {
        out.push(v[i]);
        proof {
            assert(out@ =~= v@.take(i + 1));
        }
    }
    proof {
        assert(v@.take(n as int) =~= v@);
    }
    out
}

impl PubGrubRequirement {
    /// Convert a requirement, for one optional extra, into a resolver-ready
    /// package and range, keeping the URL of a non-registry requirement.
    pub fn from_requirement(requirement: &Requirement, extra: Option<String>) -> (r: Self)
        ensures
            requirement_matches(r, *requirement, extra.deep_view()),
    {
        let (parsed_url, verbatim) = match &requirement.source {
            RequirementSource::Registry { specifier } => {
                return Self::from_registry_requirement(specifier, extra, requirement);
            },
            RequirementSource::Url { location, subdirectory, ext, url } => (
                ParsedUrl::Archive {
                    location: location.clone(),
                    subdirectory: clone_opt_string(subdirectory),
                    ext: ext.clone(),
                },
                url.clone(),
            ),
            RequirementSource::Git { repository, reference, precise, subdirectory, url } => (
                ParsedUrl::Git {
                    repository: repository.clone(),
                    reference: clone_opt_string(reference),
                    precise: clone_opt_string(precise),
                    subdirectory: clone_opt_string(subdirectory),
                },
                url.clone(),
            ),
            RequirementSource::Path { install_path, ext, url } => (
                ParsedUrl::Path { install_path: install_path.clone(), ext: ext.clone() },
                url.clone(),
            ),
            RequirementSource::Directory { install_path, editable, is_virtual, url } => (
                ParsedUrl::Directory {
                    install_path: install_path.clone(),
                    editable: *editable,
                    is_virtual: *is_virtual,
                },
                url.clone(),
            ),
        };
        PubGrubRequirement {
            package: from_package(
                requirement.name.clone(),
                extra,
                clone_opt_string(&requirement.marker),
            ),
            version: VersionRange::full(),
            specifier: None,
            url: Some(VerbatimParsedUrl { parsed_url, verbatim }),
        }
    }

    /// The registry case: compile the specifiers to a range and keep them.
    fn from_registry_requirement(
        specifier: &Vec<VersionSpecifier>,
        extra: Option<String>,
        requirement: &Requirement,
    ) -> (r: PubGrubRequirement)
        requires
            (requirement.source matches RequirementSource::Registry { specifier: s } && s@
                == specifier@),
        ensures
            requirement_matches(r, *requirement, extra.deep_view()),
    {
        PubGrubRequirement {
            package: from_package(
                requirement.name.clone(),
                extra,
                clone_opt_string(&requirement.marker),
            ),
            specifier: Some(copy_specifiers(specifier)),
            url: None,
            version: from_specifiers(specifier),
        }
    }

    /// Move the parts into a finished dependency edge.
    fn into_dependency(self) -> (r: PubGrubDependency)
        ensures
            r.package == self.package,
            r.version == self.version,
            r.specifier == self.specifier,
            r.url == self.url,
    {
        PubGrubDependency {
            package: self.package,
            version: self.version,
            specifier: self.specifier,
            url: self.url,
        }
    }
}

/// What translating one requirement yields: the dependency edges, and
/// whether a base-package self-dependency was detected and dropped (the
/// caller reports it as a warning).
pub struct Translation {
    pub dependencies: Vec<PubGrubDependency>,
    pub dropped_self_dependency: bool,
}

impl PubGrubDependency {
    /// Translate one requirement into dependency edges: one for the base
    /// package and one per extra, in that order. A base-package edge whose
    /// name equals the owning package's, from a non-dev context, is dropped.
    /// Extras must already be flattened in that situation, so the requirement
    /// then carries none.
    pub fn from_requirement(
        requirement: &Requirement,
        dev: Option<&String>,
        source_name: Option<&String>,
    ) -> (r: Translation)
        requires
            dev is None && (source_name matches Some(n) && n@ == requirement.name@)
                ==> requirement.extras@.len() == 0,
        ensures
            r.dropped_self_dependency == self_dependency(
                *requirement,
                dev.deep_view(),
                source_name.deep_view(),
            ),
            r.dependencies@.len() == (if r.dropped_self_dependency {
                0int
            } else {
                1int
            }) + requirement.extras@.len(),
            !r.dropped_self_dependency ==> dependency_matches(
                r.dependencies@[0],
                *requirement,
                None,
            ),
            !r.dropped_self_dependency ==> forall|k: int|
                0 <= k < requirement.extras@.len() ==> dependency_matches(
                    #[trigger] r.dependencies@[1 + k],
                    *requirement,
                    Some(requirement.extras@[k]@),
                ),
            r.dropped_self_dependency ==> r.dependencies@.len() == 0,
    {
        let mut dependencies: Vec<PubGrubDependency> = Vec::new();
        let base = PubGrubRequirement::from_requirement(requirement, None);
        let self_edge = if dev.is_none() {
            match (&base.package, source_name) {
                (PackageIdentity::Package { name, .. }, Some(sn)) => *name == *sn,
                _ => false,
            }
        } else {
            false
        };
        if !self_edge {
            dependencies.push(base.into_dependency());
        }
        let ghost off: int = if self_edge {
            0
        } else {
            1
        };
        let n = requirement.extras.len();
        for k in 0..n
            invariant
                n == requirement.extras@.len(),
                off == if self_edge {
                    0int
                } else {
                    1int
                },
                dependencies@.len() == off + k,
                !self_edge ==> dependency_matches(dependencies@[0], *requirement, None),
                forall|j: int|
                    0 <= j < k ==> dependency_matches(
                        #[trigger] dependencies@[off + j],
                        *requirement,
                        Some(requirement.extras@[j]@),
                    ),
        {
            let e = requirement.extras[k].clone();
            let with_extra = PubGrubRequirement::from_requirement(requirement, Some(e));
            dependencies.push(with_extra.into_dependency());
        }
        Translation { dependencies, dropped_self_dependency: self_edge }
    }
}

} // verus!
