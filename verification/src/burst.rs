//! The prefetch burst: when the attempt counters fire, walk up to
//! `min(tried, 50)` candidate versions in two phases — first within the
//! current compatible range, then in plain version order — gate each
//! candidate on distribution kind, index capabilities and interpreter
//! compatibility, deduplicate against the shared registration set, and emit
//! one metadata-fetch request per new candidate.

use vstd::prelude::*;

use crate::prefetch::BatchPrefetcher;
use crate::version_range::VersionRange;

verus! {

/// The index and metadata facts about the prebuilt wheel a candidate would
/// be fetched through.
pub struct WheelMeta {
    /// The index serves a metadata sidecar for this wheel.
    pub dist_info_metadata: bool,
    /// The index this wheel is served from.
    pub index: u64,
}

/// What kind of distribution a candidate resolves to, with the interpreter
/// constraint its file declares.
pub enum DistKind {
    /// Already installed; interpreter checks are bypassed.
    Installed,
    /// A source fallback: it must satisfy both the installed and the target
    /// interpreter.
    Source { requires_python: Option<VersionRange> },
    /// A prebuilt wheel: it must satisfy the target interpreter.
    Wheel { requires_python: Option<VersionRange> },
}

/// The distribution a candidate version resolves to for this environment.
pub struct DistInfo {
    /// The prebuilt wheel metadata would be fetched through; `None` for a
    /// candidate that only builds from source, which is never prefetched.
    pub wheel: Option<WheelMeta>,
    pub kind: DistKind,
}

/// One version in a package's version map.
pub struct VersionCandidate {
    pub version: u64,
    /// The globally unique identifier used for fetch deduplication.
    pub version_id: u64,
    /// `None` when no compatible distribution exists for this environment.
    pub dist: Option<DistInfo>,
}

/// Whether a candidate sequence is sorted by strictly increasing version.
pub open spec fn sorted_by_version(map: Seq<VersionCandidate>) -> bool {
    forall|i: int, j: int| 0 <= i < j < map.len() ==> map[i].version < map[j].version
}

/// A package's version map: its known versions in increasing order, each
/// with the distribution it resolves to.
pub struct VersionMap {
    candidates: Vec<VersionCandidate>,
}

impl View for VersionMap {
    type V = Seq<VersionCandidate>;

    closed spec fn view(&self) -> Seq<VersionCandidate> {
        self.candidates@
    }
}

impl VersionMap {
    pub open spec fn wf(self) -> bool {
        sorted_by_version(self@)
    }

    pub fn new() -> (r: Self)
        ensures
            r@.len() == 0,
            r.wf(),
    {
        VersionMap { candidates: Vec::new() }
    }

    /// Append a version above all versions already held.
    pub fn push_candidate(&mut self, c: VersionCandidate)
        requires
            old(self).wf(),
            old(self)@.len() > 0 ==> c.version > old(self)@.last().version,
        ensures
            final(self)@ == old(self)@.push(c),
            final(self).wf(),
    {
        self.candidates.push(c);
        proof {
            assert forall|i: int, j: int| 0 <= i < j < self@.len() implies self@[i].version
                < self@[j].version by {
                if j + 1 < self@.len() {
                } else {
                    if i < old(self)@.len() - 1 {
                        assert(old(self)@[i].version < old(self)@.last().version);
                    }
                }
            }
        }
    }

    pub fn len(&self) -> (r: usize)
        ensures
            r == self@.len(),
    {
        self.candidates.len()
    }

    pub fn get(&self, i: usize) -> (r: &VersionCandidate)
        requires
            i < self@.len(),
        ensures
            *r == self@[i as int],
    {
        &self.candidates[i]
    }
}

/// The interpreter requirement prefetched candidates are gated on: the
/// versions the installed interpreter spans, and those the resolution
/// targets.
pub struct PythonRequirement {
    pub installed: VersionRange,
    pub target: VersionRange,
}

/// Which indexes are known to answer HTTP range requests on artifacts.
pub struct IndexCapabilities {
    range_request_indexes: Vec<u64>,
}

impl View for IndexCapabilities {
    type V = Set<u64>;

    closed spec fn view(&self) -> Set<u64> {
        self.range_request_indexes@.to_set()
    }
}

impl IndexCapabilities {
    pub fn new() -> (r: Self)
        ensures
            r@ == Set::<u64>::empty(),
    {
        let caps = IndexCapabilities { range_request_indexes: Vec::new() };
        proof {
            assert(caps@ =~= Set::<u64>::empty());
        }
        caps
    }

    /// Record that an index answers range requests.
    pub fn mark_range_requests(&mut self, index: u64)
        ensures
            final(self)@ == old(self)@.insert(index),
    {
        let ghost prev = self.range_request_indexes@;
        self.range_request_indexes.push(index);
        proof {
            assert forall|a: u64| self@.contains(a) <==> old(self)@.insert(index).contains(a) by {
                lemma_contains_after_push(prev, index, a);
            }
            assert(self@ =~= old(self)@.insert(index));
        }
    }

    /// Whether this index answers range requests.
    pub fn supports_range_requests(&self, index: u64) -> (r: bool)
        ensures
            r == self@.contains(index),
    {
        let n = self.range_request_indexes.len();
        for i in 0..n
            invariant
                n == self.range_request_indexes@.len(),
                forall|j: int| 0 <= j < i ==> self.range_request_indexes@[j] != index,
        {
            if self.range_request_indexes[i] == index {
                return true;
            }
        }
        proof {
            assert(!self.range_request_indexes@.contains(index));
        }
        false
    }
}

/// Membership in a pushed sequence: the new element, or an old member.
proof fn lemma_contains_after_push(s: Seq<u64>, v: u64, a: u64)
    ensures
        s.push(v).contains(a) <==> (s.contains(a) || a == v),
{
    if s.contains(a) {
        let i = choose|i: int| 0 <= i < s.len() && s[i] == a;
        assert(s.push(v)[i] == a);
    }
    if a == v {
        assert(s.push(v)[s.len() as int] == a);
    }
    if s.push(v).contains(a) {
        let i = choose|i: int| 0 <= i < s.push(v).len() && s.push(v)[i] == a;
        if i < s.len() {
            assert(s[i] == a);
        }
    }
}

/// The shared registration set of version identifiers whose metadata fetch
/// is already done or in flight.
pub struct DistributionRegistry {
    seen: Vec<u64>,
}

impl View for DistributionRegistry {
    type V = Set<u64>;

    closed spec fn view(&self) -> Set<u64> {
        self.seen@.to_set()
    }
}

impl DistributionRegistry {
    pub fn new() -> (r: Self)
        ensures
            r@ == Set::<u64>::empty(),
    {
        let reg = DistributionRegistry { seen: Vec::new() };
        proof {
            assert(reg@ =~= Set::<u64>::empty());
        }
        reg
    }

    /// Register a version identifier. Returns true iff this call performed
    /// the insertion, so exactly one caller ever dispatches a fetch for it.
    pub fn register(&mut self, version_id: u64) -> (r: bool)
        ensures
            r == !old(self)@.contains(version_id),
            final(self)@ == old(self)@.insert(version_id),
    {
        let n = self.seen.len();
        for i in 0..n
            invariant
                n == self.seen@.len(),
                forall|j: int| 0 <= j < i ==> self.seen@[j] != version_id,
        {
            if self.seen[i] == version_id {
                proof {
                    assert(self.seen@.contains(version_id));
                    assert(self@ =~= self@.insert(version_id));
                }
                return false;
            }
        }
        proof {
            assert(!self.seen@.contains(version_id));
        }
        let ghost prev = self.seen@;
        self.seen.push(version_id);
        proof {
            assert forall|a: u64| self@.contains(a) <==> old(self)@.insert(version_id).contains(
                a,
            ) by {
                lemma_contains_after_push(prev, version_id, a);
            }
            assert(self@ =~= old(self)@.insert(version_id));
        }
        true
    }
}

/// A root-level constraint term the in-order walk must not leave: a positive
/// term bounds it to the term's range, a negative term to its complement.
pub enum ConstraintTerm {
    Positive(VersionRange),
    Negative(VersionRange),
}

/// The value behind an optional constraint-term reference.
pub open spec fn constraint_view(c: Option<&ConstraintTerm>) -> Option<ConstraintTerm> {
    match c {
        Some(t) => Some(*t),
        None => None,
    }
}

/// One metadata-fetch work item for the background fetch pool.
#[derive(Clone, Copy, PartialEq, Eq, Structural, Debug)]
pub struct FetchRequest {
    pub version: u64,
    pub version_id: u64,
}

/// The two walk phases of one burst: within the compatible range as long as
/// it yields candidates, then in plain version order from the last version.
enum PrefetchPhase {
    Compatible { compatible: VersionRange, previous: u64 },
    InOrder { previous: u64 },
}

/// The mathematical state of a walk phase.
pub ghost enum PhaseView {
    Compatible { compatible: Set<u64>, previous: u64 },
    InOrder { previous: u64 },
}

spec fn phase_view(p: PrefetchPhase) -> PhaseView {
    match p {
        PrefetchPhase::Compatible { compatible, previous } => PhaseView::Compatible {
            compatible: compatible@,
            previous,
        },
        PrefetchPhase::InOrder { previous } => PhaseView::InOrder { previous },
    }
}

/// The index of the highest-position candidate below `n` whose version the
/// range holds.
pub open spec fn highest_match(map: Seq<VersionCandidate>, range: Set<u64>, n: int) -> Option<int>
    decreases n,
{
    if n <= 0 {
        None
    } else if range.contains(map[n - 1].version) {
        Some(n - 1)
    } else {
        highest_match(map, range, n - 1)
    }
}

/// The index of the lowest-position candidate from `i` on whose version the
/// range holds.
pub open spec fn lowest_match(map: Seq<VersionCandidate>, range: Set<u64>, i: int) -> Option<int>
    decreases map.len() - i,
{
    if i < 0 || i >= map.len() {
        None
    } else if range.contains(map[i].version) {
        Some(i)
    } else {
        lowest_match(map, range, i + 1)
    }
}

/// What the candidate selector picks from the map under a range: the best
/// version the range holds, by the direction policy.
pub open spec fn select_spec(map: Seq<VersionCandidate>, range: Set<u64>, use_highest: bool) -> Option<int> {
    if use_highest {
        highest_match(map, range, map.len() as int)
    } else {
        lowest_match(map, range, 0)
    }
}

/// The range the in-order walk asks about next: strictly beyond the previous
/// version in the walk direction, cut down by the unchangeable constraints.
pub open spec fn in_order_query(
    previous: u64,
    use_highest: bool,
    constraint: Option<ConstraintTerm>,
) -> Set<u64> {
    let base = if use_highest {
        Set::new(|u: u64| u < previous)
    } else {
        Set::new(|u: u64| u > previous)
    };
    match constraint {
        None => base,
        Some(ConstraintTerm::Positive(r)) => base.intersect(r@),
        Some(ConstraintTerm::Negative(r)) => base.intersect(r@.complement()),
    }
}

/// Whether a candidate's distribution satisfies the interpreter gates.
pub open spec fn passes_python(kind: DistKind, py: PythonRequirement) -> bool {
    match kind {
        DistKind::Installed => true,
        DistKind::Source { requires_python } => match requires_python {
            None => true,
            Some(rp) => py.installed.subsumed_by(rp) && py.target.subsumed_by(rp),
        },
        DistKind::Wheel { requires_python } => match requires_python {
            None => true,
            Some(rp) => py.target.subsumed_by(rp),
        },
    }
}

/// The gates that do not depend on burst state: a compatible distribution
/// exists, it has a prebuilt wheel, the wheel's index serves metadata
/// sidecars or range requests, and the interpreter gates hold.
pub open spec fn passes_fixed_gates(c: VersionCandidate, caps: Set<u64>, py: PythonRequirement) -> bool {
    c.dist matches Some(d) && (d.wheel matches Some(w) && (w.dist_info_metadata || caps.contains(
        w.index,
    )) && passes_python(d.kind, py))
}

/// What the dispatcher does with one candidate.
pub ghost enum GateDecision {
    /// Pass it over and go on with the burst.
    Skip,
    /// Give up the whole burst: the index would force full downloads.
    Abort,
    /// Dispatch one fetch and register the version identifier.
    Dispatch,
}

/// The dispatcher's decision for one candidate, in gate order: distribution
/// kind, index capability, interpreter compatibility, deduplication.
pub open spec fn gate_decision(
    c: VersionCandidate,
    caps: Set<u64>,
    py: PythonRequirement,
    registered: Set<u64>,
) -> GateDecision {
    match c.dist {
        None => GateDecision::Skip,
        Some(d) => match d.wheel {
            None => GateDecision::Skip,
            Some(w) => if !(w.dist_info_metadata || caps.contains(w.index)) {
                GateDecision::Abort
            } else if !passes_python(d.kind, py) {
                GateDecision::Skip
            } else if registered.contains(c.version_id) {
                GateDecision::Skip
            } else {
                GateDecision::Dispatch
            },
        },
    }
}

/// What one walk step yields.
pub ghost enum StepChoice {
    /// The compatible range is exhausted; go on in version order.
    SwitchToInOrder { previous: u64 },
    /// Both phases are exhausted; the burst ends.
    Stop,
    /// A candidate, with the phase state after taking it.
    Candidate { i: int, next: PhaseView },
}

/// One walk step: what the selector yields for the current phase, and the
/// phase state after it.
pub open spec fn step_choice(
    map: Seq<VersionCandidate>,
    phase: PhaseView,
    use_highest: bool,
    constraint: Option<ConstraintTerm>,
) -> StepChoice {
    match phase {
        PhaseView::Compatible { compatible, previous } => match select_spec(
            map,
            compatible,
            use_highest,
        ) {
            None => StepChoice::SwitchToInOrder { previous },
            Some(i) => StepChoice::Candidate {
                i,
                next: PhaseView::Compatible {
                    compatible: compatible.remove(map[i].version),
                    previous: map[i].version,
                },
            },
        },
        PhaseView::InOrder { previous } => match select_spec(
            map,
            in_order_query(previous, use_highest, constraint),
            use_highest,
        ) {
            None => StepChoice::Stop,
            Some(i) => StepChoice::Candidate { i, next: PhaseView::InOrder { previous: map[i].version } },
        },
    }
}

/// What one burst yields: the dispatched requests in order, whether it was
/// aborted for missing index capabilities, and the registration set after it.
pub ghost struct BurstOut {
    pub reqs: Seq<FetchRequest>,
    pub aborted: bool,
    pub registered: Set<u64>,
}

/// The whole burst, as a function of the version map, the starting phase,
/// the direction policy, the constraints, the capabilities, the interpreter
/// requirement, the registration set, and the remaining step budget.
pub open spec fn burst_spec(
    map: Seq<VersionCandidate>,
    phase: PhaseView,
    use_highest: bool,
    constraint: Option<ConstraintTerm>,
    caps: Set<u64>,
    py: PythonRequirement,
    registered: Set<u64>,
    fuel: nat,
) -> BurstOut
    decreases fuel,
{
    if fuel == 0 {
        BurstOut { reqs: Seq::empty(), aborted: false, registered }
    } else {
        match step_choice(map, phase, use_highest, constraint) {
            StepChoice::SwitchToInOrder { previous } => burst_spec(
                map,
                PhaseView::InOrder { previous },
                use_highest,
                constraint,
                caps,
                py,
                registered,
                (fuel - 1) as nat,
            ),
            StepChoice::Stop => BurstOut { reqs: Seq::empty(), aborted: false, registered },
            StepChoice::Candidate { i, next } => {
                let c = map[i];
                match gate_decision(c, caps, py, registered) {
                    GateDecision::Abort => BurstOut {
                        reqs: Seq::empty(),
                        aborted: true,
                        registered,
                    },
                    GateDecision::Skip => burst_spec(
                        map,
                        next,
                        use_highest,
                        constraint,
                        caps,
                        py,
                        registered,
                        (fuel - 1) as nat,
                    ),
                    GateDecision::Dispatch => {
                        let rest = burst_spec(
                            map,
                            next,
                            use_highest,
                            constraint,
                            caps,
                            py,
                            registered.insert(c.version_id),
                            (fuel - 1) as nat,
                        );
                        BurstOut {
                            reqs: seq![
                                FetchRequest { version: c.version, version_id: c.version_id },
                            ] + rest.reqs,
                            aborted: rest.aborted,
                            registered: rest.registered,
                        }
                    },
                }
            },
        }
    }
}

/// Pick the best candidate in the map whose version the range holds:
/// the highest under a highest-version policy, else the lowest.
fn select_candidate(map: &VersionMap, range: &VersionRange, use_highest: bool) -> (r: Option<
    usize,
>)
    ensures
        match r {
            Some(ix) => select_spec(map@, range@, use_highest) == Some(ix as int) && ix
                < map@.len(),
            None => select_spec(map@, range@, use_highest) is None,
        },
{
    let len = map.len();
    if use_highest {
        let mut n = len;
        while n > 0
            invariant
                use_highest,
                n <= len,
                len == map@.len(),
                highest_match(map@, range@, len as int) == highest_match(map@, range@, n as int),
            decreases n,
        {
            if range.contains(map.get(n - 1).version) {
                return Some(n - 1);
            }
            n = n - 1;
        }
        None
    } else {
        let mut i: usize = 0;
        while i < len
            invariant
                !use_highest,
                i <= len,
                len == map@.len(),
                lowest_match(map@, range@, 0) == lowest_match(map@, range@, i as int),
            decreases len - i,
        {
            if range.contains(map.get(i).version) {
                return Some(i);
            }
            i = i + 1;
        }
        None
    }
}

/// Whether the distribution satisfies the interpreter gates: a source
/// fallback must suit both the installed and the target interpreter, a wheel
/// the target one, and a pre-installed distribution passes outright.
fn python_compatible(dist: &DistInfo, py: &PythonRequirement) -> (r: bool)
    ensures
        r == passes_python(dist.kind, *py),
{
    match &dist.kind {
        DistKind::Installed => true,
        DistKind::Source { requires_python } => match requires_python {
            None => true,
            Some(rp) => py.installed.subset_of(rp) && py.target.subset_of(rp),
        },
        DistKind::Wheel { requires_python } => match requires_python {
            None => true,
            Some(rp) => py.target.subset_of(rp),
        },
    }
}

/// The range the in-order walk asks about next.
fn in_order_range(previous: u64, use_highest: bool, constraint: Option<&ConstraintTerm>) -> (r:
    VersionRange)
    ensures
        r@ == in_order_query(previous, use_highest, constraint_view(constraint)),
{
    let base = if use_highest {
        VersionRange::strictly_lower_than(previous)
    } else {
        VersionRange::strictly_higher_than(previous)
    };
    match constraint {
        None => base,
        Some(ConstraintTerm::Positive(c)) => base.intersection(c),
        Some(ConstraintTerm::Negative(c)) => base.intersection(&c.complement()),
    }
}

/// What one burst returned to the caller: the requests to submit, and
/// whether the burst was aborted (in which case nothing was committed).
pub struct BurstOutcome {
    pub requests: Vec<FetchRequest>,
    pub aborted: bool,
}

impl BatchPrefetcher {
    /// Run one prefetch burst for the package with handle `id`, after the
    /// resolver chose `version` within `current_range` and `should_prefetch`
    /// reported `num_tried` tried versions. Walks up to `min(num_tried, 50)`
    /// candidates, dispatches a request for each that passes every gate and
    /// was not yet registered, and commits the burst at `num_tried` — unless
    /// an index without metadata sidecars or range requests aborts it, in
    /// which case nothing is committed.
    pub fn prefetch_batches(
        &mut self,
        id: usize,
        num_tried: usize,
        version: u64,
        current_range: &VersionRange,
        unchangeable_constraints: Option<&ConstraintTerm>,
        python_requirement: &PythonRequirement,
        version_map: &VersionMap,
        capabilities: &IndexCapabilities,
        use_highest: bool,
        registry: &mut DistributionRegistry,
    ) -> (r: BurstOutcome)
        requires
            old(self).wf(),
            id < usize::MAX,
            num_tried <= old(self).tried_of(id),
        ensures
            final(self).wf(),
            ({
                let out = burst_spec(
                    version_map@,
                    PhaseView::Compatible { compatible: current_range@, previous: version },
                    use_highest,
                    constraint_view(unchangeable_constraints),
                    capabilities@,
                    *python_requirement,
                    old(registry)@,
                    (if num_tried < 50 {
                        num_tried
                    } else {
                        50
                    }) as nat,
                );
                &&& r.requests@ == out.reqs
                &&& r.aborted == out.aborted
                &&& final(registry)@ == out.registered
            }),
            r.requests@.len() <= num_tried && r.requests@.len() <= 50,
            !r.aborted ==> final(self).last_of(id) == num_tried,
            r.aborted ==> *final(self) == *old(self),
            forall|k: usize| k != id ==> #[trigger] final(self).last_of(k) == old(self).last_of(k),
            forall|k: usize| #[trigger] final(self).tried_of(k) == old(self).tried_of(k),
    {
        let total_prefetch: usize = if num_tried < 50 {
            num_tried
        } else {
            50
        };
        let ghost cview = constraint_view(unchangeable_constraints);
        let ghost init_phase = PhaseView::Compatible {
            compatible: current_range@,
            previous: version,
        };
        let ghost full = burst_spec(
            version_map@,
            init_phase,
            use_highest,
            cview,
            capabilities@,
            *python_requirement,
            registry@,
            total_prefetch as nat,
        );
        let mut phase = PrefetchPhase::Compatible {
            compatible: current_range.duplicate(),
            previous: version,
        };
        let mut requests: Vec<FetchRequest> = Vec::new();
        let mut i: usize = 0;
        while i < total_prefetch
            invariant_except_break
                i <= total_prefetch,
                requests@.len() <= i,
                cview == constraint_view(unchangeable_constraints),
                total_prefetch == (if num_tried < 50 {
                    num_tried
                } else {
                    50
                }),
                full == burst_spec(
                    version_map@,
                    PhaseView::Compatible { compatible: current_range@, previous: version },
                    use_highest,
                    cview,
                    capabilities@,
                    *python_requirement,
                    old(registry)@,
                    total_prefetch as nat,
                ),
                old(self).wf(),
                *self == *old(self),
                full == burst_extend(
                    requests@,
                    burst_spec(
                        version_map@,
                        phase_view(phase),
                        use_highest,
                        cview,
                        capabilities@,
                        *python_requirement,
                        registry@,
                        (total_prefetch - i) as nat,
                    ),
                ),
            ensures
                full.reqs == requests@,
                full.aborted == false,
                full.registered == registry@,
                requests@.len() <= total_prefetch,
                *self == *old(self),
            decreases total_prefetch - i,
        {
            let ghost pv0 = phase_view(phase);
            let ghost reg0 = registry@;
            let ghost req0 = requests@;
            let ghost fuel = (total_prefetch - i) as nat;
            let candidate_ix: usize;
            match phase {
                PrefetchPhase::Compatible { compatible, previous } => {
                    match select_candidate(version_map, &compatible, use_highest) {
                        Some(ix) => {
                            let picked = version_map.get(ix).version;
                            let narrowed = compatible.intersection(
                                &VersionRange::singleton(picked).complement(),
                            );
                            proof {
                                assert(narrowed@ =~= compatible@.remove(picked));
                            }
                            phase = PrefetchPhase::Compatible {
                                compatible: narrowed,
                                previous: picked,
                            };
                            candidate_ix = ix;
                            proof {
                                assert(step_choice(version_map@, pv0, use_highest, cview)
                                    == StepChoice::Candidate {
                                    i: ix as int,
                                    next: phase_view(phase),
                                });
                            }
                        },
                        None => {
                            phase = PrefetchPhase::InOrder { previous };
                            proof {
                                assert(step_choice(version_map@, pv0, use_highest, cview)
                                    == StepChoice::SwitchToInOrder { previous });
                                assert(burst_spec(
                                    version_map@,
                                    pv0,
                                    use_highest,
                                    cview,
                                    capabilities@,
                                    *python_requirement,
                                    reg0,
                                    fuel,
                                ) == burst_spec(
                                    version_map@,
                                    phase_view(phase),
                                    use_highest,
                                    cview,
                                    capabilities@,
                                    *python_requirement,
                                    reg0,
                                    (fuel - 1) as nat,
                                ));
                            }
                            i = i + 1;
                            continue ;
                        },
                    }
                },
                PrefetchPhase::InOrder { previous } => {
                    let query = in_order_range(previous, use_highest, unchangeable_constraints);
                    match select_candidate(version_map, &query, use_highest) {
                        Some(ix) => {
                            phase = PrefetchPhase::InOrder {
                                previous: version_map.get(ix).version,
                            };
                            candidate_ix = ix;
                            proof {
                                assert(step_choice(version_map@, pv0, use_highest, cview)
                                    == StepChoice::Candidate {
                                    i: ix as int,
                                    next: phase_view(phase),
                                });
                            }
                        },
                        None => {
                            proof {
                                assert(step_choice(version_map@, pv0, use_highest, cview)
                                    == StepChoice::Stop);
                                assert(burst_spec(
                                    version_map@,
                                    pv0,
                                    use_highest,
                                    cview,
                                    capabilities@,
                                    *python_requirement,
                                    reg0,
                                    fuel,
                                ) == BurstOut {
                                    reqs: Seq::<FetchRequest>::empty(),
                                    aborted: false,
                                    registered: reg0,
                                });
                                assert(req0 + Seq::<FetchRequest>::empty() =~= req0);
                            }
                            break ;
                        },
                    }
                },
            }
            let candidate = version_map.get(candidate_ix);
            let ghost c = version_map@[candidate_ix as int];
            let ghost gate = gate_decision(c, capabilities@, *python_requirement, reg0);
            match &candidate.dist {
                None => {
                    proof {
                        assert(gate is Skip);
                    }
                },
                Some(dist) => {
                    match &dist.wheel {
                        None => {
                            proof {
                                assert(gate is Skip);
                            }
                        },
                        Some(wheel) => {
                            if !(wheel.dist_info_metadata || capabilities.supports_range_requests(
                                wheel.index,
                            )) {
                                proof {
                                    assert(gate is Abort);
                                    assert(burst_spec(
                                        version_map@,
                                        pv0,
                                        use_highest,
                                        cview,
                                        capabilities@,
                                        *python_requirement,
                                        reg0,
                                        fuel,
                                    ) == BurstOut {
                                        reqs: Seq::<FetchRequest>::empty(),
                                        aborted: true,
                                        registered: reg0,
                                    });
                                    assert(req0 + Seq::<FetchRequest>::empty() =~= req0);
                                }
                                return BurstOutcome { requests, aborted: true };
                            }
                            if python_compatible(dist, python_requirement) {
                                if registry.register(candidate.version_id) {
                                    requests.push(
                                        FetchRequest {
                                            version: candidate.version,
                                            version_id: candidate.version_id,
                                        },
                                    );
                                    proof {
                                        assert(gate is Dispatch);
                                        assert(registry@ == reg0.insert(c.version_id));
                                    }
                                } else {
                                    proof {
                                        assert(gate is Skip);
                                        assert(reg0.insert(c.version_id) =~= reg0);
                                    }
                                }
                            } else {
                                proof {
                                    assert(gate is Skip);
                                }
                            }
                        },
                    }
                },
            }
            i = i + 1;
            proof {
                let next_pv = phase_view(phase);
                let rest = burst_spec(
                    version_map@,
                    next_pv,
                    use_highest,
                    cview,
                    capabilities@,
                    *python_requirement,
                    registry@,
                    (fuel - 1) as nat,
                );
                if gate is Dispatch {
                    let req = FetchRequest { version: c.version, version_id: c.version_id };
                    assert(burst_spec(
                        version_map@,
                        pv0,
                        use_highest,
                        cview,
                        capabilities@,
                        *python_requirement,
                        reg0,
                        fuel,
                    ) == BurstOut {
                        reqs: seq![req] + rest.reqs,
                        aborted: rest.aborted,
                        registered: rest.registered,
                    });
                    assert(requests@ == req0.push(req));
                    assert(req0 + (seq![req] + rest.reqs) =~= requests@ + rest.reqs);
                } else {
                    assert(registry@ == reg0);
                    assert(burst_spec(
                        version_map@,
                        pv0,
                        use_highest,
                        cview,
                        capabilities@,
                        *python_requirement,
                        reg0,
                        fuel,
                    ) == rest);
                }
            }
        }
        self.commit_prefetch(id, num_tried);
        BurstOutcome { requests, aborted: false }
    }
}

/// A burst outcome with a prefix of already-dispatched requests in front.
pub open spec fn burst_extend(prefix: Seq<FetchRequest>, rest: BurstOut) -> BurstOut {
    BurstOut { reqs: prefix + rest.reqs, aborted: rest.aborted, registered: rest.registered }
}

/// A selected index lies inside the map.
proof fn lemma_highest_match_in_range(map: Seq<VersionCandidate>, range: Set<u64>, n: int)
    requires
        n <= map.len(),
    ensures
        highest_match(map, range, n) matches Some(i) ==> 0 <= i < map.len(),
    decreases n,
{
    if n > 0 && !range.contains(map[n - 1].version) {
        lemma_highest_match_in_range(map, range, n - 1);
    }
}

/// A selected index lies inside the map.
proof fn lemma_lowest_match_in_range(map: Seq<VersionCandidate>, range: Set<u64>, i: int)
    ensures
        lowest_match(map, range, i) matches Some(j) ==> 0 <= j < map.len(),
    decreases map.len() - i,
{
    if 0 <= i < map.len() && !range.contains(map[i].version) {
        lemma_lowest_match_in_range(map, range, i + 1);
    }
}

/// A selected index lies inside the map.
proof fn lemma_select_in_range(map: Seq<VersionCandidate>, range: Set<u64>, use_highest: bool)
    ensures
        select_spec(map, range, use_highest) matches Some(i) ==> 0 <= i < map.len(),
{
    lemma_highest_match_in_range(map, range, map.len() as int);
    lemma_lowest_match_in_range(map, range, 0);
}

/// On a sorted map the walk from the top picks the highest version the range
/// holds among the first `n` candidates, and misses only when none matches.
proof fn lemma_highest_best(map: Seq<VersionCandidate>, range: Set<u64>, n: int)
    requires
        sorted_by_version(map),
        n <= map.len(),
    ensures
        highest_match(map, range, n) matches Some(i) ==> 0 <= i < n && range.contains(
            map[i].version,
        ) && forall|j: int|
            0 <= j < n && range.contains((#[trigger] map[j]).version) ==> map[j].version
                <= map[i].version,
        highest_match(map, range, n) is None ==> forall|j: int|
            0 <= j < n ==> !range.contains((#[trigger] map[j]).version),
    decreases n,
{
    if n > 0 && !range.contains(map[n - 1].version) {
        lemma_highest_best(map, range, n - 1);
    }
}

/// On a sorted map the walk from the bottom picks the lowest version the
/// range holds from position `i` on, and misses only when none matches.
proof fn lemma_lowest_best(map: Seq<VersionCandidate>, range: Set<u64>, i: int)
    requires
        sorted_by_version(map),
        0 <= i,
    ensures
        lowest_match(map, range, i) matches Some(k) ==> i <= k < map.len() && range.contains(
            map[k].version,
        ) && forall|j: int|
            i <= j < map.len() && range.contains((#[trigger] map[j]).version) ==> map[j].version
                >= map[k].version,
        lowest_match(map, range, i) is None ==> forall|j: int|
            i <= j < map.len() ==> !range.contains((#[trigger] map[j]).version),
    decreases map.len() - i,
{
    if 0 <= i < map.len() && !range.contains(map[i].version) {
        lemma_lowest_best(map, range, i + 1);
    }
}

/// On a sorted map the selector picks the best version the range holds —
/// the highest under a highest-version policy, else the lowest — and comes
/// back empty only when the range holds no version of the map.
pub proof fn lemma_select_picks_best(
    map: Seq<VersionCandidate>,
    range: Set<u64>,
    use_highest: bool,
)
    requires
        sorted_by_version(map),
    ensures
        select_spec(map, range, use_highest) matches Some(i) ==> 0 <= i < map.len()
            && range.contains(map[i].version) && forall|j: int|
            0 <= j < map.len() && range.contains((#[trigger] map[j]).version) ==> (if use_highest {
                map[j].version <= map[i].version
            } else {
                map[j].version >= map[i].version
            }),
        select_spec(map, range, use_highest) is None ==> forall|j: int|
            0 <= j < map.len() ==> !range.contains((#[trigger] map[j]).version),
{
    if use_highest {
        lemma_highest_best(map, range, map.len() as int);
    } else {
        lemma_lowest_best(map, range, 0);
    }
}

/// A burst dispatches at most as many requests as its step budget allows.
pub proof fn lemma_burst_bounded(
    map: Seq<VersionCandidate>,
    phase: PhaseView,
    use_highest: bool,
    constraint: Option<ConstraintTerm>,
    caps: Set<u64>,
    py: PythonRequirement,
    registered: Set<u64>,
    fuel: nat,
)
    ensures
        burst_spec(map, phase, use_highest, constraint, caps, py, registered, fuel).reqs.len()
            <= fuel,
    decreases fuel,
{
    if fuel > 0 {
        match step_choice(map, phase, use_highest, constraint) {
            StepChoice::SwitchToInOrder { previous } => {
                lemma_burst_bounded(
                    map,
                    PhaseView::InOrder { previous },
                    use_highest,
                    constraint,
                    caps,
                    py,
                    registered,
                    (fuel - 1) as nat,
                );
            },
            StepChoice::Stop => {},
            StepChoice::Candidate { i, next } => {
                match gate_decision(map[i], caps, py, registered) {
                    GateDecision::Abort => {},
                    GateDecision::Skip => {
                        lemma_burst_bounded(
                            map,
                            next,
                            use_highest,
                            constraint,
                            caps,
                            py,
                            registered,
                            (fuel - 1) as nat,
                        );
                    },
                    GateDecision::Dispatch => {
                        lemma_burst_bounded(
                            map,
                            next,
                            use_highest,
                            constraint,
                            caps,
                            py,
                            registered.insert(map[i].version_id),
                            (fuel - 1) as nat,
                        );
                    },
                }
            },
        }
    }
}

/// A burst only ever adds to the registration set.
pub proof fn lemma_burst_registered_monotone(
    map: Seq<VersionCandidate>,
    phase: PhaseView,
    use_highest: bool,
    constraint: Option<ConstraintTerm>,
    caps: Set<u64>,
    py: PythonRequirement,
    registered: Set<u64>,
    fuel: nat,
)
    ensures
        registered.subset_of(
            burst_spec(map, phase, use_highest, constraint, caps, py, registered, fuel).registered,
        ),
    decreases fuel,
{
    if fuel > 0 {
        match step_choice(map, phase, use_highest, constraint) {
            StepChoice::SwitchToInOrder { previous } => {
                lemma_burst_registered_monotone(
                    map,
                    PhaseView::InOrder { previous },
                    use_highest,
                    constraint,
                    caps,
                    py,
                    registered,
                    (fuel - 1) as nat,
                );
            },
            StepChoice::Stop => {},
            StepChoice::Candidate { i, next } => {
                match gate_decision(map[i], caps, py, registered) {
                    GateDecision::Abort => {},
                    GateDecision::Skip => {
                        lemma_burst_registered_monotone(
                            map,
                            next,
                            use_highest,
                            constraint,
                            caps,
                            py,
                            registered,
                            (fuel - 1) as nat,
                        );
                    },
                    GateDecision::Dispatch => {
                        lemma_burst_registered_monotone(
                            map,
                            next,
                            use_highest,
                            constraint,
                            caps,
                            py,
                            registered.insert(map[i].version_id),
                            (fuel - 1) as nat,
                        );
                    },
                }
            },
        }
    }
}

/// The request names a candidate of the map that passes the fixed gates:
/// it has a compatible distribution with a prebuilt wheel, a capable index,
/// and a suitable interpreter.
pub open spec fn request_from_gated_candidate(
    map: Seq<VersionCandidate>,
    caps: Set<u64>,
    py: PythonRequirement,
    r: FetchRequest,
) -> bool {
    exists|i: int|
        0 <= i < map.len() && (#[trigger] map[i]).version == r.version && map[i].version_id
            == r.version_id && passes_fixed_gates(map[i], caps, py)
}

/// Every dispatched request passes every gate: it names a candidate of the
/// map with a compatible distribution, a prebuilt wheel, a capable index and
/// a suitable interpreter; its identifier was not registered when the burst
/// began; and no identifier is dispatched twice. Afterwards the registration
/// set holds exactly what it held before plus the dispatched identifiers.
pub proof fn lemma_burst_requests_gated(
    map: Seq<VersionCandidate>,
    phase: PhaseView,
    use_highest: bool,
    constraint: Option<ConstraintTerm>,
    caps: Set<u64>,
    py: PythonRequirement,
    registered: Set<u64>,
    fuel: nat,
)
    ensures
        ({
            let out = burst_spec(map, phase, use_highest, constraint, caps, py, registered, fuel);
            &&& forall|j: int|
                0 <= j < out.reqs.len() ==> request_from_gated_candidate(
                    map,
                    caps,
                    py,
                    #[trigger] out.reqs[j],
                )
            &&& forall|j: int|
                0 <= j < out.reqs.len() ==> !registered.contains(
                    (#[trigger] out.reqs[j]).version_id,
                )
            &&& forall|j1: int, j2: int|
                0 <= j1 < j2 < out.reqs.len() ==> (#[trigger] out.reqs[j1]).version_id != (
                #[trigger] out.reqs[j2]).version_id
            &&& forall|v: u64|
                out.registered.contains(v) <==> registered.contains(v) || exists|j: int|
                    0 <= j < out.reqs.len() && (#[trigger] out.reqs[j]).version_id == v
        }),
    decreases fuel,
{
    let out = burst_spec(map, phase, use_highest, constraint, caps, py, registered, fuel);
    if fuel > 0 {
        match step_choice(map, phase, use_highest, constraint) {
            StepChoice::SwitchToInOrder { previous } => {
                lemma_burst_requests_gated(
                    map,
                    PhaseView::InOrder { previous },
                    use_highest,
                    constraint,
                    caps,
                    py,
                    registered,
                    (fuel - 1) as nat,
                );
                let rest = burst_spec(
                    map,
                    PhaseView::InOrder { previous },
                    use_highest,
                    constraint,
                    caps,
                    py,
                    registered,
                    (fuel - 1) as nat,
                );
                assert(out == rest);
                assert forall|j: int| 0 <= j < out.reqs.len() implies
                    request_from_gated_candidate(map, caps, py, #[trigger] out.reqs[j]) by {
                    assert(request_from_gated_candidate(map, caps, py, rest.reqs[j]));
                }
            },
            StepChoice::Stop => {
                assert(out.reqs.len() == 0);
            },
            StepChoice::Candidate { i, next } => {
                let c = map[i];
                match phase {
                    PhaseView::Compatible { compatible, previous } => {
                        lemma_select_in_range(map, compatible, use_highest);
                    },
                    PhaseView::InOrder { previous } => {
                        lemma_select_in_range(
                            map,
                            in_order_query(previous, use_highest, constraint),
                            use_highest,
                        );
                    },
                }
                assert(0 <= i < map.len());
                match gate_decision(c, caps, py, registered) {
                    GateDecision::Abort => {
                        assert(out.reqs.len() == 0);
                    },
                    GateDecision::Skip => {
                        lemma_burst_requests_gated(
                            map,
                            next,
                            use_highest,
                            constraint,
                            caps,
                            py,
                            registered,
                            (fuel - 1) as nat,
                        );
                        let rest = burst_spec(
                            map,
                            next,
                            use_highest,
                            constraint,
                            caps,
                            py,
                            registered,
                            (fuel - 1) as nat,
                        );
                        assert(out == rest);
                        assert forall|j: int| 0 <= j < out.reqs.len() implies
                            request_from_gated_candidate(map, caps, py, #[trigger] out.reqs[j]) by {
                            assert(request_from_gated_candidate(map, caps, py, rest.reqs[j]));
                        }
                    },
                    GateDecision::Dispatch => {
                        let vid = c.version_id;
                        let inserted = registered.insert(vid);
                        let rest = burst_spec(
                            map,
                            next,
                            use_highest,
                            constraint,
                            caps,
                            py,
                            inserted,
                            (fuel - 1) as nat,
                        );
                        lemma_burst_requests_gated(
                            map,
                            next,
                            use_highest,
                            constraint,
                            caps,
                            py,
                            inserted,
                            (fuel - 1) as nat,
                        );
                        let req = FetchRequest { version: c.version, version_id: c.version_id };
                        assert(out.reqs == seq![req] + rest.reqs);
                        assert(out.reqs[0] == req);
                        assert(passes_fixed_gates(c, caps, py));
                        lemma_burst_registered_monotone(
                            map,
                            next,
                            use_highest,
                            constraint,
                            caps,
                            py,
                            inserted,
                            (fuel - 1) as nat,
                        );
                        assert forall|j: int| 1 <= j < out.reqs.len() implies (
                        #[trigger] out.reqs[j]).version_id == rest.reqs[j - 1].version_id
                            && !registered.contains(out.reqs[j].version_id)
                            && out.reqs[j].version_id != vid by {
                            assert(out.reqs[j] == rest.reqs[j - 1]);
                            assert(!inserted.contains(rest.reqs[j - 1].version_id));
                        }
                        assert forall|j: int| 0 <= j < out.reqs.len() implies
                            request_from_gated_candidate(map, caps, py, #[trigger] out.reqs[j]) by {
                            if j == 0 {
                                assert(map[i].version == out.reqs[0].version && map[i].version_id
                                    == out.reqs[0].version_id && passes_fixed_gates(
                                    map[i],
                                    caps,
                                    py,
                                ));
                            } else {
                                assert(out.reqs[j] == rest.reqs[j - 1]);
                                assert(request_from_gated_candidate(map, caps, py, rest.reqs[j - 1]));
                            }
                        }
                        assert forall|v: u64| out.registered.contains(v) <==> registered.contains(
                            v,
                        ) || exists|j: int|
                            0 <= j < out.reqs.len() && (#[trigger] out.reqs[j]).version_id
                                == v by {
                            assert(rest.registered.contains(v) <==> inserted.contains(v) || exists|
                                j: int,
                            | 0 <= j < rest.reqs.len() && (#[trigger] rest.reqs[j]).version_id == v);
                            if out.registered.contains(v) {
                                if inserted.contains(v) && !registered.contains(v) {
                                    assert(out.reqs[0].version_id == v);
                                } else if !inserted.contains(v) {
                                    let j = choose|j: int|
                                        0 <= j < rest.reqs.len() && (#[trigger] rest.reqs[j]).version_id
                                            == v;
                                    assert(out.reqs[j + 1] == rest.reqs[j]);
                                    assert(out.reqs[j + 1].version_id == v);
                                }
                            }
                            if exists|j: int|
                                0 <= j < out.reqs.len() && (#[trigger] out.reqs[j]).version_id
                                    == v {
                                let j = choose|j: int|
                                    0 <= j < out.reqs.len() && (#[trigger] out.reqs[j]).version_id
                                        == v;
                                if j == 0 {
                                    assert(inserted.contains(v));
                                    assert(rest.registered.contains(v));
                                } else {
                                    assert(out.reqs[j] == rest.reqs[j - 1]);
                                    assert(rest.reqs[j - 1].version_id == v);
                                    assert(rest.registered.contains(v));
                                }
                            }
                        }
                    },
                }
            },
        }
    }
}

/// Idempotence of the burst: run again with unchanged inputs from the
/// registration set the first run left behind, it dispatches nothing.
pub proof fn lemma_burst_idempotent(
    map: Seq<VersionCandidate>,
    phase: PhaseView,
    use_highest: bool,
    constraint: Option<ConstraintTerm>,
    caps: Set<u64>,
    py: PythonRequirement,
    registered: Set<u64>,
    fuel: nat,
)
    ensures
        burst_spec(
            map,
            phase,
            use_highest,
            constraint,
            caps,
            py,
            burst_spec(map, phase, use_highest, constraint, caps, py, registered, fuel).registered,
            fuel,
        ).reqs.len() == 0,
    decreases fuel,
{
    let out1 = burst_spec(map, phase, use_highest, constraint, caps, py, registered, fuel);
    let reg2 = out1.registered;
    if fuel > 0 {
        match step_choice(map, phase, use_highest, constraint) {
            StepChoice::SwitchToInOrder { previous } => {
                lemma_burst_idempotent(
                    map,
                    PhaseView::InOrder { previous },
                    use_highest,
                    constraint,
                    caps,
                    py,
                    registered,
                    (fuel - 1) as nat,
                );
            },
            StepChoice::Stop => {},
            StepChoice::Candidate { i, next } => {
                let c = map[i];
                match gate_decision(c, caps, py, registered) {
                    GateDecision::Abort => {},
                    GateDecision::Skip => {
                        lemma_burst_registered_monotone(
                            map,
                            next,
                            use_highest,
                            constraint,
                            caps,
                            py,
                            registered,
                            (fuel - 1) as nat,
                        );
                        assert(gate_decision(c, caps, py, reg2) is Skip);
                        lemma_burst_idempotent(
                            map,
                            next,
                            use_highest,
                            constraint,
                            caps,
                            py,
                            registered,
                            (fuel - 1) as nat,
                        );
                    },
                    GateDecision::Dispatch => {
                        let inserted = registered.insert(c.version_id);
                        lemma_burst_registered_monotone(
                            map,
                            next,
                            use_highest,
                            constraint,
                            caps,
                            py,
                            inserted,
                            (fuel - 1) as nat,
                        );
                        assert(reg2.contains(c.version_id));
                        assert(gate_decision(c, caps, py, reg2) is Skip);
                        lemma_burst_idempotent(
                            map,
                            next,
                            use_highest,
                            constraint,
                            caps,
                            py,
                            inserted,
                            (fuel - 1) as nat,
                        );
                    },
                }
            },
        }
    }
}

} // verus!
