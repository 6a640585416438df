//! The phased lifecycle engine.
//!
//! A run carries its batch of containers through five phases:
//! Bootstrapping (raw specifications, collision table built), Fueling
//! (final names assigned, environments rewritten), Igniting (daemon
//! creation outcomes held slot by slot), Orbiting (everything running;
//! the test body executes) and Debris (teardown descriptors). Each
//! transition consumes the previous phase, and the `kept` vector keeps
//! the order of `add_composition` calls throughout, so the keeper's
//! indices stay valid in every phase.
//!
//! The daemon calls themselves (create, start, remove) happen outside
//! the library; their outcomes enter these transitions as plain values.

use vstd::prelude::*;
use vstd::string::StringExecFns;

use crate::composition::Composition;
use crate::container::{CleanupContainer, PendingContainer, RunningContainer,
    StaticExternalContainer};
use crate::env::{env_upsert, env_unique_keys};
use crate::error::DockerTestError;
use crate::keeper::Keeper;
use crate::naming::{generate_random_string, is_lower_alpha_tag, spec_final_name, RANDOM_TAG_LEN};

verus! {

/// The initial phase: raw specifications.
pub struct Bootstrapping {
    pub kept: Vec<Composition>,
}

/// The preparation phase: final names assigned, pulls allowed.
pub struct Fueling {
    pub kept: Vec<Composition>,
}

/// The creation phase: each slot holds its daemon creation outcome.
pub struct Igniting {
    pub kept: Vec<Transitional>,
}

/// The in-flight phase: the test body runs against these slots.
pub struct Orbiting {
    pub kept: Vec<Transitional>,
}

/// The terminal phase: cleanup descriptors and static references.
pub struct Debris {
    pub kept: Vec<CleanupContainer>,
    pub external: Vec<StaticExternalContainer>,
}

/// The lifecycle states a container slot passes through.
pub enum Transitional {
    /// Created on the daemon, not yet started.
    Pending(PendingContainer),
    /// Started and ready.
    Running(RunningContainer),
    /// The daemon refused to create it.
    CreationFailure(DockerTestError),
    /// Resolved from the static-container registry.
    StaticExternal(StaticExternalContainer),
    /// Placeholder while a slot is replaced in place.
    Sentinel,
}

/// What the daemon produced for one specification.
pub enum CreatedContainer {
    /// The normal path: a fresh container awaiting start.
    Pending(PendingContainer),
    /// The specification referred to a shared, externally started container.
    StaticExternal(StaticExternalContainer),
}

/// The engine: the keeper plus the phase-specific container vector.
pub struct Engine<P> {
    pub keeper: Keeper,
    pub phase: P,
}

/// The handles of the compositions, in order.
pub open spec fn handle_seq(cs: Seq<Composition>) -> Seq<Seq<char>> {
    cs.map_values(|c: Composition| c.spec_handle())
}

/// Every composition's environment has unique names.
pub open spec fn comps_wf(cs: Seq<Composition>) -> bool {
    forall|i: int| 0 <= i < cs.len() ==> (#[trigger] cs[i]).wf()
}

/// Creates the engine over the batch, in Bootstrapping phase: the kept
/// vector is the batch in `add_composition` order, and the keeper maps
/// every handle to the composition that introduced it.
pub fn bootstrap(compositions: Vec<Composition>) -> (r: Engine<Bootstrapping>)
    ensures
        r.phase.kept == compositions,
        r.keeper.models(handle_seq(compositions@)),
        r.keeper.bounded(compositions@.len() as int),
{
    let ghost hs = handle_seq(compositions@);
    let mut handles: Vec<String> = Vec::new();
    let n = compositions.len();
    let mut i: usize = 0;
    while i < n
        invariant
            n == compositions@.len(),
            hs == handle_seq(compositions@),
            i <= n,
            handles@.len() == i,
            forall|j: int| 0 <= j < i ==> (#[trigger] handles@[j])@ == hs[j],
        decreases n - i,
    {
        proof {
            assert(hs[i as int] == compositions@[i as int].spec_handle());
        }
        handles.push(compositions[i].handle());
        i = i + 1;
    }
    proof {
        assert(handles@.map_values(|s: String| s@) =~= hs);
    }
    let keeper = Keeper::build(&handles);
    proof {
        assert forall|h: Seq<char>|
            (#[trigger] keeper.spec_lookup(h)) is Some implies keeper.spec_lookup(h)->Some_0
            < compositions@.len() by {
            let idx = keeper.spec_lookup(h)->Some_0 as int;
            assert(crate::keeper::first_occurrence(hs, idx));
        }
    }
    Engine { keeper, phase: Bootstrapping { kept: compositions } }
}

/// Law: a handle the keeper records resolves to the slot of the
/// composition that introduced it — the slot at the recorded index
/// bears that very handle. Every later transition rewrites slots in
/// place and never reorders them, so the recorded index stays valid
/// across all phases.
pub proof fn lemma_keeper_points_at_introducing_slot(engine: &Engine<Bootstrapping>, h: Seq<char>)
    requires
        engine.keeper.models(handle_seq(engine.phase.kept@)),
        engine.keeper.spec_lookup(h) is Some,
    ensures
        ({
            let i = engine.keeper.spec_lookup(h)->Some_0 as int;
            &&& 0 <= i < engine.phase.kept@.len()
            &&& engine.phase.kept@[i].spec_handle() == h
        }),
{
    let hs = handle_seq(engine.phase.kept@);
    let i = engine.keeper.spec_lookup(h)->Some_0 as int;
    assert(crate::keeper::first_occurrence(hs, i) && hs[i] == h);
    assert(hs[i] == engine.phase.kept@[i].spec_handle());
}

impl Engine<Bootstrapping> {
    /// Assigns every composition its final daemon-level name,
    /// `{namespace}-{handle}-{suffix}`, with the given suffixes slot by
    /// slot. Nothing else about a composition changes.
    pub fn resolve_final_container_name_with_suffixes(
        &mut self,
        namespace: &str,
        suffixes: &Vec<String>,
    )
        requires
            suffixes@.len() == old(self).phase.kept@.len(),
        ensures
            final(self).keeper == old(self).keeper,
            final(self).phase.kept@.len() == old(self).phase.kept@.len(),
            forall|i: int|
                0 <= i < old(self).phase.kept@.len() ==> {
                    let oldc = old(self).phase.kept@[i];
                    let newc = #[trigger] final(self).phase.kept@[i];
                    &&& newc == (Composition { container_name: newc.container_name, ..oldc })
                    &&& newc.container_name@ == spec_final_name(
                        namespace@,
                        oldc.spec_handle(),
                        suffixes@[i]@,
                    )
                },
    {
        let n = self.phase.kept.len();
        let mut i: usize = 0;
        while i < n
            invariant
                self.keeper == old(self).keeper,
                n == self.phase.kept@.len(),
                n == old(self).phase.kept@.len(),
                suffixes@.len() == n,
                i <= n,
                forall|j: int| i <= j < n
                    ==> #[trigger] self.phase.kept@[j] == old(self).phase.kept@[j],
                forall|j: int|
                    0 <= j < i ==> {
                        let oldc = old(self).phase.kept@[j];
                        let newc = #[trigger] self.phase.kept@[j];
                        &&& newc == (Composition { container_name: newc.container_name, ..oldc })
                        &&& newc.container_name@ == spec_final_name(
                            namespace@,
                            oldc.spec_handle(),
                            suffixes@[j]@,
                        )
                    },
            decreases n - i,
        {
            let suffix = &suffixes[i];
            let base = self.phase.kept[i].handle();
            let name = crate::naming::build_final_name(namespace, base.as_str(), suffix.as_str());
            self.phase.kept[i].container_name = name;
            i = i + 1;
        }
    }

    /// Assigns every composition its final daemon-level name with a
    /// fresh 20-letter random suffix of its own. Nothing else about a
    /// composition changes.
    pub fn resolve_final_container_name(&mut self, namespace: &str)
        ensures
            final(self).keeper == old(self).keeper,
            final(self).phase.kept@.len() == old(self).phase.kept@.len(),
            forall|i: int|
                0 <= i < old(self).phase.kept@.len() ==> {
                    let oldc = old(self).phase.kept@[i];
                    let newc = #[trigger] final(self).phase.kept@[i];
                    &&& newc == (Composition { container_name: newc.container_name, ..oldc })
                    &&& exists|sfx: Seq<char>|
                        is_lower_alpha_tag(sfx, RANDOM_TAG_LEN as int)
                            && newc.container_name@ == spec_final_name(
                            namespace@,
                            oldc.spec_handle(),
                            sfx,
                        )
                },
    {
        let n = self.phase.kept.len();
        let mut suffixes: Vec<String> = Vec::new();
        let mut i: usize = 0;
        while i < n
            invariant
                i <= n,
                suffixes@.len() == i,
                forall|j: int|
                    0 <= j < i ==> is_lower_alpha_tag((#[trigger] suffixes@[j])@, RANDOM_TAG_LEN as int),
            decreases n - i,
        {
            suffixes.push(generate_random_string(RANDOM_TAG_LEN));
            i = i + 1;
        }
        self.resolve_final_container_name_with_suffixes(namespace, &suffixes);
    }

    /// Moves to Fueling; the kept vector and the keeper do not change.
    pub fn fuel(self) -> (r: Engine<Fueling>)
        ensures
            r.keeper == self.keeper,
            r.phase.kept == self.phase.kept,
    {
        Engine { keeper: self.keeper, phase: Fueling { kept: self.phase.kept } }
    }
}

/// The target handle of injection request `j` of composition `i`.
pub open spec fn inject_req_handle(cs: Seq<Composition>, i: int, j: int) -> Seq<char> {
    cs[i].inject_container_name_env@[j].0@
}

/// A handle can be injected: it is known and does not collide.
pub open spec fn inject_request_valid(keeper: &Keeper, h: Seq<char>) -> bool {
    keeper.spec_lookup(h) is Some && !keeper.spec_collides(h)
}

/// Every injection request of every composition can be resolved.
pub open spec fn all_injects_valid(keeper: &Keeper, cs: Seq<Composition>) -> bool {
    forall|i: int, j: int|
        0 <= i < cs.len() && 0 <= j < cs[i].inject_container_name_env@.len()
            ==> inject_request_valid(keeper, #[trigger] inject_req_handle(cs, i, j))
}

/// Request `(i, j)` is the first, in composition order then request
/// order, that cannot be resolved.
pub open spec fn first_invalid_inject(keeper: &Keeper, cs: Seq<Composition>, i: int, j: int) -> bool {
    &&& 0 <= i < cs.len()
    &&& 0 <= j < cs[i].inject_container_name_env@.len()
    &&& !inject_request_valid(keeper, inject_req_handle(cs, i, j))
    &&& forall|i2: int, j2: int|
        0 <= i2 < cs.len() && 0 <= j2 < cs[i2].inject_container_name_env@.len()
            && (i2 < i || (i2 == i && j2 < j))
            ==> inject_request_valid(keeper, #[trigger] inject_req_handle(cs, i2, j2))
}

/// The environment of a composition after its injection requests have
/// been applied in order: each request binds its variable to the final
/// container name of its target handle.
pub open spec fn inject_fold(
    keeper: &Keeper,
    cs: Seq<Composition>,
    env: Seq<(Seq<char>, Seq<char>)>,
    reqs: Seq<(String, String)>,
) -> Seq<(Seq<char>, Seq<char>)>
    decreases reqs.len(),
{
    if reqs.len() == 0 {
        env
    } else {
        let prev = inject_fold(keeper, cs, env, reqs.drop_last());
        let target = keeper.spec_lookup(reqs.last().0@)->Some_0 as int;
        env_upsert(prev, reqs.last().1@, cs[target].container_name@)
    }
}

/// The bindings the injection requests of one composition produce:
/// each request binds its variable to its target's final container name.
pub open spec fn inject_pairs(
    keeper: &Keeper,
    cs: Seq<Composition>,
    reqs: Seq<(String, String)>,
) -> Seq<(Seq<char>, Seq<char>)> {
    reqs.map_values(
        |r: (String, String)|
            (r.1@, cs[keeper.spec_lookup(r.0@)->Some_0 as int].container_name@),
    )
}

/// `inject_fold` is the plain fold of those bindings.
pub proof fn lemma_inject_fold_as_pairs(
    keeper: &Keeper,
    cs: Seq<Composition>,
    env: Seq<(Seq<char>, Seq<char>)>,
    reqs: Seq<(String, String)>,
)
    ensures
        inject_fold(keeper, cs, env, reqs) == crate::env::env_upsert_all(
            env,
            inject_pairs(keeper, cs, reqs),
        ),
    decreases reqs.len(),
{
    if reqs.len() > 0 {
        lemma_inject_fold_as_pairs(keeper, cs, env, reqs.drop_last());
        let ps = inject_pairs(keeper, cs, reqs);
        assert(inject_pairs(keeper, cs, reqs.drop_last()) =~= ps.drop_last());
        assert(ps.last() == (
            reqs.last().1@,
            cs[keeper.spec_lookup(reqs.last().0@)->Some_0 as int].container_name@,
        ));
    }
}

/// The bindings depend only on the final container names, never on the
/// rest of the compositions.
pub proof fn lemma_inject_pairs_names(
    keeper: &Keeper,
    cs: Seq<Composition>,
    cs2: Seq<Composition>,
    reqs: Seq<(String, String)>,
)
    requires
        cs2.len() == cs.len(),
        keeper.bounded(cs.len() as int),
        forall|t: int|
            0 <= t < cs.len() ==> (#[trigger] cs2[t]).container_name@ == cs[t].container_name@,
        forall|j: int| 0 <= j < reqs.len() ==> keeper.spec_lookup((#[trigger] reqs[j]).0@) is Some,
    ensures
        inject_pairs(keeper, cs2, reqs) == inject_pairs(keeper, cs, reqs),
{
    let a = inject_pairs(keeper, cs2, reqs);
    let b = inject_pairs(keeper, cs, reqs);
    assert forall|j: int| 0 <= j < reqs.len() implies #[trigger] a[j] == b[j] by {
        assert(keeper.spec_lookup(reqs[j].0@) is Some);
    }
    assert(a =~= b);
}

/// Law: rewriting the environments is idempotent. Once every injection
/// request has been applied, applying them again over the rewritten
/// batch leaves every environment exactly as it stands — the second
/// run is a no-op — and its requests are still valid, the keeper and
/// the request lists being unchanged.
pub proof fn lemma_inject_idempotent(
    keeper: &Keeper,
    cs: Seq<Composition>,
    cs2: Seq<Composition>,
    i: int,
)
    requires
        comps_wf(cs),
        keeper.bounded(cs.len() as int),
        all_injects_valid(keeper, cs),
        0 <= i < cs.len(),
        cs2.len() == cs.len(),
        forall|t: int|
            0 <= t < cs.len() ==> (#[trigger] cs2[t]).container_name@ == cs[t].container_name@,
        forall|t: int|
            0 <= t < cs.len() ==> (#[trigger] cs2[t]).inject_container_name_env@
                == cs[t].inject_container_name_env@,
        cs2[i].env@ == inject_fold(keeper, cs, cs[i].env@, cs[i].inject_container_name_env@),
    ensures
        all_injects_valid(keeper, cs2),
        inject_fold(keeper, cs2, cs2[i].env@, cs2[i].inject_container_name_env@) == cs2[i].env@,
{
    assert forall|i2: int, j2: int|
        0 <= i2 < cs2.len() && 0 <= j2 < cs2[i2].inject_container_name_env@.len()
            implies inject_request_valid(keeper, #[trigger] inject_req_handle(cs2, i2, j2)) by {
        assert(inject_req_handle(cs2, i2, j2) == inject_req_handle(cs, i2, j2));
        assert(inject_request_valid(keeper, inject_req_handle(cs, i2, j2)));
    }
    let reqs = cs[i].inject_container_name_env@;
    assert(cs2[i].inject_container_name_env@ == reqs);
    assert forall|j: int| 0 <= j < reqs.len() implies keeper.spec_lookup(
        (#[trigger] reqs[j]).0@,
    ) is Some by {
        assert(inject_request_valid(keeper, inject_req_handle(cs, i, j)));
    }
    lemma_inject_fold_as_pairs(keeper, cs, cs[i].env@, reqs);
    lemma_inject_fold_as_pairs(keeper, cs2, cs2[i].env@, reqs);
    lemma_inject_pairs_names(keeper, cs, cs2, reqs);
    assert(cs[i].wf());
    crate::env::lemma_env_upsert_all_idempotent(cs[i].env@, inject_pairs(keeper, cs, reqs));
}

/// The message reported when an injection request names a duplicated handle.
pub open spec fn spec_duplicate_handle_msg(comp: Seq<char>, target: Seq<char>) -> Seq<char> {
    "composition `"@ + comp
        + "` attempted to inject_container_name_env on duplicate handle `"@ + target + "`"@
}

/// The message reported when an injection request names an unknown handle.
pub open spec fn spec_missing_handle_msg(comp: Seq<char>, target: Seq<char>) -> Seq<char> {
    "composition `"@ + comp
        + "` attempted to inject_container_name_env on non-existent handle `"@ + target + "`"@
}

/// The error owed for the first invalid injection request.
pub open spec fn spec_inject_error(keeper: &Keeper, cs: Seq<Composition>, i: int, j: int) -> Seq<char> {
    let h = inject_req_handle(cs, i, j);
    if keeper.spec_collides(h) {
        spec_duplicate_handle_msg(cs[i].spec_handle(), h)
    } else {
        spec_missing_handle_msg(cs[i].spec_handle(), h)
    }
}

fn duplicate_handle_message(comp: &String, target: &String) -> (r: String)
    ensures
        r@ == spec_duplicate_handle_msg(comp@, target@),
{
    let mut r = String::from_str("composition `");
    r.append(comp.as_str());
    r.append("` attempted to inject_container_name_env on duplicate handle `");
    r.append(target.as_str());
    r.append("`");
    proof {
        assert(r@ =~= spec_duplicate_handle_msg(comp@, target@));
    }
    r
}

fn missing_handle_message(comp: &String, target: &String) -> (r: String)
    ensures
        r@ == spec_missing_handle_msg(comp@, target@),
{
    let mut r = String::from_str("composition `");
    r.append(comp.as_str());
    r.append("` attempted to inject_container_name_env on non-existent handle `");
    r.append(target.as_str());
    r.append("`");
    proof {
        assert(r@ =~= spec_missing_handle_msg(comp@, target@));
    }
    r
}

impl Engine<Fueling> {
    /// Resolves every `inject_container_name_env` request: first every
    /// request is validated against the keeper; only then is every
    /// requester's environment rewritten, binding the requested variable
    /// to the target's final container name (overwriting any existing
    /// value). A single invalid request fails the whole operation
    /// before anything is mutated. Assumes final container names have
    /// been resolved.
    pub fn resolve_inject_container_name_env(&mut self) -> (r: Result<(), DockerTestError>)
        requires
            comps_wf(old(self).phase.kept@),
            old(self).keeper.bounded(old(self).phase.kept@.len() as int),
        ensures
            final(self).keeper == old(self).keeper,
            match r {
                Ok(()) => {
                    &&& all_injects_valid(&old(self).keeper, old(self).phase.kept@)
                    &&& final(self).phase.kept@.len() == old(self).phase.kept@.len()
                    &&& comps_wf(final(self).phase.kept@)
                    &&& forall|i: int|
                        0 <= i < old(self).phase.kept@.len() ==> {
                            let oldc = old(self).phase.kept@[i];
                            let newc = #[trigger] final(self).phase.kept@[i];
                            &&& newc == (Composition { env: newc.env, ..oldc })
                            &&& newc.env@ == inject_fold(
                                &old(self).keeper,
                                old(self).phase.kept@,
                                oldc.env@,
                                oldc.inject_container_name_env@,
                            )
                        }
                },
                Err(e) => {
                    &&& !all_injects_valid(&old(self).keeper, old(self).phase.kept@)
                    &&& *final(self) == *old(self)
                    &&& e is Startup
                    &&& exists|i: int, j: int|
                        first_invalid_inject(&old(self).keeper, old(self).phase.kept@, i, j)
                            && e.spec_message() == spec_inject_error(
                            &old(self).keeper,
                            old(self).phase.kept@,
                            i,
                            j,
                        )
                },
            },
    {
        let ghost keeper0 = self.keeper;
        let ghost cs = self.phase.kept@;
        // First pass: validate every request and gather, per composition,
        // the (variable, final target name) pairs to apply.
        let mut gathered: Vec<Vec<(String, String)>> = Vec::new();
        let n = self.phase.kept.len();
        let mut i: usize = 0;
        while i < n
            invariant
                *self == *old(self),
                keeper0 == self.keeper,
                cs == self.phase.kept@,
                n == cs.len(),
                keeper0.bounded(n as int),
                i <= n,
                gathered@.len() == i,
                forall|i2: int, j2: int|
                    0 <= i2 < i && 0 <= j2 < cs[i2].inject_container_name_env@.len()
                        ==> inject_request_valid(&keeper0, #[trigger] inject_req_handle(cs, i2, j2)),
                forall|i2: int|
                    0 <= i2 < i ==> (#[trigger] gathered@[i2])@.len()
                        == cs[i2].inject_container_name_env@.len(),
                forall|i2: int, j2: int|
                    0 <= i2 < i && 0 <= j2 < gathered@[i2]@.len() ==> {
                        let req = cs[i2].inject_container_name_env@[j2];
                        let got = #[trigger] gathered@[i2]@[j2];
                        &&& got.0@ == req.1@
                        &&& got.1@ == cs[keeper0.spec_lookup(req.0@)->Some_0 as int].container_name@
                    },
            decreases n - i,
        {
            let mut row: Vec<(String, String)> = Vec::new();
            let m = self.phase.kept[i].inject_container_name_env.len();
            let mut j: usize = 0;
            while j < m
                invariant
                    *self == *old(self),
                    keeper0 == self.keeper,
                    cs == self.phase.kept@,
                    n == cs.len(),
                    i < n,
                    keeper0.bounded(n as int),
                    m == cs[i as int].inject_container_name_env@.len(),
                    j <= m,
                    row@.len() == j,
                    forall|i2: int, j2: int|
                        0 <= i2 < i && 0 <= j2 < cs[i2].inject_container_name_env@.len()
                            ==> inject_request_valid(&keeper0, #[trigger] inject_req_handle(cs, i2, j2)),
                    forall|j2: int|
                        0 <= j2 < j ==> inject_request_valid(
                            &keeper0,
                            inject_req_handle(cs, i as int, j2),
                        ),
                    forall|j2: int|
                        0 <= j2 < j ==> {
                            let req = cs[i as int].inject_container_name_env@[j2];
                            let got = #[trigger] row@[j2];
                            &&& got.0@ == req.1@
                            &&& got.1@ == cs[keeper0.spec_lookup(req.0@)->Some_0 as int].container_name@
                        },
                decreases m - j,
            {
                let handle = self.phase.kept[i].inject_container_name_env[j].0.clone();
                let variable = self.phase.kept[i].inject_container_name_env[j].1.clone();
                if self.keeper.is_collision(&handle) {
                    let comp_handle = self.phase.kept[i].handle();
                    let msg = duplicate_handle_message(&comp_handle, &handle);
                    proof {
                        assert(first_invalid_inject(&keeper0, cs, i as int, j as int));
                    }
                    return Err(DockerTestError::Startup(msg));
                }
                let index = match self.keeper.lookup(&handle) {
                    Some(index) => index,
                    None => {
                        let comp_handle = self.phase.kept[i].handle();
                        let msg = missing_handle_message(&comp_handle, &handle);
                        proof {
                            assert(first_invalid_inject(&keeper0, cs, i as int, j as int));
                        }
                        return Err(DockerTestError::Startup(msg));
                    },
                };
                proof {
                    assert(inject_request_valid(&keeper0, inject_req_handle(cs, i as int, j as int)));
                }
                let name = self.phase.kept[index].container_name.clone();
                row.push((variable, name));
                j = j + 1;
            }
            gathered.push(row);
            i = i + 1;
        }
        proof {
            assert(all_injects_valid(&keeper0, cs));
        }
        // Second pass: apply the gathered bindings composition by
        // composition, preserving the kept order.
        let mut taken: Vec<Composition> = Vec::new();
        core::mem::swap(&mut self.phase.kept, &mut taken);
        let mut k: usize = 0;
        while k < n
            invariant
                self.keeper == keeper0,
                n == cs.len(),
                comps_wf(cs),
                all_injects_valid(&keeper0, cs),
                k <= n,
                taken@ =~= cs.skip(k as int),
                self.phase.kept@.len() == k,
                gathered@.len() == n,
                forall|i2: int|
                    0 <= i2 < n ==> (#[trigger] gathered@[i2])@.len()
                        == cs[i2].inject_container_name_env@.len(),
                forall|i2: int, j2: int|
                    0 <= i2 < n && 0 <= j2 < gathered@[i2]@.len() ==> {
                        let req = cs[i2].inject_container_name_env@[j2];
                        let got = #[trigger] gathered@[i2]@[j2];
                        &&& got.0@ == req.1@
                        &&& got.1@ == cs[keeper0.spec_lookup(req.0@)->Some_0 as int].container_name@
                    },
                forall|i2: int|
                    0 <= i2 < k ==> {
                        let oldc = cs[i2];
                        let newc = #[trigger] self.phase.kept@[i2];
                        &&& newc == (Composition { env: newc.env, ..oldc })
                        &&& newc.env@ == inject_fold(
                            &keeper0,
                            cs,
                            oldc.env@,
                            oldc.inject_container_name_env@,
                        )
                        &&& newc.wf()
                    },
            decreases n - k,
        {
            let mut c = taken.remove(0);
            proof {
                assert(cs.skip(k as int)[0] == cs[k as int]);
                assert(taken@ =~= cs.skip(k as int + 1));
                assert(c == cs[k as int]);
            }
            let ghost reqs = c.inject_container_name_env@;
            let ghost env0 = c.env@;
            let m = gathered[k].len();
            let mut j: usize = 0;
            while j < m
                invariant
                    n == cs.len(),
                    comps_wf(cs),
                    all_injects_valid(&keeper0, cs),
                    k < n,
                    c.inject_container_name_env@ == reqs,
                    reqs == cs[k as int].inject_container_name_env@,
                    env0 == cs[k as int].env@,
                    c == (Composition { env: c.env, ..cs[k as int] }),
                    gathered@.len() == n,
                    m == gathered@[k as int]@.len(),
                    m == reqs.len(),
                    j <= m,
                    forall|j2: int|
                        0 <= j2 < m ==> {
                            let req = cs[k as int].inject_container_name_env@[j2];
                            let got = #[trigger] gathered@[k as int]@[j2];
                            &&& got.0@ == req.1@
                            &&& got.1@ == cs[keeper0.spec_lookup(req.0@)->Some_0 as int].container_name@
                        },
                    c.env@ == inject_fold(&keeper0, cs, env0, reqs.take(j as int)),
                    c.wf(),
                decreases m - j,
            {
                let variable = gathered[k][j].0.clone();
                let name = gathered[k][j].1.clone();
                proof {
                    assert(cs[k as int].wf());
                }
                c.with_env_var(variable, name);
                proof {
                    assert(reqs.take(j as int + 1).drop_last() =~= reqs.take(j as int));
                    assert(reqs.take(j as int + 1).last() == reqs[j as int]);
                }
                j = j + 1;
            }
            proof {
                assert(reqs.take(m as int) =~= reqs);
            }
            self.phase.kept.push(c);
            k = k + 1;
        }
        proof {
            assert(self.phase.kept@.len() == cs.len());
        }
        Ok(())
    }

    /// Folds the daemon's creation outcome for each specification into
    /// the matching slot.
    pub open spec fn transitional_of(r: Result<CreatedContainer, DockerTestError>) -> Transitional {
        match r {
            Ok(CreatedContainer::Pending(p)) => Transitional::Pending(p),
            Ok(CreatedContainer::StaticExternal(e)) => Transitional::StaticExternal(e),
            Err(e) => Transitional::CreationFailure(e),
        }
    }

    /// Moves to Igniting with the daemon's creation outcome for every
    /// specification, slot by slot in kept order. The phase always
    /// advances, even on failure: a failed batch is returned in the
    /// error variant, still carrying every successfully created
    /// container so that `cleanup` can destroy them.
    pub fn ignite(self, created: Vec<Result<CreatedContainer, DockerTestError>>) -> (r: Result<
        Engine<Igniting>,
        Engine<Igniting>,
    >)
        requires
            created@.len() == self.phase.kept@.len(),
        ensures
            ({
                let engine = match r {
                    Ok(engine) => engine,
                    Err(engine) => engine,
                };
                &&& engine.keeper == self.keeper
                &&& engine.phase.kept@.len() == created@.len()
                &&& forall|i: int|
                    0 <= i < created@.len() ==> #[trigger] engine.phase.kept@[i]
                        == Self::transitional_of(created@[i])
                &&& (r is Err <==> exists|i: int|
                    0 <= i < created@.len() && (#[trigger] created@[i]) is Err)
            }),
    {
        let ghost created0 = created@;
        let mut created = created;
        let mut kept: Vec<Transitional> = Vec::new();
        let mut startup_failure = false;
        let n = created.len();
        let mut i: usize = 0;
        while i < n
            invariant
                n == created0.len(),
                i <= n,
                created@ =~= created0.skip(i as int),
                kept@.len() == i,
                forall|j: int|
                    0 <= j < i ==> #[trigger] kept@[j] == Self::transitional_of(created0[j]),
                startup_failure == exists|j: int|
                    0 <= j < i && (#[trigger] created0[j]) is Err,
            decreases n - i,
        {
            proof {
                assert(created0.skip(i as int)[0] == created0[i as int]);
            }
            let item = created.remove(0);
            proof {
                assert(created@ =~= created0.skip(i as int + 1));
            }
            match item {
                Ok(CreatedContainer::Pending(p)) => {
                    kept.push(Transitional::Pending(p));
                },
                Ok(CreatedContainer::StaticExternal(e)) => {
                    kept.push(Transitional::StaticExternal(e));
                },
                Err(e) => {
                    startup_failure = true;
                    kept.push(Transitional::CreationFailure(e));
                },
            }
            i = i + 1;
        }
        let engine = Engine { keeper: self.keeper, phase: Igniting { kept } };
        if startup_failure {
            Err(engine)
        } else {
            Ok(engine)
        }
    }
}

} // verus!
