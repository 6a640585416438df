//! The Orbiting phase: handle resolution for the test body, and the
//! move into Debris.

use vstd::prelude::*;
use vstd::string::StringExecFns;

use crate::container::{CleanupContainer, RunningContainer, StaticExternalContainer};
use crate::engine::{Debris, Engine, Orbiting, Transitional};

verus! {

/// The teardown descriptor of a running container.
pub open spec fn spec_cleanup_of_running(r: RunningContainer) -> CleanupContainer {
    CleanupContainer { id: r.id, name: r.name, is_static: r.is_static, log_options: r.log_options }
}

/// Teardown descriptors of every running slot, in kept order.
pub open spec fn running_cleanups(kept: Seq<Transitional>) -> Seq<CleanupContainer>
    decreases kept.len(),
{
    if kept.len() == 0 {
        Seq::empty()
    } else {
        let rest = running_cleanups(kept.drop_last());
        match kept.last() {
            Transitional::Running(r) => rest.push(spec_cleanup_of_running(r)),
            _ => rest,
        }
    }
}

/// The static-external slots left unresolved, in kept order.
pub open spec fn static_externals(kept: Seq<Transitional>) -> Seq<StaticExternalContainer>
    decreases kept.len(),
{
    if kept.len() == 0 {
        Seq::empty()
    } else {
        let rest = static_externals(kept.drop_last());
        match kept.last() {
            Transitional::StaticExternal(e) => rest.push(e),
            _ => rest,
        }
    }
}

impl Engine<Orbiting> {
    /// Whether `handle` resolves to conflicting containers.
    pub fn handle_collision(&self, handle: &str) -> (r: bool)
        ensures
            r == self.keeper.spec_collides(handle@),
    {
        let h = handle.to_owned();
        self.keeper.is_collision(&h)
    }

    /// The running container recorded under `handle`. A handle defined
    /// more than once never resolves — callers treat that as a hard
    /// user error, and `handle_collision` tells it apart from a handle
    /// that is simply unknown. `None` also when the handle is unknown
    /// or its slot is not running.
    pub fn resolve_handle(&self, handle: &str) -> (r: Option<&RunningContainer>)
        requires
            self.keeper.bounded(self.phase.kept@.len() as int),
        ensures
            match r {
                Some(c) => {
                    &&& !self.keeper.spec_collides(handle@)
                    &&& self.keeper.spec_lookup(handle@) is Some
                    &&& self.phase.kept@[self.keeper.spec_lookup(handle@)->Some_0 as int]
                        == Transitional::Running(*c)
                },
                None => self.keeper.spec_collides(handle@) || self.keeper.spec_lookup(handle@)
                    is None || !(self.phase.kept@[
                    self.keeper.spec_lookup(handle@)->Some_0 as int
                ] is Running),
            },
    {
        let h = handle.to_owned();
        if self.keeper.is_collision(&h) {
            return None;
        }
        let index = match self.keeper.lookup(&h) {
            None => {
                return None;
            },
            Some(i) => i,
        };
        match &self.phase.kept[index] {
            Transitional::Running(r) => Some(r),
            _ => None,
        }
    }


    /// The test body's handle object: a copy of the lookup tables and
    /// of the running container data. Cloning duplicates only that —
    /// never a daemon resource — so the engine keeps sole ownership of
    /// the containers themselves.
    pub fn operations(&self) -> (r: crate::dockertest::DockerOperations)
        requires
            self.keeper.bounded(self.phase.kept@.len() as int),
            forall|i: int|
                0 <= i < self.phase.kept@.len() ==> (#[trigger] self.phase.kept@[i]) is Running,
        ensures
            r.wf(),
            r.containers@.len() == self.phase.kept@.len(),
            forall|h: Seq<char>| #[trigger] r.keeper.spec_lookup(h) == self.keeper.spec_lookup(h),
            forall|h: Seq<char>| #[trigger] r.keeper.spec_collides(h) == self.keeper.spec_collides(
                h,
            ),
            forall|i: int|
                0 <= i < r.containers@.len() ==> crate::container::same_running(
                    #[trigger] r.containers@[i],
                    self.phase.kept@[i]->Running_0,
                ),
    {
        let keeper = self.keeper.clone();
        let mut containers: Vec<RunningContainer> = Vec::new();
        let n = self.phase.kept.len();
        let mut i: usize = 0;
        while i < n
            invariant
                n == self.phase.kept@.len(),
                i <= n,
                forall|j: int|
                    0 <= j < n ==> (#[trigger] self.phase.kept@[j]) is Running,
                containers@.len() == i,
                forall|j: int|
                    0 <= j < i ==> crate::container::same_running(
                        #[trigger] containers@[j],
                        self.phase.kept@[j]->Running_0,
                    ),
            decreases n - i,
        {
            match &self.phase.kept[i] {
                Transitional::Running(r) => {
                    containers.push(r.clone());
                },
                _ => {
                    vstd::pervasive::unreached::<()>();
                },
            }
            i = i + 1;
        }
        crate::dockertest::DockerOperations { keeper, containers }
    }

    /// Moves to Debris: the running slots become teardown descriptors,
    /// in kept order, and the unresolved static-external slots are set
    /// aside for the static registry, in kept order.
    pub fn decommission(self) -> (r: Engine<Debris>)
        ensures
            r.keeper == self.keeper,
            r.phase.kept@ == running_cleanups(self.phase.kept@),
            r.phase.external@ == static_externals(self.phase.kept@),
    {
        let ghost kept0 = self.phase.kept@;
        let mut kept = self.phase.kept;
        let mut cleanups: Vec<CleanupContainer> = Vec::new();
        let mut external: Vec<StaticExternalContainer> = Vec::new();
        let n = kept.len();
        let mut i: usize = 0;
        while i < n
            invariant
                n == kept0.len(),
                i <= n,
                kept@ =~= kept0.skip(i as int),
                cleanups@ == running_cleanups(kept0.take(i as int)),
                external@ == static_externals(kept0.take(i as int)),
            decreases n - i,
        {
            proof {
                assert(kept0.skip(i as int)[0] == kept0[i as int]);
                assert(kept0.take(i as int + 1).drop_last() =~= kept0.take(i as int));
                assert(kept0.take(i as int + 1).last() == kept0[i as int]);
            }
            let slot = kept.remove(0);
            proof {
                assert(kept@ =~= kept0.skip(i as int + 1));
            }
            match slot {
                Transitional::Running(r) => {
                    cleanups.push(CleanupContainer {
                        id: r.id,
                        name: r.name,
                        is_static: r.is_static,
                        log_options: r.log_options,
                    });
                },
                Transitional::StaticExternal(e) => {
                    external.push(e);
                },
                _ => {},
            }
            i = i + 1;
        }
        proof {
            assert(kept0.take(n as int) =~= kept0);
        }
        Engine { keeper: self.keeper, phase: Debris { kept: cleanups, external } }
    }
}

/// The daemon identifiers of the statically managed containers, in
/// kept order.
pub open spec fn static_ids(kept: Seq<CleanupContainer>) -> Seq<Seq<char>>
    decreases kept.len(),
{
    if kept.len() == 0 {
        Seq::empty()
    } else {
        let rest = static_ids(kept.drop_last());
        if kept.last().is_static {
            rest.push(kept.last().id@)
        } else {
            rest
        }
    }
}

impl Engine<Debris> {
    /// The containers whose cleanup belongs to the static registry, by
    /// daemon identifier: the statically managed descriptors among the
    /// kept ones, in order, then the unresolved static externals, in
    /// order. This run never stops or removes them itself; the registry
    /// disconnects them from the run's network.
    pub fn static_cleanup_ids(&self) -> (r: Vec<String>)
        ensures
            r@.len() == static_ids(self.phase.kept@).len() + self.phase.external@.len(),
            forall|t: int|
                0 <= t < static_ids(self.phase.kept@).len() ==> (#[trigger] r@[t])@ == static_ids(
                    self.phase.kept@,
                )[t],
            forall|t: int|
                0 <= t < self.phase.external@.len() ==> (#[trigger] r@[static_ids(
                    self.phase.kept@,
                ).len() + t])@ == self.phase.external@[t].id@,
    {
        let mut r: Vec<String> = Vec::new();
        let n = self.phase.kept.len();
        let mut i: usize = 0;
        while i < n
            invariant
                n == self.phase.kept@.len(),
                i <= n,
                r@.len() == static_ids(self.phase.kept@.take(i as int)).len(),
                forall|t: int|
                    0 <= t < r@.len() ==> (#[trigger] r@[t])@ == static_ids(
                        self.phase.kept@.take(i as int),
                    )[t],
            decreases n - i,
        {
            proof {
                assert(self.phase.kept@.take(i as int + 1).drop_last() =~= self.phase.kept@.take(
                    i as int,
                ));
                assert(self.phase.kept@.take(i as int + 1).last() == self.phase.kept@[i as int]);
            }
            if self.phase.kept[i].is_static {
                r.push(self.phase.kept[i].id.clone());
            }
            i = i + 1;
        }
        proof {
            assert(self.phase.kept@.take(n as int) =~= self.phase.kept@);
        }
        let ghost base = static_ids(self.phase.kept@).len() as int;
        let m = self.phase.external.len();
        let mut k: usize = 0;
        while k < m
            invariant
                m == self.phase.external@.len(),
                k <= m,
                base == static_ids(self.phase.kept@).len(),
                r@.len() == base + k,
                forall|t: int|
                    0 <= t < base ==> (#[trigger] r@[t])@ == static_ids(self.phase.kept@)[t],
                forall|t: int|
                    0 <= t < k ==> (#[trigger] r@[base + t])@ == self.phase.external@[t].id@,
            decreases m - k,
        {
            r.push(self.phase.external[k].id.clone());
            k = k + 1;
        }
        r
    }
}

} // verus!
