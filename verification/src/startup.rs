//! Starting the batch: the strict/relaxed discipline and the in-place
//! slot updates that carry the engine from Igniting to Orbiting.
//!
//! Strict containers start one by one in declaration order and the
//! first failure aborts further strict starts; relaxed containers start
//! concurrently and every spawned start is awaited, failure or not.
//! The engine only plans and records: a driver outside the library
//! performs each daemon start and feeds the outcome back in.

use vstd::prelude::*;

use crate::container::{CleanupContainer, PendingContainer, RunningContainer};
use crate::engine::{Engine, Igniting, Orbiting, Transitional};
use crate::error::DockerTestError;
use crate::StartPolicy;

verus! {

/// The teardown descriptor of a container that was created but never
/// started.
pub open spec fn spec_cleanup_of(p: PendingContainer) -> CleanupContainer {
    CleanupContainer { id: p.id, name: p.name, is_static: false, log_options: p.log_options }
}

/// Teardown descriptors of every slot still awaiting start, in order.
pub open spec fn pending_cleanups(kept: Seq<Transitional>) -> Seq<CleanupContainer>
    decreases kept.len(),
{
    if kept.len() == 0 {
        Seq::empty()
    } else {
        let rest = pending_cleanups(kept.drop_last());
        match kept.last() {
            Transitional::Pending(p) => rest.push(spec_cleanup_of(p)),
            _ => rest,
        }
    }
}

/// The creation errors held by the slots, in order.
pub open spec fn creation_errors(kept: Seq<Transitional>) -> Seq<DockerTestError>
    decreases kept.len(),
{
    if kept.len() == 0 {
        Seq::empty()
    } else {
        let rest = creation_errors(kept.drop_last());
        match kept.last() {
            Transitional::CreationFailure(e) => rest.push(e),
            _ => rest,
        }
    }
}

/// The pending containers with the given start policy, in order.
pub open spec fn pending_with_policy(kept: Seq<Transitional>, policy: StartPolicy) -> Seq<
    PendingContainer,
>
    decreases kept.len(),
{
    if kept.len() == 0 {
        Seq::empty()
    } else {
        let rest = pending_with_policy(kept.drop_last(), policy);
        match kept.last() {
            Transitional::Pending(p) => if p.start_policy == policy {
                rest.push(p)
            } else {
                rest
            },
            _ => rest,
        }
    }
}

/// A started container belongs to a slot when the slot awaits it: a
/// pending slot by daemon identifier, a static slot by handle.
pub open spec fn slot_matches(t: Transitional, c: RunningContainer) -> bool {
    match t {
        Transitional::Pending(p) => p.id@ == c.id@,
        Transitional::StaticExternal(e) => e.handle@ == c.handle@,
        _ => false,
    }
}

/// The first slot that awaits `c`, or -1.
pub open spec fn find_slot(kept: Seq<Transitional>, c: RunningContainer) -> int
    decreases kept.len(),
{
    if kept.len() == 0 {
        -1
    } else if slot_matches(kept[0], c) {
        0
    } else {
        let r = find_slot(kept.drop_first(), c);
        if r < 0 {
            -1
        } else {
            r + 1
        }
    }
}

///`find_slot` finds exactly the first matching slot.
pub proof fn lemma_find_slot(kept: Seq<Transitional>, c: RunningContainer)
    ensures
        find_slot(kept, c) == -1 ==> (forall|j: int|
            0 <= j < kept.len() ==> !slot_matches(#[trigger] kept[j], c)),
        find_slot(kept, c) != -1 ==> {
            let i = find_slot(kept, c);
            &&& 0 <= i < kept.len()
            &&& slot_matches(kept[i], c)
            &&& forall|j: int| 0 <= j < i ==> !slot_matches(#[trigger] kept[j], c)
        },
    decreases kept.len(),
{
    if kept.len() > 0 && !slot_matches(kept[0], c) {
        let d = kept.drop_first();
        lemma_find_slot(d, c);
        let r = find_slot(d, c);
        if r == -1 {
            assert forall|j: int| 0 <= j < kept.len() implies !slot_matches(
                #[trigger] kept[j],
                c,
            ) by {
                if j > 0 {
                    assert(d[j - 1] == kept[j]);
                }
            }
        } else {
            assert(kept[r + 1] == d[r]);
            assert forall|j: int| 0 <= j < r + 1 implies !slot_matches(#[trigger] kept[j], c) by {
                if j > 0 {
                    assert(d[j - 1] == kept[j]);
                }
            }
        }
    }
}

/// Hands `c` to the first slot that awaits it, in place; a container no
/// slot awaits is dropped.
pub open spec fn apply_one(kept: Seq<Transitional>, c: RunningContainer) -> Seq<Transitional> {
    let i = find_slot(kept, c);
    if i < 0 {
        kept
    } else {
        kept.update(i, Transitional::Running(c))
    }
}

/// Hands every started container to its slot, in the order they were
/// gathered; the kept order itself never changes.
pub open spec fn apply_started(kept: Seq<Transitional>, cs: Seq<RunningContainer>) -> Seq<
    Transitional,
>
    decreases cs.len(),
{
    if cs.len() == 0 {
        kept
    } else {
        apply_one(apply_started(kept, cs.drop_last()), cs.last())
    }
}

/// Applying started containers never moves a slot: it only turns slots
/// into `Running`, one by one.
pub proof fn lemma_apply_preserves(kept: Seq<Transitional>, cs: Seq<RunningContainer>)
    ensures
        apply_started(kept, cs).len() == kept.len(),
        forall|i: int|
            0 <= i < kept.len() ==> (#[trigger] apply_started(kept, cs)[i] == kept[i]
                || apply_started(kept, cs)[i] is Running),
    decreases cs.len(),
{
    if cs.len() > 0 {
        lemma_apply_preserves(kept, cs.drop_last());
        let prev = apply_started(kept, cs.drop_last());
        lemma_find_slot(prev, cs.last());
    }
}

/// After a successful orbit nothing is left waiting: when every slot is
/// pending or static, every slot is awaited by some started container,
/// and no container is awaited by two slots, then applying the started
/// containers leaves every slot `Running`.
pub proof fn lemma_orbit_all_running(kept: Seq<Transitional>, cs: Seq<RunningContainer>)
    requires
        forall|i: int|
            0 <= i < kept.len() ==> ((#[trigger] kept[i]) is Pending || kept[i] is StaticExternal),
        forall|i: int|
            0 <= i < kept.len() ==> exists|j: int|
                0 <= j < cs.len() && slot_matches(#[trigger] kept[i], cs[j]),
        forall|j: int, i1: int, i2: int| #![trigger kept[i1], kept[i2], cs[j]]
            0 <= j < cs.len() && 0 <= i1 < i2 < kept.len() ==> !(slot_matches(kept[i1], cs[j])
                && slot_matches(kept[i2], cs[j])),
    ensures
        apply_started(kept, cs).len() == kept.len(),
        forall|i: int| 0 <= i < kept.len() ==> (#[trigger] apply_started(kept, cs)[i]) is Running,
{
    lemma_apply_preserves(kept, cs);
    assert forall|i: int| 0 <= i < kept.len() implies (#[trigger] apply_started(kept, cs)[i])
        is Running by {
        let j = choose|j: int| 0 <= j < cs.len() && slot_matches(kept[i], cs[j]);
        assert forall|i2: int| 0 <= i2 < kept.len() && i2 != i implies !slot_matches(
            #[trigger] kept[i2],
            cs[j],
        ) by {
            if i2 < i {
                assert(!(slot_matches(kept[i2], cs[j]) && slot_matches(kept[i], cs[j])));
            } else {
                assert(!(slot_matches(kept[i], cs[j]) && slot_matches(kept[i2], cs[j])));
            }
        }
        lemma_slot_becomes_running(kept, cs, i, j, cs.len() as int);
        assert(cs.take(cs.len() as int) =~= cs);
    }
}

/// Once container `j` has been processed, slot `i` is running — where
/// `j` awaits exactly slot `i` among all slots.
proof fn lemma_slot_becomes_running(
    kept: Seq<Transitional>,
    cs: Seq<RunningContainer>,
    i: int,
    j: int,
    m: int,
)
    requires
        0 <= i < kept.len(),
        0 <= j < m <= cs.len(),
        slot_matches(kept[i], cs[j]),
        forall|i2: int|
            0 <= i2 < kept.len() && i2 != i ==> !slot_matches(#[trigger] kept[i2], cs[j]),
    ensures
        apply_started(kept, cs.take(m))[i] is Running,
    decreases m,
{
    lemma_apply_preserves(kept, cs.take(m));
    let res = apply_started(kept, cs.take(m));
    let prev = apply_started(kept, cs.take(m - 1));
    lemma_apply_preserves(kept, cs.take(m - 1));
    assert(cs.take(m).drop_last() =~= cs.take(m - 1));
    assert(cs.take(m).last() == cs[m - 1]);
    assert(res == apply_one(prev, cs[m - 1]));
    lemma_find_slot(prev, cs[m - 1]);
    if m - 1 > j {
        lemma_slot_becomes_running(kept, cs, i, j, m - 1);
        assert(prev[i] is Running);
        let f = find_slot(prev, cs[m - 1]);
        if f >= 0 {
            assert(slot_matches(prev[f], cs[m - 1]));
            assert(f != i);
            assert(res[i] == prev[i]);
        } else {
            assert(res[i] == prev[i]);
        }
    } else {
        // m - 1 == j: slot i either already turned running, or still
        // holds its original value, which is the first and only slot
        // awaiting cs[j].
        if prev[i] is Running {
            let f = find_slot(prev, cs[j]);
            if f >= 0 {
                assert(slot_matches(prev[f], cs[j]));
                assert(f != i);
                assert(res[i] == prev[i]);
            } else {
                assert(res[i] == prev[i]);
            }
        } else {
            assert(prev[i] == kept[i]);
            assert(find_slot(prev, cs[j]) == i) by {
                if find_slot(prev, cs[j]) == -1 {
                    assert(!slot_matches(prev[i], cs[j]));
                } else {
                    let f = find_slot(prev, cs[j]);
                    assert(slot_matches(prev[f], cs[j]));
                    if f < i {
                        assert(prev[f] == kept[f] || prev[f] is Running);
                        assert(!slot_matches(prev[f], cs[j]));
                    } else if f > i {
                        assert(forall|g: int| 0 <= g < f ==> !slot_matches(#[trigger] prev[g], cs[j]));
                        assert(!slot_matches(prev[i], cs[j]));
                    }
                }
            }
            assert(res[i] == Transitional::Running(cs[j]));
        }
    }
}

/// One strict start after another: the session hands out the strict
/// containers in declaration order, one at a time, and stops for good
/// at the first reported failure. Containers already started stay
/// recorded for teardown.
pub struct StrictStartSession {
    /// The strict containers, in declaration order.
    pub pending: Vec<PendingContainer>,
    /// How many have been handed out and reported.
    pub next: usize,
    /// The reported started containers, in start order.
    pub started: Vec<RunningContainer>,
    /// The first reported failure, which ends the session.
    pub error: Option<DockerTestError>,
}

impl StrictStartSession {
    /// The session bookkeeping is consistent.
    pub open spec fn wf(&self) -> bool {
        &&& self.next <= self.pending@.len()
        &&& self.started@.len() == self.next
        &&& (self.error is Some ==> self.next < self.pending@.len())
    }

    /// A fresh session over the strict containers.
    pub fn new(pending: Vec<PendingContainer>) -> (r: StrictStartSession)
        ensures
            r.pending == pending,
            r.next == 0,
            r.started@ == Seq::<RunningContainer>::empty(),
            r.error is None,
            r.wf(),
    {
        StrictStartSession { pending, next: 0, started: Vec::new(), error: None }
    }

    /// The next container to start: the first not yet started, as long
    /// as nothing has failed. `None` once all started or one failed.
    pub fn next_to_start(&self) -> (r: Option<&PendingContainer>)
        ensures
            match r {
                Some(p) => self.error is None && self.next < self.pending@.len() && *p
                    == self.pending@[self.next as int],
                None => self.error is Some || self.next >= self.pending@.len(),
            },
    {
        if self.error.is_some() {
            return None;
        }
        if self.next < self.pending.len() {
            Some(&self.pending[self.next])
        } else {
            None
        }
    }

    /// Records that the container just handed out started.
    pub fn report_started(&mut self, c: RunningContainer)
        requires
            old(self).error is None,
            old(self).next < old(self).pending@.len(),
            old(self).wf(),
        ensures
            final(self).pending == old(self).pending,
            final(self).next == old(self).next + 1,
            final(self).started@ == old(self).started@.push(c),
            final(self).error is None,
            final(self).wf(),
    {
        let limit = self.pending.len();
        proof {
            assert(self.next < limit);
        }
        self.started.push(c);
        self.next = self.next + 1;
    }

    /// Records that the container just handed out failed to start; no
    /// further strict container will be handed out.
    pub fn report_failed(&mut self, e: DockerTestError)
        requires
            old(self).error is None,
            old(self).next < old(self).pending@.len(),
            old(self).wf(),
        ensures
            final(self).pending == old(self).pending,
            final(self).next == old(self).next,
            final(self).started == old(self).started,
            final(self).error == Some(e),
            final(self).wf(),
    {
        self.error = Some(e);
    }

    /// Ends the session: the containers started in order, or the first
    /// failure. On failure, exactly the containers before the failing
    /// position started, and none after it was ever handed out.
    pub fn finish(self) -> (r: Result<Vec<RunningContainer>, (Vec<RunningContainer>, DockerTestError)>)
        requires
            self.wf(),
            self.error is Some || self.next == self.pending@.len(),
        ensures
            match r {
                Ok(started) => self.error is None && started == self.started && started@.len()
                    == self.pending@.len(),
                Err((started, e)) => {
                    &&& self.error == Some(e)
                    &&& started == self.started
                    &&& started@.len() == self.next < self.pending@.len()
                },
            },
    {
        match self.error {
            None => Ok(self.started),
            Some(e) => Err((self.started, e)),
        }
    }
}

/// The outcome of a relaxed start task, as the driver gathered it.
pub enum RelaxedOutcome {
    /// The task completed and the container started.
    Started(RunningContainer),
    /// The task completed but the start failed.
    Failed(DockerTestError),
    /// The task itself could not be joined.
    JoinError,
}

/// The containers of the outcomes that started, in gathering order.
pub open spec fn relaxed_successes(os: Seq<RelaxedOutcome>) -> Seq<RunningContainer>
    decreases os.len(),
{
    if os.len() == 0 {
        Seq::empty()
    } else {
        let rest = relaxed_successes(os.drop_last());
        match os.last() {
            RelaxedOutcome::Started(c) => rest.push(c),
            _ => rest,
        }
    }
}

/// The position of the first outcome that is not a started container,
/// or -1 when every container started.
pub open spec fn first_relaxed_failure(os: Seq<RelaxedOutcome>) -> int
    decreases os.len(),
{
    if os.len() == 0 {
        -1
    } else if !(os[0] is Started) {
        0
    } else {
        let r = first_relaxed_failure(os.drop_first());
        if r < 0 {
            -1
        } else {
            r + 1
        }
    }
}

/// `first_relaxed_failure` finds exactly the first failure.
pub proof fn lemma_first_relaxed_failure(os: Seq<RelaxedOutcome>)
    ensures
        first_relaxed_failure(os) == -1 ==> (forall|j: int|
            0 <= j < os.len() ==> (#[trigger] os[j]) is Started),
        first_relaxed_failure(os) != -1 ==> {
            let k = first_relaxed_failure(os);
            &&& 0 <= k < os.len()
            &&& !(os[k] is Started)
            &&& forall|j: int| 0 <= j < k ==> (#[trigger] os[j]) is Started
        },
    decreases os.len(),
{
    if os.len() > 0 && os[0] is Started {
        let d = os.drop_first();
        lemma_first_relaxed_failure(d);
        let r = first_relaxed_failure(d);
        if r == -1 {
            assert forall|j: int| 0 <= j < os.len() implies (#[trigger] os[j]) is Started by {
                if j > 0 {
                    assert(d[j - 1] == os[j]);
                }
            }
        } else {
            assert(os[r + 1] == d[r]);
            assert forall|j: int| 0 <= j < r + 1 implies (#[trigger] os[j]) is Started by {
                if j > 0 {
                    assert(d[j - 1] == os[j]);
                }
            }
        }
    }
}

/// Gathers the relaxed start outcomes: every outcome is consumed — a
/// failure never prevents the remaining tasks from being reaped — and
/// the first failure, if any, is reported. On an all-started batch the
/// containers are returned in gathering order.
pub fn collect_relaxed_results(outcomes: Vec<RelaxedOutcome>) -> (r: Result<
    Vec<RunningContainer>,
    DockerTestError,
>)
    ensures
        match r {
            Ok(cs) => first_relaxed_failure(outcomes@) == -1 && cs@ == relaxed_successes(
                outcomes@,
            ),
            Err(e) => {
                let k = first_relaxed_failure(outcomes@);
                &&& k >= 0
                &&& match outcomes@[k] {
                    RelaxedOutcome::Started(_) => false,
                    RelaxedOutcome::Failed(e0) => e == e0,
                    RelaxedOutcome::JoinError => e is Processing && e.spec_message()
                        == "join error gathering"@,
                }
            },
        },
{
    let ghost os = outcomes@;
    let mut outcomes = outcomes;
    let mut running: Vec<RunningContainer> = Vec::new();
    let mut first_error: Option<DockerTestError> = None;
    let n = outcomes.len();
    let mut i: usize = 0;
    while i < n
        invariant
            n == os.len(),
            i <= n,
            outcomes@ =~= os.skip(i as int),
            running@ == relaxed_successes(os.take(i as int)),
            match first_error {
                None => first_relaxed_failure(os.take(i as int)) == -1,
                Some(e) => {
                    let k = first_relaxed_failure(os.take(i as int));
                    &&& k >= 0
                    &&& match os.take(i as int)[k] {
                        RelaxedOutcome::Started(_) => false,
                        RelaxedOutcome::Failed(e0) => e == e0,
                        RelaxedOutcome::JoinError => e is Processing && e.spec_message()
                            == "join error gathering"@,
                    }
                },
            },
        decreases n - i,
    {
        proof {
            assert(os.skip(i as int)[0] == os[i as int]);
            assert(os.take(i as int + 1).drop_last() =~= os.take(i as int));
            assert(os.take(i as int + 1).last() == os[i as int]);
            lemma_first_failure_extend(os, i as int);
        }
        let outcome = outcomes.remove(0);
        proof {
            assert(outcomes@ =~= os.skip(i as int + 1));
            assert(outcome == os[i as int]);
        }
        let ghost entry_error = first_error;
        match outcome {
            RelaxedOutcome::Started(c) => {
                proof {
                    assert(os[i as int] is Started);
                    assert(relaxed_successes(os.take(i as int + 1)) == relaxed_successes(
                        os.take(i as int),
                    ).push(c));
                }
                running.push(c);
            },
            RelaxedOutcome::Failed(e) => {
                proof {
                    assert(!(os[i as int] is Started));
                    assert(relaxed_successes(os.take(i as int + 1)) == relaxed_successes(
                        os.take(i as int),
                    ));
                }
                if first_error.is_none() {
                    first_error = Some(e);
                }
            },
            RelaxedOutcome::JoinError => {
                proof {
                    assert(!(os[i as int] is Started));
                    assert(relaxed_successes(os.take(i as int + 1)) == relaxed_successes(
                        os.take(i as int),
                    ));
                }
                if first_error.is_none() {
                    let msg = <String as vstd::string::StringExecFns>::from_str("join error gathering");
                    first_error = Some(DockerTestError::Processing(msg));
                }
            },
        }
        proof {
            if first_error is None {
                assert(entry_error is None);
                assert(os[i as int] is Started);
                assert(first_relaxed_failure(os.take(i as int + 1)) == -1);
            } else {
                let k = first_relaxed_failure(os.take(i as int + 1));
                if entry_error is None {
                    assert(k == i as int);
                    assert(os.take(i as int + 1)[k] == os[i as int]);
                } else {
                    lemma_first_relaxed_failure(os.take(i as int));
                    assert(first_error == entry_error);
                    assert(k == first_relaxed_failure(os.take(i as int)));
                    assert(0 <= k < i as int);
                    assert(os.take(i as int + 1)[k] == os[k]);
                    assert(os.take(i as int)[k] == os[k]);
                }
            }
        }
        i = i + 1;
    }
    proof {
        assert(os.take(n as int) =~= os);
    }
    match first_error {
        None => Ok(running),
        Some(e) => Err(e),
    }
}

/// Extending the gathered prefix by one outcome moves the first failure
/// as expected.
proof fn lemma_first_failure_extend(os: Seq<RelaxedOutcome>, i: int)
    requires
        0 <= i < os.len(),
    ensures
        first_relaxed_failure(os.take(i)) == -1 && os[i] is Started ==> first_relaxed_failure(
            os.take(i + 1),
        ) == -1,
        first_relaxed_failure(os.take(i)) == -1 && !(os[i] is Started) ==> first_relaxed_failure(
            os.take(i + 1),
        ) == i,
        first_relaxed_failure(os.take(i)) != -1 ==> first_relaxed_failure(os.take(i + 1))
            == first_relaxed_failure(os.take(i)),
{
    lemma_first_relaxed_failure(os.take(i));
    lemma_first_relaxed_failure(os.take(i + 1));
    let k = first_relaxed_failure(os.take(i));
    let k1 = first_relaxed_failure(os.take(i + 1));
    assert forall|j: int| 0 <= j < i implies os.take(i + 1)[j] == os.take(i)[j] by {}
    if k == -1 {
        if os[i] is Started {
            if k1 != -1 {
                assert(!(os.take(i + 1)[k1] is Started));
                if k1 < i {
                    assert(os.take(i)[k1] is Started);
                }
            }
        } else {
            assert(!(os.take(i + 1)[i] is Started));
            if k1 < i {
                assert(os.take(i)[k1] is Started);
                assert(!(os.take(i + 1)[k1] is Started));
            }
            assert(k1 == i);
        }
    } else {
        assert(!(os.take(i)[k] is Started));
        assert(!(os.take(i + 1)[k] is Started));
        if k1 < k {
            assert(os.take(i)[k1] is Started);
            assert(!(os.take(i + 1)[k1] is Started));
        }
        if k1 > k {
            assert(os.take(i + 1)[k] is Started);
        }
        assert(k1 == k);
    }
}

/// What the driver gathered from the start step: the strict session's
/// result, the relaxed collection, and the running forms of the static
/// external containers.
pub struct StartOutcome {
    /// Outcome of the serial strict starts.
    pub strict: Result<Vec<RunningContainer>, DockerTestError>,
    /// Outcome of gathering the concurrent relaxed starts.
    pub relaxed: Result<Vec<RunningContainer>, DockerTestError>,
    /// Running forms of the static external containers.
    pub statics: Vec<RunningContainer>,
}

impl Engine<Igniting> {
    /// The failure path out of Igniting: the containers that were
    /// created and must be force-removed, in kept order, and the
    /// creation errors to report, in kept order.
    pub fn cleanup(self) -> (r: (Vec<CleanupContainer>, Vec<DockerTestError>))
        ensures
            r.0@ == pending_cleanups(self.phase.kept@),
            r.1@ == creation_errors(self.phase.kept@),
    {
        let ghost kept0 = self.phase.kept@;
        let mut kept = self.phase.kept;
        let mut to_remove: Vec<CleanupContainer> = Vec::new();
        let mut errors: Vec<DockerTestError> = Vec::new();
        let n = kept.len();
        let mut i: usize = 0;
        while i < n
            invariant
                n == kept0.len(),
                i <= n,
                kept@ =~= kept0.skip(i as int),
                to_remove@ == pending_cleanups(kept0.take(i as int)),
                errors@ == creation_errors(kept0.take(i as int)),
            decreases n - i,
        {
            proof {
                assert(kept0.skip(i as int)[0] == kept0[i as int]);
                assert(kept0.take(i as int + 1).drop_last() =~= kept0.take(i as int));
                assert(kept0.take(i as int + 1).last() == kept0[i as int]);
            }
            let slot = kept.remove(0);
            proof {
                assert(kept@ =~= kept0.skip(i as int + 1));
            }
            match slot {
                Transitional::Pending(p) => {
                    to_remove.push(CleanupContainer {
                        id: p.id,
                        name: p.name,
                        is_static: false,
                        log_options: p.log_options,
                    });
                },
                Transitional::CreationFailure(e) => {
                    errors.push(e);
                },
                _ => {},
            }
            i = i + 1;
        }
        proof {
            assert(kept0.take(n as int) =~= kept0);
        }
        (to_remove, errors)
    }

    /// The start plan: the relaxed pending containers and the strict
    /// pending containers, each in declaration order.
    pub fn start_plan(&self) -> (r: (Vec<PendingContainer>, Vec<PendingContainer>))
        ensures
            r.0@ == pending_with_policy(self.phase.kept@, StartPolicy::Relaxed),
            r.1@ == pending_with_policy(self.phase.kept@, StartPolicy::Strict),
    {
        let kept = &self.phase.kept;
        let mut relaxed: Vec<PendingContainer> = Vec::new();
        let mut strict: Vec<PendingContainer> = Vec::new();
        let n = kept.len();
        let mut i: usize = 0;
        while i < n
            invariant
                n == kept@.len(),
                kept == &self.phase.kept,
                i <= n,
                relaxed@ == pending_with_policy(kept@.take(i as int), StartPolicy::Relaxed),
                strict@ == pending_with_policy(kept@.take(i as int), StartPolicy::Strict),
            decreases n - i,
        {
            proof {
                assert(kept@.take(i as int + 1).drop_last() =~= kept@.take(i as int));
                assert(kept@.take(i as int + 1).last() == kept@[i as int]);
            }
            match &kept[i] {
                Transitional::Pending(p) => {
                    if matches!(p.start_policy, StartPolicy::Relaxed) {
                        relaxed.push(p.clone());
                    } else {
                        strict.push(p.clone());
                    }
                },
                _ => {},
            }
            i = i + 1;
        }
        proof {
            assert(kept@.take(n as int) =~= kept@);
        }
        (relaxed, strict)
    }

    /// Moves to Orbiting if everything started. A strict failure is
    /// reported first; a relaxed failure never masks it, and either way
    /// the engine is handed back unchanged, still in Igniting, so that
    /// `cleanup` can destroy what was created. On success every started
    /// container is matched back to its slot — a pending slot by daemon
    /// identifier, a static slot by handle — in place, so the kept order
    /// and the keeper's indices survive.
    pub fn orbiting(self, outcome: StartOutcome) -> (r: Result<
        Engine<Orbiting>,
        (Engine<Igniting>, DockerTestError),
    >)
        ensures
            match r {
                Ok(engine) => {
                    &&& outcome.strict is Ok
                    &&& outcome.relaxed is Ok
                    &&& engine.keeper == self.keeper
                    &&& engine.phase.kept@ == apply_started(
                        self.phase.kept@,
                        outcome.strict->Ok_0@ + outcome.relaxed->Ok_0@ + outcome.statics@,
                    )
                },
                Err((engine, e)) => {
                    &&& engine == self
                    &&& (outcome.strict is Err ==> e == outcome.strict->Err_0)
                    &&& (outcome.strict is Ok ==> outcome.relaxed is Err && e
                        == outcome.relaxed->Err_0)
                },
            },
    {
        let StartOutcome { strict, relaxed, statics } = outcome;
        let strict_started = match strict {
            Ok(cs) => cs,
            Err(e) => {
                return Err((self, e));
            },
        };
        let relaxed_started = match relaxed {
            Ok(cs) => cs,
            Err(e) => {
                return Err((self, e));
            },
        };
        let mut containers = strict_started;
        let mut relaxed_started = relaxed_started;
        let mut statics = statics;
        containers.append(&mut relaxed_started);
        containers.append(&mut statics);
        let ghost all = containers@;
        let ghost kept0 = self.phase.kept@;
        let mut engine = Engine::<Orbiting> {
            keeper: self.keeper,
            phase: Orbiting { kept: self.phase.kept },
        };
        let n = containers.len();
        let mut t: usize = 0;
        while t < n
            invariant
                n == all.len(),
                t <= n,
                containers@ =~= all.skip(t as int),
                engine.keeper == self.keeper,
                engine.phase.kept@ == apply_started(kept0, all.take(t as int)),
            decreases n - t,
        {
            proof {
                assert(all.skip(t as int)[0] == all[t as int]);
                assert(all.take(t as int + 1).drop_last() =~= all.take(t as int));
                assert(all.take(t as int + 1).last() == all[t as int]);
            }
            let c = containers.remove(0);
            proof {
                assert(containers@ =~= all.skip(t as int + 1));
            }
            let ghost before = engine.phase.kept@;
            let m = engine.phase.kept.len();
            let mut pos: usize = 0;
            let mut found = false;
            while pos < m && !found
                invariant
                    m == engine.phase.kept@.len(),
                    engine.phase.kept@ == before,
                    pos <= m,
                    c == all[t as int],
                    !found ==> forall|g: int|
                        0 <= g < pos ==> !slot_matches(#[trigger] before[g], c),
                    found ==> pos < m && slot_matches(before[pos as int], c) && (forall|g: int|
                        0 <= g < pos ==> !slot_matches(#[trigger] before[g], c)),
                decreases (if found { 0int } else { 1int }), m - pos,
            {
                let matched = match &engine.phase.kept[pos] {
                    Transitional::Pending(p) => crate::text::string_eq(&p.id, &c.id),
                    Transitional::StaticExternal(e) => crate::text::string_eq(&e.handle, &c.handle),
                    _ => false,
                };
                if matched {
                    found = true;
                } else {
                    pos = pos + 1;
                }
            }
            if found {
                proof {
                    lemma_find_slot(before, c);
                    assert(find_slot(before, c) == pos);
                }
                engine.phase.kept[pos] = Transitional::Running(c);
                proof {
                    assert(engine.phase.kept@ =~= apply_one(before, all[t as int]));
                }
            } else {
                proof {
                    lemma_find_slot(before, c);
                    assert(find_slot(before, c) == -1);
                    assert(engine.phase.kept@ =~= apply_one(before, all[t as int]));
                }
            }
            t = t + 1;
        }
        proof {
            assert(all.take(n as int) =~= all);
            assert(engine.phase.kept@ == apply_started(kept0, all));
            assert(all =~= outcome.strict->Ok_0@ + outcome.relaxed->Ok_0@ + outcome.statics@);
        }
        Ok(engine)
    }
}

} // verus!
