//! The run configuration and the test body's view of the environment.

use vstd::prelude::*;
use vstd::string::StringExecFns;

use crate::composition::{Composition, Source};
use crate::container::RunningContainer;
use crate::error::DockerTestError;
use crate::keeper::Keeper;
use crate::naming::{generate_random_string, is_lower_alpha_tag, RANDOM_TAG_LEN};

verus! {

/// A single test run in the making: the batch of compositions and the
/// run-wide settings. The daemon client that executes the run lives
/// outside the library and drives the engine with these values.
pub struct DockerTest {
    /// The compositions, in the order `add_composition` received them.
    pub compositions: Vec<Composition>,
    /// Prefix of every final container name.
    pub namespace: String,
    /// Pull source for images without one of their own.
    pub default_source: Source,
    /// Suffixed named-volume names recorded for teardown.
    pub named_volumes: Vec<String>,
    /// The run's network name.
    pub network: String,
    /// Identifier of the harness's own container, when the harness
    /// itself runs inside one.
    pub container_id: Option<String>,
    /// The run identifier: a 20-letter random tag.
    pub id: String,
}

impl DockerTest {
    /// The settings a fresh run starts with: no compositions, the
    /// `dockertest-rs` namespace, the local daemon as image source, and
    /// a network named `dockertest-rs-{runId}` for a fresh random run
    /// identifier.
    pub open spec fn spec_fresh(&self) -> bool {
        &&& self.compositions@ == Seq::<Composition>::empty()
        &&& self.namespace@ == "dockertest-rs"@
        &&& self.default_source == Source::Local
        &&& self.named_volumes@ == Seq::<String>::empty()
        &&& is_lower_alpha_tag(self.id@, RANDOM_TAG_LEN as int)
        &&& self.network@ == "dockertest-rs"@ + seq!['-'] + self.id@
        &&& self.container_id is None
    }

    /// A fresh run.
    pub fn new() -> (r: DockerTest)
        ensures
            r.spec_fresh(),
    {
        Self::default()
    }

    /// The default source for images without one of their own.
    pub fn source(&self) -> (r: &Source)
        ensures
            r == &self.default_source,
    {
        &self.default_source
    }

    /// Replaces the default image source.
    pub fn with_default_source(self, default_source: Source) -> (r: DockerTest)
        ensures
            r == (DockerTest { default_source, ..self }),
    {
        DockerTest { default_source, ..self }
    }

    /// Replaces the namespace prefixed to every container name.
    pub fn with_namespace(self, name: &str) -> (r: DockerTest)
        ensures
            r.namespace@ == name@,
            r == (DockerTest { namespace: r.namespace, ..self }),
    {
        DockerTest { namespace: name.to_owned(), ..self }
    }

    /// Appends a composition to the batch.
    pub fn add_composition(&mut self, instance: Composition)
        ensures
            final(self).compositions@ == old(self).compositions@.push(instance),
            *final(self) == (DockerTest { compositions: final(self).compositions, ..*old(self) }),
    {
        self.compositions.push(instance);
    }

    /// Records whether the harness itself runs inside a container; set
    /// from the `DOCKERTEST_CONTAINER_ID_INJECT_TO_NETWORK` environment
    /// variable. With an identifier present, that container is joined
    /// to the run's network for the test's duration.
    pub fn set_container_id(&mut self, container_id: Option<String>)
        ensures
            final(self).container_id == container_id,
            *final(self) == (DockerTest { container_id: final(self).container_id, ..*old(self) }),
    {
        self.container_id = container_id;
    }

    /// Hands the batch over to the engine; the run keeps its settings.
    pub fn take_compositions(&mut self) -> (r: Vec<Composition>)
        ensures
            r == old(self).compositions,
            final(self).compositions@ == Seq::<Composition>::empty(),
            *final(self) == (DockerTest { compositions: final(self).compositions, ..*old(self) }),
    {
        let mut taken: Vec<Composition> = Vec::new();
        core::mem::swap(&mut self.compositions, &mut taken);
        taken
    }
}

impl Default for DockerTest {
    /// A fresh run with a fresh random identifier.
    fn default() -> (r: DockerTest)
        ensures
            r.spec_fresh(),
    {
        let id = generate_random_string(RANDOM_TAG_LEN);
        let network = crate::naming::build_suffixed_name("dockertest-rs", id.as_str());
        let namespace = <String as StringExecFns>::from_str("dockertest-rs");
        DockerTest {
            compositions: Vec::new(),
            namespace,
            default_source: Source::Local,
            named_volumes: Vec::new(),
            network,
            container_id: None,
            id,
        }
    }
}

/// The message reported when a handle was defined more than once.
pub open spec fn spec_collision_msg(handle: Seq<char>) -> Seq<char> {
    "handle '"@ + handle + "' defined multiple times"@
}

/// The message reported when a handle matches no container.
pub open spec fn spec_missing_msg(handle: Seq<char>) -> Seq<char> {
    "container with handle '"@ + handle + "' not found"@
}

fn collision_message(handle: &str) -> (r: String)
    ensures
        r@ == spec_collision_msg(handle@),
{
    let mut r = <String as StringExecFns>::from_str("handle '");
    r.append(handle);
    r.append("' defined multiple times");
    proof {
        assert(r@ =~= spec_collision_msg(handle@));
    }
    r
}

fn missing_message(handle: &str) -> (r: String)
    ensures
        r@ == spec_missing_msg(handle@),
{
    let mut r = <String as StringExecFns>::from_str("container with handle '");
    r.append(handle);
    r.append("' not found");
    proof {
        assert(r@ =~= spec_missing_msg(handle@));
    }
    r
}

/// The test body's window into the running environment: it resolves
/// handles to running containers, and nothing more. It holds only the
/// lookup tables and copies of the container data, never the daemon
/// resources themselves.
pub struct DockerOperations {
    /// The handle-to-index table of the run.
    pub keeper: Keeper,
    /// The running containers, in kept order.
    pub containers: Vec<RunningContainer>,
}

impl DockerOperations {
    /// Every recorded index lands in `containers`.
    pub open spec fn wf(&self) -> bool {
        self.keeper.bounded(self.containers@.len() as int)
    }

    /// Resolves `handle`: the container recorded under it, or a
    /// test-body error naming the handle — one message when the handle
    /// was defined more than once, another when it is unknown.
    pub fn try_handle(&self, handle: &str) -> (r: Result<&RunningContainer, DockerTestError>)
        requires
            self.wf(),
        ensures
            match r {
                Ok(c) => {
                    &&& !self.keeper.spec_collides(handle@)
                    &&& self.keeper.spec_lookup(handle@) is Some
                    &&& *c == self.containers@[self.keeper.spec_lookup(handle@)->Some_0 as int]
                },
                Err(e) => {
                    &&& e is TestBody
                    &&& (self.keeper.spec_collides(handle@) || self.keeper.spec_lookup(handle@)
                        is None)
                    &&& e.spec_message() == (if self.keeper.spec_collides(handle@) {
                        spec_collision_msg(handle@)
                    } else {
                        spec_missing_msg(handle@)
                    })
                },
            },
    {
        let h = handle.to_owned();
        if self.keeper.is_collision(&h) {
            return Err(DockerTestError::TestBody(collision_message(handle)));
        }
        match self.keeper.lookup(&h) {
            None => Err(DockerTestError::TestBody(missing_message(handle))),
            Some(index) => Ok(&self.containers[index]),
        }
    }

    /// Resolves `handle` to its running container. The handle must be
    /// known and defined exactly once; `try_handle` reports the cases
    /// this function rules out.
    pub fn handle(&self, handle: &str) -> (r: &RunningContainer)
        requires
            self.wf(),
            !self.keeper.spec_collides(handle@),
            self.keeper.spec_lookup(handle@) is Some,
        ensures
            *r == self.containers@[self.keeper.spec_lookup(handle@)->Some_0 as int],
    {
        match self.try_handle(handle) {
            Ok(c) => c,
            // Unreachable: the preconditions rule both errors out.
            Err(_) => vstd::pervasive::unreached(),
        }
    }
}

/// The suffixed name of a user volume: `{id}-{runId}`.
pub open spec fn spec_suffixed_volume(id: Seq<char>, run_id: Seq<char>) -> Seq<char> {
    id + seq!['-'] + run_id
}

/// The mount binding handed to the daemon: `{id}-{runId}:{path}`.
pub open spec fn spec_volume_binding(id: Seq<char>, run_id: Seq<char>, path: Seq<char>) -> Seq<
    char,
> {
    spec_suffixed_volume(id, run_id) + seq![':'] + path
}

/// Every volume id referenced by the batch, in reference order.
pub open spec fn spec_volume_ids(cs: Seq<Composition>) -> Seq<Seq<char>>
    decreases cs.len(),
{
    if cs.len() == 0 {
        Seq::empty()
    } else {
        spec_volume_ids(cs.drop_last()) + cs.last().named_volumes@.map_values(
            |p: (String, String)| p.0@,
        )
    }
}

/// The distinct elements of `s`, each at its first occurrence.
pub open spec fn spec_first_occurrences(s: Seq<Seq<char>>) -> Seq<Seq<char>>
    decreases s.len(),
{
    if s.len() == 0 {
        Seq::empty()
    } else {
        let rest = spec_first_occurrences(s.drop_last());
        if s.drop_last().contains(s.last()) {
            rest
        } else {
            rest.push(s.last())
        }
    }
}

impl DockerTest {
    /// Determines the final name of every named volume and rewrites the
    /// batch accordingly: a user-provided volume `id` mounted at `path`
    /// becomes the binding `{id}-{runId}:{path}`, the same `id` in any
    /// composition resolving to the same suffixed name. The suffixed
    /// names are recorded, first occurrence first, so teardown can
    /// remove the volumes later.
    pub fn resolve_named_volumes(&mut self)
        ensures
            *final(self) == (DockerTest {
                compositions: final(self).compositions,
                named_volumes: final(self).named_volumes,
                ..*old(self)
            }),
            final(self).named_volumes@.len() == spec_first_occurrences(
                spec_volume_ids(old(self).compositions@),
            ).len(),
            forall|t: int|
                0 <= t < final(self).named_volumes@.len()
                    ==> (#[trigger] final(self).named_volumes@[t])@ == spec_suffixed_volume(
                    spec_first_occurrences(spec_volume_ids(old(self).compositions@))[t],
                    old(self).id@,
                ),
            final(self).compositions@.len() == old(self).compositions@.len(),
            forall|i: int|
                0 <= i < old(self).compositions@.len() ==> {
                    let oldc = old(self).compositions@[i];
                    let newc = #[trigger] final(self).compositions@[i];
                    &&& newc == (Composition {
                        final_named_volume_names: newc.final_named_volume_names,
                        ..oldc
                    })
                    &&& newc.final_named_volume_names@.len() == oldc.named_volumes@.len()
                    &&& forall|t: int|
                        0 <= t < oldc.named_volumes@.len()
                            ==> (#[trigger] newc.final_named_volume_names@[t])@
                            == spec_volume_binding(
                            oldc.named_volumes@[t].0@,
                            old(self).id@,
                            oldc.named_volumes@[t].1@,
                        )
                },
    {
        let ghost cs = self.compositions@;
        let ghost run_id_view = self.id@;
        let mut taken: Vec<Composition> = Vec::new();
        core::mem::swap(&mut self.compositions, &mut taken);
        let mut seen: Vec<String> = Vec::new();
        let mut suffixed: Vec<String> = Vec::new();
        let n = taken.len();
        let mut k: usize = 0;
        while k < n
            invariant
                n == cs.len(),
                run_id_view == self.id@,
                *self == (DockerTest {
                    compositions: self.compositions,
                    named_volumes: self.named_volumes,
                    ..*old(self)
                }),
                k <= n,
                taken@ =~= cs.skip(k as int),
                self.compositions@.len() == k,
                seen@.len() == spec_first_occurrences(spec_volume_ids(cs.take(k as int))).len(),
                forall|t: int|
                    0 <= t < seen@.len() ==> (#[trigger] seen@[t])@ == spec_first_occurrences(
                        spec_volume_ids(cs.take(k as int)),
                    )[t],
                suffixed@.len() == seen@.len(),
                forall|t: int|
                    0 <= t < suffixed@.len() ==> (#[trigger] suffixed@[t])@ == spec_suffixed_volume(
                        spec_first_occurrences(spec_volume_ids(cs.take(k as int)))[t],
                        run_id_view,
                    ),
                forall|x: Seq<char>|
                    (exists|i: int| 0 <= i < seen@.len() && (#[trigger] seen@[i])@ == x)
                        <==> spec_volume_ids(cs.take(k as int)).contains(x),
                forall|i: int|
                    0 <= i < k ==> {
                        let oldc = cs[i];
                        let newc = #[trigger] self.compositions@[i];
                        &&& newc == (Composition {
                            final_named_volume_names: newc.final_named_volume_names,
                            ..oldc
                        })
                        &&& newc.final_named_volume_names@.len() == oldc.named_volumes@.len()
                        &&& forall|t: int|
                            0 <= t < oldc.named_volumes@.len()
                                ==> (#[trigger] newc.final_named_volume_names@[t])@
                                == spec_volume_binding(
                                oldc.named_volumes@[t].0@,
                                run_id_view,
                                oldc.named_volumes@[t].1@,
                            )
                    },
            decreases n - k,
        {
            proof {
                assert(cs.skip(k as int)[0] == cs[k as int]);
            }
            let mut c = taken.remove(0);
            proof {
                assert(taken@ =~= cs.skip(k as int + 1));
                assert(c == cs[k as int]);
            }
            let ghost comp_ids = c.named_volumes@.map_values(|p: (String, String)| p.0@);
            let ghost base = spec_volume_ids(cs.take(k as int));
            let mut bindings: Vec<String> = Vec::new();
            let m = c.named_volumes.len();
            let mut j: usize = 0;
            while j < m
                invariant
                    run_id_view == self.id@,
                    c == cs[k as int],
                    comp_ids == c.named_volumes@.map_values(|p: (String, String)| p.0@),
                    base == spec_volume_ids(cs.take(k as int)),
                    m == c.named_volumes@.len(),
                    j <= m,
                    bindings@.len() == j,
                    forall|t: int|
                        0 <= t < j ==> (#[trigger] bindings@[t])@ == spec_volume_binding(
                            c.named_volumes@[t].0@,
                            run_id_view,
                            c.named_volumes@[t].1@,
                        ),
                    seen@.len() == spec_first_occurrences(base + comp_ids.take(j as int)).len(),
                    forall|t: int|
                        0 <= t < seen@.len() ==> (#[trigger] seen@[t])@ == spec_first_occurrences(
                            base + comp_ids.take(j as int),
                        )[t],
                    suffixed@.len() == seen@.len(),
                    forall|t: int|
                        0 <= t < suffixed@.len() ==> (#[trigger] suffixed@[t])@
                            == spec_suffixed_volume(
                            spec_first_occurrences(base + comp_ids.take(j as int))[t],
                            run_id_view,
                        ),
                    forall|x: Seq<char>|
                        (exists|i: int| 0 <= i < seen@.len() && (#[trigger] seen@[i])@ == x)
                            <==> (base + comp_ids.take(j as int)).contains(x),
                decreases m - j,
            {
                let id = c.named_volumes[j].0.clone();
                let suffixed_name = crate::naming::build_suffixed_name(
                    id.as_str(),
                    self.id.as_str(),
                );
                let mut binding = suffixed_name.clone();
                binding.append(":");
                binding.append(c.named_volumes[j].1.as_str());
                proof {
                    reveal_strlit(":");
                    assert(":"@ =~= seq![':']);
                    assert(binding@ =~= spec_volume_binding(
                        id@,
                        run_id_view,
                        c.named_volumes@[j as int].1@,
                    ));
                    assert(comp_ids[j as int] == id@);
                }
                bindings.push(binding);
                let ghost before = base + comp_ids.take(j as int);
                let ghost after = base + comp_ids.take(j as int + 1);
                proof {
                    assert(after =~= before.push(id@));
                    assert(after.drop_last() =~= before);
                    assert(after.last() == id@);
                }
                let ghost seen_before = seen@;
                if !crate::text::contains_string(&seen, &id) {
                    proof {
                        assert(!before.contains(id@));
                        assert(spec_first_occurrences(after) =~= spec_first_occurrences(
                            before,
                        ).push(id@));
                    }
                    let ghost id_view = id@;
                    seen.push(id);
                    suffixed.push(suffixed_name);
                    proof {
                        let firsts = spec_first_occurrences(after);
                        assert(seen@ == seen_before.push(seen@[seen@.len() - 1]));
                        assert((seen@[seen@.len() - 1])@ == id_view);
                        assert(seen@.len() == firsts.len());
                        assert forall|t: int| 0 <= t < seen@.len() implies (#[trigger] seen@[t])@
                            == firsts[t] by {
                            if t < seen@.len() - 1 {
                                assert(seen@[t] == seen_before[t]);
                                assert(firsts[t] == spec_first_occurrences(before)[t]);
                            }
                        }
                        assert forall|t: int| 0 <= t < suffixed@.len() implies (
                        #[trigger] suffixed@[t])@ == spec_suffixed_volume(
                            firsts[t],
                            run_id_view,
                        ) by {
                            if t < suffixed@.len() - 1 {
                                assert(firsts[t] == spec_first_occurrences(before)[t]);
                            }
                        }
                        assert forall|x: Seq<char>|
                            (exists|i: int| 0 <= i < seen@.len() && (#[trigger] seen@[i])@ == x)
                                <==> after.contains(x) by {
                            if exists|i: int| 0 <= i < seen@.len() && (#[trigger] seen@[i])@ == x {
                                let i = choose|i: int|
                                    0 <= i < seen@.len() && (#[trigger] seen@[i])@ == x;
                                if i < seen@.len() - 1 {
                                    assert(seen@[i] == seen_before[i]);
                                    assert((seen_before[i])@ == x);
                                    assert(before.contains(x));
                                    let b = choose|b: int|
                                        0 <= b < before.len() && before[b] == x;
                                    assert(after[b] == x);
                                } else {
                                    assert(x == id_view);
                                    assert(after[after.len() - 1] == x);
                                }
                            }
                            if after.contains(x) {
                                let b = choose|b: int| 0 <= b < after.len() && after[b] == x;
                                if b < before.len() {
                                    assert(before[b] == x);
                                    assert(before.contains(x));
                                    let i = choose|i: int|
                                        0 <= i < seen_before.len() && (
                                        #[trigger] seen_before[i])@ == x;
                                    assert(seen@[i] == seen_before[i]);
                                    assert((seen@[i])@ == x);
                                } else {
                                    assert(x == id_view);
                                    assert((seen@[seen@.len() - 1])@ == x);
                                }
                            }
                        }
                    }
                } else {
                    proof {
                        assert(before.contains(id@));
                        assert(spec_first_occurrences(after) =~= spec_first_occurrences(before));
                        assert forall|x: Seq<char>|
                            (exists|i: int| 0 <= i < seen@.len() && (#[trigger] seen@[i])@ == x)
                                <==> after.contains(x) by {
                            if after.contains(x) {
                                let b = choose|b: int| 0 <= b < after.len() && after[b] == x;
                                if b < before.len() {
                                    assert(before[b] == x);
                                    assert(before.contains(x));
                                } else {
                                    assert(x == id@);
                                }
                            }
                            if before.contains(x) {
                                let b = choose|b: int|
                                    0 <= b < before.len() && before[b] == x;
                                assert(after[b] == x);
                            }
                        }
                    }
                }
                j = j + 1;
            }
            proof {
                assert(comp_ids.take(m as int) =~= comp_ids);
                assert(cs.take(k as int + 1).drop_last() =~= cs.take(k as int));
                assert(cs.take(k as int + 1).last() == cs[k as int]);
                assert(spec_volume_ids(cs.take(k as int + 1)) == base + comp_ids);
            }
            c.final_named_volume_names = bindings;
            self.compositions.push(c);
            k = k + 1;
        }
        proof {
            assert(cs.take(n as int) =~= cs);
        }
        self.named_volumes = suffixed;
    }
}

/// The position of the first container whose id reads `id`, or -1.
pub open spec fn find_by_id(cs: Seq<RunningContainer>, id: Seq<char>) -> int
    decreases cs.len(),
{
    if cs.len() == 0 {
        -1
    } else if cs[0].id@ == id {
        0
    } else {
        let r = find_by_id(cs.drop_first(), id);
        if r < 0 {
            -1
        } else {
            r + 1
        }
    }
}

/// `find_by_id` finds exactly the first container with the id.
pub proof fn lemma_find_by_id(cs: Seq<RunningContainer>, id: Seq<char>)
    ensures
        find_by_id(cs, id) == -1 ==> (forall|j: int|
            0 <= j < cs.len() ==> (#[trigger] cs[j]).id@ != id),
        find_by_id(cs, id) != -1 ==> {
            let i = find_by_id(cs, id);
            &&& 0 <= i < cs.len()
            &&& cs[i].id@ == id
            &&& forall|j: int| 0 <= j < i ==> (#[trigger] cs[j]).id@ != id
        },
    decreases cs.len(),
{
    if cs.len() > 0 && cs[0].id@ != id {
        let d = cs.drop_first();
        lemma_find_by_id(d, id);
        let r = find_by_id(d, id);
        if r == -1 {
            assert forall|j: int| 0 <= j < cs.len() implies (#[trigger] cs[j]).id@ != id by {
                if j > 0 {
                    assert(d[j - 1] == cs[j]);
                }
            }
        } else {
            assert(cs[r + 1] == d[r]);
            assert forall|j: int| 0 <= j < r + 1 implies (#[trigger] cs[j]).id@ != id by {
                if j > 0 {
                    assert(d[j - 1] == cs[j]);
                }
            }
        }
    }
}

/// The containers reordered by the id list: for each id in order, the
/// container bearing it, if one does.
pub open spec fn spec_in_id_order(cs: Seq<RunningContainer>, ids: Seq<String>) -> Seq<
    RunningContainer,
>
    decreases ids.len(),
{
    if ids.len() == 0 {
        Seq::empty()
    } else {
        let rest = spec_in_id_order(cs, ids.drop_last());
        let f = find_by_id(cs, ids.last()@);
        if f < 0 {
            rest
        } else {
            rest.push(cs[f])
        }
    }
}

/// For any id not yet consumed, the remaining containers still hold
/// the container the original batch holds for it, findable by id.
pub open spec fn id_tracked(
    cs0: Seq<RunningContainer>,
    rest: Seq<RunningContainer>,
    ids: Seq<String>,
    k: int,
    x: Seq<char>,
) -> bool {
    (forall|t: int| 0 <= t < k ==> (#[trigger] ids[t])@ != x) ==> {
        let f = find_by_id(cs0, x);
        let g = find_by_id(rest, x);
        &&& (f < 0 <==> g < 0)
        &&& (f >= 0 ==> 0 <= g < rest.len() && rest[g] == cs0[f])
    }
}

/// `c` is one of the batch's containers.
pub open spec fn from_batch(cs0: Seq<RunningContainer>, c: RunningContainer) -> bool {
    exists|a: int| 0 <= a < cs0.len() && c == #[trigger] cs0[a]
}

/// Removing one element cannot make an absent id present.
proof fn lemma_remove_keeps_absent(rest: Seq<RunningContainer>, pos: int, x: Seq<char>)
    requires
        0 <= pos < rest.len(),
        forall|j: int| 0 <= j < rest.len() ==> (#[trigger] rest[j]).id@ != x,
    ensures
        find_by_id(rest.remove(pos), x) == -1,
{
    lemma_find_by_id(rest.remove(pos), x);
    if find_by_id(rest.remove(pos), x) != -1 {
        let g = find_by_id(rest.remove(pos), x);
        let g0 = if g < pos {
            g
        } else {
            g + 1
        };
        assert(rest.remove(pos)[g] == rest[g0]);
    }
}

/// Reorders started containers back into the batch's insertion order,
/// given the container ids in that order: afterwards the vector holds,
/// for each id in order, the container bearing it, and every container
/// found its place — the result is the old vector permuted. Containers
/// are matched by daemon id; the ids are listed once each, every
/// container's id is listed, and no two containers share an id.
pub fn sort_running_containers_into_insertion_order(
    running: &mut Vec<RunningContainer>,
    insertion_order_ids: Vec<String>,
)
    requires
        forall|a: int, b: int|
            0 <= a < b < old(running)@.len() ==> (#[trigger] old(running)@[a]).id@ != (
            #[trigger] old(running)@[b]).id@,
        forall|a: int, b: int|
            0 <= a < b < insertion_order_ids@.len() ==> (#[trigger] insertion_order_ids@[a])@ != (
            #[trigger] insertion_order_ids@[b])@,
        forall|a: int|
            0 <= a < old(running)@.len() ==> exists|t: int|
                0 <= t < insertion_order_ids@.len() && (#[trigger] insertion_order_ids@[t])@ == (
                #[trigger] old(running)@[a]).id@,
    ensures
        final(running)@ == spec_in_id_order(old(running)@, insertion_order_ids@),
        final(running)@.len() == old(running)@.len(),
{
    let ghost cs0 = running@;
    let ghost ids = insertion_order_ids@;
    let mut out: Vec<RunningContainer> = Vec::new();
    let mut rest: Vec<RunningContainer> = Vec::new();
    core::mem::swap(running, &mut rest);
    proof {
        assert(rest@ == cs0);
        assert forall|x: Seq<char>| #[trigger] id_tracked(cs0, rest@, ids, 0, x) by {
            lemma_find_by_id(cs0, x);
        }
        assert forall|j: int| 0 <= j < rest@.len() implies from_batch(
            cs0,
            #[trigger] rest@[j],
        ) by {
            assert(rest@[j] == cs0[j]);
        }
    }
    let n = insertion_order_ids.len();
    let mut k: usize = 0;
    while k < n
        invariant
            ids == insertion_order_ids@,
            n == ids.len(),
            k <= n,
            forall|a: int, b: int|
                0 <= a < b < ids.len() ==> (#[trigger] ids[a])@ != (#[trigger] ids[b])@,
            out@ == spec_in_id_order(cs0, ids.take(k as int)),
            out@.len() + rest@.len() == cs0.len(),
            forall|a: int, b: int|
                0 <= a < b < rest@.len() ==> (#[trigger] rest@[a]).id@ != (
                #[trigger] rest@[b]).id@,
            forall|x: Seq<char>| #[trigger] id_tracked(cs0, rest@, ids, k as int, x),
            forall|t: int| 0 <= t < k ==> find_by_id(rest@, (#[trigger] ids[t])@) == -1,
            forall|j: int| 0 <= j < rest@.len() ==> from_batch(cs0, #[trigger] rest@[j]),
        decreases n - k,
    {
        let ghost idk = ids[k as int]@;
        proof {
            assert(ids.take(k as int + 1).drop_last() =~= ids.take(k as int));
            assert(ids.take(k as int + 1).last() == ids[k as int]);
            lemma_find_by_id(cs0, idk);
            lemma_find_by_id(rest@, idk);
            assert(id_tracked(cs0, rest@, ids, k as int, idk));
            assert forall|t: int| 0 <= t < k implies (#[trigger] ids[t])@ != idk by {
                assert(ids[t]@ != ids[k as int]@);
            }
        }
        let id = &insertion_order_ids[k];
        let m = rest.len();
        let mut pos: usize = 0;
        let mut found = false;
        while pos < m && !found
            invariant
                m == rest@.len(),
                pos <= m,
                id@ == idk,
                !found ==> forall|g: int| 0 <= g < pos ==> (#[trigger] rest@[g]).id@ != id@,
                found ==> pos < m && rest@[pos as int].id@ == id@ && (forall|g: int|
                    0 <= g < pos ==> (#[trigger] rest@[g]).id@ != id@),
            decreases (if found { 0int } else { 1int }), m - pos,
        {
            if crate::text::string_eq(&rest[pos].id, id) {
                found = true;
            } else {
                pos = pos + 1;
            }
        }
        if found {
            proof {
                assert(find_by_id(rest@, idk) == pos);
                assert(find_by_id(cs0, idk) >= 0);
            }
            let ghost rest_before = rest@;
            let c = rest.remove(pos);
            proof {
                assert(c == cs0[find_by_id(cs0, idk)]);
            }
            out.push(c);
            proof {
                assert(rest_before[pos as int].id@ == ids[k as int]@);
                lemma_removed_keeps_others(rest_before, pos as int, cs0, ids, k as int);
                assert(rest@ == rest_before.remove(pos as int));
                assert(out@ == spec_in_id_order(cs0, ids.take(k as int + 1)));
                assert forall|t: int| 0 <= t < k + 1 implies find_by_id(
                    rest@,
                    (#[trigger] ids[t])@,
                ) == -1 by {
                    if t < k {
                        lemma_find_by_id(rest_before, (ids[t])@);
                        lemma_remove_keeps_absent(rest_before, pos as int, (ids[t])@);
                    } else {
                        lemma_find_by_id(rest@, idk);
                        if find_by_id(rest@, idk) != -1 {
                            let g = find_by_id(rest@, idk);
                            let g0 = if g < pos {
                                g
                            } else {
                                g + 1
                            };
                            assert(rest@[g] == rest_before[g0]);
                            assert(g0 != pos);
                            if g0 < pos {
                                assert(rest_before[g0].id@ != rest_before[pos as int].id@);
                            } else {
                                assert(rest_before[pos as int].id@ != rest_before[g0].id@);
                            }
                        }
                    }
                }
                assert forall|j: int| 0 <= j < rest@.len() implies from_batch(
                    cs0,
                    #[trigger] rest@[j],
                ) by {
                    let j0 = if j < pos {
                        j
                    } else {
                        j + 1
                    };
                    assert(rest@[j] == rest_before[j0]);
                    assert(from_batch(cs0, rest_before[j0]));
                }
            }
        } else {
            proof {
                assert(find_by_id(rest@, idk) == -1);
                assert(find_by_id(cs0, idk) < 0);
                assert(out@ == spec_in_id_order(cs0, ids.take(k as int + 1)));
                assert forall|x: Seq<char>| #[trigger]
                    id_tracked(cs0, rest@, ids, k as int + 1, x) by {
                    assert(id_tracked(cs0, rest@, ids, k as int, x));
                }
            }
        }
        k = k + 1;
    }
    proof {
        assert(ids.take(n as int) =~= ids);
        if rest@.len() > 0 {
            assert(from_batch(cs0, rest@[0]));
            let a = choose|a: int| 0 <= a < cs0.len() && rest@[0] == #[trigger] cs0[a];
            let t = choose|t: int|
                0 <= t < ids.len() && (#[trigger] ids[t])@ == cs0[a].id@;
            lemma_find_by_id(rest@, (ids[t])@);
            assert(find_by_id(rest@, (ids[t])@) == -1);
            assert(rest@[0].id@ != (ids[t])@);
        }
        assert(rest@.len() == 0);
    }
    core::mem::swap(running, &mut out);
}

/// Removing the container taken for one id leaves every other id's
/// container findable, unchanged.
proof fn lemma_removed_keeps_others(
    rest: Seq<RunningContainer>,
    pos: int,
    cs0: Seq<RunningContainer>,
    ids: Seq<String>,
    k: int,
)
    requires
        0 <= pos < rest.len(),
        0 <= k < ids.len(),
        rest[pos].id@ == ids[k]@,
        forall|a: int, b: int|
            0 <= a < b < rest.len() ==> (#[trigger] rest[a]).id@ != (#[trigger] rest[b]).id@,
        forall|x: Seq<char>| #[trigger] id_tracked(cs0, rest, ids, k, x),
    ensures
        forall|a: int, b: int|
            0 <= a < b < rest.remove(pos).len() ==> (#[trigger] rest.remove(pos)[a]).id@ != (
            #[trigger] rest.remove(pos)[b]).id@,
        forall|x: Seq<char>| #[trigger] id_tracked(cs0, rest.remove(pos), ids, k + 1, x),
{
    let out = rest.remove(pos);
    assert forall|a: int, b: int|
        0 <= a < b < out.len() implies (#[trigger] out[a]).id@ != (#[trigger] out[b]).id@ by {
        let a0 = if a < pos {
            a
        } else {
            a + 1
        };
        let b0 = if b < pos {
            b
        } else {
            b + 1
        };
        assert(out[a] == rest[a0] && out[b] == rest[b0]);
    }
    assert forall|x: Seq<char>| #[trigger] id_tracked(cs0, out, ids, k + 1, x) by {
        assert(id_tracked(cs0, rest, ids, k, x));
        if forall|t: int| 0 <= t < k + 1 ==> (#[trigger] ids[t])@ != x {
            assert(ids[k]@ != x);
            assert(forall|t: int| 0 <= t < k ==> (#[trigger] ids[t])@ != x);
            let f = find_by_id(cs0, x);
            let g = find_by_id(rest, x);
            lemma_find_by_id(rest, x);
            lemma_find_by_id(out, x);
            if f >= 0 {
                assert(0 <= g < rest.len() && rest[g] == cs0[f]);
                assert(g != pos);
                let g1 = if g < pos {
                    g
                } else {
                    g - 1
                };
                assert(out[g1] == rest[g]);
                assert(out[g1].id@ == x);
                let g2 = find_by_id(out, x);
                assert(g2 != -1);
                assert(0 <= g2 < out.len() && out[g2].id@ == x);
                let g2o = if g2 < pos {
                    g2
                } else {
                    g2 + 1
                };
                assert(out[g2] == rest[g2o]);
                assert(rest[g2o].id@ == x);
                if g2o != g {
                    if g2o < g {
                        assert(rest[g2o].id@ != rest[g].id@);
                    } else {
                        assert(rest[g].id@ != rest[g2o].id@);
                    }
                }
                assert(out[g2] == cs0[f]);
            } else {
                assert(g < 0);
                if find_by_id(out, x) >= 0 {
                    let g2 = find_by_id(out, x);
                    assert(out[g2].id@ == x);
                    let g2o = if g2 < pos {
                        g2
                    } else {
                        g2 + 1
                    };
                    assert(out[g2] == rest[g2o]);
                    assert(rest[g2o].id@ == x);
                }
            }
        }
    }
}

} // verus!
