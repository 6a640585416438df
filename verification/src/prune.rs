//! The prune policy: what teardown does, selected by the
//! `DOCKERTEST_PRUNE` environment variable.

use vstd::prelude::*;
use vstd::string::StrSliceExecFns;

use crate::composition::{LogOptions, LogPolicy, LogSource};
use crate::container::CleanupContainer;

verus! {

/// The teardown behaviour of a run.
#[derive(Clone, Copy, Debug, PartialEq, Eq, Structural)]
pub enum PruneStrategy {
    /// Leave every container running, whatever happened.
    RunningRegardless,
    /// Leave everything running only when the test failed.
    RunningOnFailure,
    /// On failure stop the containers without removing them; volumes
    /// are then never removed.
    StopOnFailure,
    /// Remove everything, volumes included.
    RemoveRegardless,
}

/// `c` reads as the lowercase letter `l`, ignoring ASCII case.
pub open spec fn char_eq_ci(c: char, l: char) -> bool {
    c == l || (97 <= l as u32 <= 122 && c as u32 + 32 == l as u32)
}

/// `s` equals `l` up to ASCII case, where `l` is already lowercase.
pub open spec fn str_eq_ci(s: Seq<char>, l: Seq<char>) -> bool {
    s.len() == l.len() && (forall|i: int| 0 <= i < s.len() ==> char_eq_ci(#[trigger] s[i], l[i]))
}

/// Compares a value against a lowercase pattern, ignoring ASCII case.
pub fn matches_ignore_ascii_case(s: &str, pattern: &str) -> (r: bool)
    ensures
        r == str_eq_ci(s@, pattern@),
{
    let n = s.unicode_len();
    let m = pattern.unicode_len();
    if n != m {
        return false;
    }
    let mut i: usize = 0;
    while i < n
        invariant
            n == s@.len(),
            n == pattern@.len(),
            i <= n,
            forall|j: int| 0 <= j < i ==> char_eq_ci(#[trigger] s@[j], pattern@[j]),
        decreases n - i,
    {
        let c = s.get_char(i);
        let l = pattern.get_char(i);
        let lu = l as u32;
        let cu = c as u32;
        let same = c == l || (97 <= lu && lu <= 122 && cu + 32 == lu);
        if !same {
            return false;
        }
        i = i + 1;
    }
    true
}

/// The strategy selected by the environment value: one of `never`,
/// `running_on_failure`, `stop_on_failure` and `always`, compared
/// ignoring ASCII case; anything else, and an unset variable, selects
/// `RemoveRegardless`.
pub open spec fn spec_prune_strategy(value: Option<Seq<char>>) -> PruneStrategy {
    match value {
        None => PruneStrategy::RemoveRegardless,
        Some(s) => {
            if str_eq_ci(s, "stop_on_failure"@) {
                PruneStrategy::StopOnFailure
            } else if str_eq_ci(s, "never"@) {
                PruneStrategy::RunningRegardless
            } else if str_eq_ci(s, "running_on_failure"@) {
                PruneStrategy::RunningOnFailure
            } else {
                PruneStrategy::RemoveRegardless
            }
        },
    }
}

/// A set value that matches no known strategy deserves a warning; the
/// behaviour is still `RemoveRegardless`.
pub open spec fn spec_prune_warns(value: Option<Seq<char>>) -> bool {
    match value {
        None => false,
        Some(s) => !str_eq_ci(s, "stop_on_failure"@) && !str_eq_ci(s, "never"@) && !str_eq_ci(
            s,
            "running_on_failure"@,
        ) && !str_eq_ci(s, "always"@),
    }
}

/// Reads the prune strategy out of the environment value, and whether
/// the value was unrecognized and deserves a warning.
pub fn parse_prune_strategy(value: Option<&str>) -> (r: (PruneStrategy, bool))
    ensures
        r.0 == spec_prune_strategy(match value {
            Some(v) => Some(v@),
            None => None,
        }),
        r.1 == spec_prune_warns(match value {
            Some(v) => Some(v@),
            None => None,
        }),
{
    match value {
        None => (PruneStrategy::RemoveRegardless, false),
        Some(v) => {
            if matches_ignore_ascii_case(v, "stop_on_failure") {
                (PruneStrategy::StopOnFailure, false)
            } else if matches_ignore_ascii_case(v, "never") {
                (PruneStrategy::RunningRegardless, false)
            } else if matches_ignore_ascii_case(v, "running_on_failure") {
                (PruneStrategy::RunningOnFailure, false)
            } else if matches_ignore_ascii_case(v, "always") {
                (PruneStrategy::RemoveRegardless, false)
            } else {
                (PruneStrategy::RemoveRegardless, true)
            }
        },
    }
}

/// What teardown does, once the strategy and the test verdict are known.
#[derive(Clone, Copy, Debug, PartialEq, Eq, Structural)]
pub enum TeardownPlan {
    /// Touch nothing: containers, network and volumes all stay.
    LeaveRunning,
    /// Stop (do not remove) every container, remove the network, and
    /// leave every volume in place.
    StopAndRemoveNetwork,
    /// Force-remove every container, then the network, then every
    /// named volume recorded for the run.
    RemoveEverything,
}

/// The teardown plan owed for a strategy and a test verdict.
pub open spec fn spec_teardown_plan(strategy: PruneStrategy, test_failed: bool) -> TeardownPlan {
    match strategy {
        PruneStrategy::RunningRegardless => TeardownPlan::LeaveRunning,
        PruneStrategy::RunningOnFailure => if test_failed {
            TeardownPlan::LeaveRunning
        } else {
            TeardownPlan::RemoveEverything
        },
        PruneStrategy::StopOnFailure => if test_failed {
            TeardownPlan::StopAndRemoveNetwork
        } else {
            TeardownPlan::RemoveEverything
        },
        PruneStrategy::RemoveRegardless => TeardownPlan::RemoveEverything,
    }
}

/// Decides the teardown plan.
pub fn teardown_plan(strategy: PruneStrategy, test_failed: bool) -> (r: TeardownPlan)
    ensures
        r == spec_teardown_plan(strategy, test_failed),
{
    match strategy {
        PruneStrategy::RunningRegardless => TeardownPlan::LeaveRunning,
        PruneStrategy::RunningOnFailure => if test_failed {
            TeardownPlan::LeaveRunning
        } else {
            TeardownPlan::RemoveEverything
        },
        PruneStrategy::StopOnFailure => if test_failed {
            TeardownPlan::StopAndRemoveNetwork
        } else {
            TeardownPlan::RemoveEverything
        },
        PruneStrategy::RemoveRegardless => TeardownPlan::RemoveEverything,
    }
}

/// An unrecognized prune value behaves exactly as `always` does, for
/// every test verdict.
pub proof fn lemma_unknown_prune_behaves_as_always(value: Seq<char>, test_failed: bool)
    requires
        spec_prune_warns(Some(value)),
    ensures
        spec_teardown_plan(spec_prune_strategy(Some(value)), test_failed) == spec_teardown_plan(
            spec_prune_strategy(Some("always"@)),
            test_failed,
        ),
{
    reveal_strlit("always");
    reveal_strlit("stop_on_failure");
    reveal_strlit("never");
    reveal_strlit("running_on_failure");
    assert(!str_eq_ci("always"@, "stop_on_failure"@));
    assert(!str_eq_ci("always"@, "never"@));
    assert(!str_eq_ci("always"@, "running_on_failure"@));
    assert(spec_prune_strategy(Some("always"@)) == PruneStrategy::RemoveRegardless);
}

/// The work a teardown plan performs, spelled out: which containers to
/// stop, which to force-remove, whether to remove the run's network,
/// and which named volumes to remove. Containers are removed before the
/// network, and the network before the volumes; a container the static
/// registry owns is never listed.
pub struct TeardownWork {
    /// Containers to stop, in kept order.
    pub stop: Vec<CleanupContainer>,
    /// Containers to force-remove, in kept order.
    pub remove: Vec<CleanupContainer>,
    /// Whether the run's network is removed.
    pub remove_network: bool,
    /// The recorded named volumes to remove, in recorded order.
    pub volumes: Vec<String>,
}

/// The non-static descriptors, in order.
pub open spec fn non_static(kept: Seq<CleanupContainer>) -> Seq<CleanupContainer>
    decreases kept.len(),
{
    if kept.len() == 0 {
        Seq::empty()
    } else {
        let rest = non_static(kept.drop_last());
        if kept.last().is_static {
            rest
        } else {
            rest.push(kept.last())
        }
    }
}

/// Copies the non-static descriptors out of `kept`, in order.
fn non_static_targets(kept: &Vec<CleanupContainer>) -> (r: Vec<CleanupContainer>)
    ensures
        r@ == non_static(kept@),
{
    let mut r: Vec<CleanupContainer> = Vec::new();
    let n = kept.len();
    let mut i: usize = 0;
    while i < n
        invariant
            n == kept@.len(),
            i <= n,
            r@ == non_static(kept@.take(i as int)),
        decreases n - i,
    {
        proof {
            assert(kept@.take(i as int + 1).drop_last() =~= kept@.take(i as int));
            assert(kept@.take(i as int + 1).last() == kept@[i as int]);
        }
        if !kept[i].is_static {
            r.push(kept[i].clone());
        }
        i = i + 1;
    }
    proof {
        assert(kept@.take(n as int) =~= kept@);
    }
    r
}

/// Spells a teardown plan out over the run's descriptors: under
/// `LeaveRunning` nothing at all is touched; under
/// `StopAndRemoveNetwork` every non-static container is stopped and the
/// network goes, but no container and no volume is removed; under
/// `RemoveEverything` every non-static container, the network and
/// every recorded volume are removed.
pub fn teardown_work(
    plan: crate::prune::TeardownPlan,
    kept: &Vec<CleanupContainer>,
    volumes: Vec<String>,
) -> (r: TeardownWork)
    ensures
        match plan {
            TeardownPlan::LeaveRunning => {
                &&& r.stop@ == Seq::<CleanupContainer>::empty()
                &&& r.remove@ == Seq::<CleanupContainer>::empty()
                &&& r.remove_network == false
                &&& r.volumes@ == Seq::<String>::empty()
            },
            TeardownPlan::StopAndRemoveNetwork => {
                &&& r.stop@ == non_static(kept@)
                &&& r.remove@ == Seq::<CleanupContainer>::empty()
                &&& r.remove_network == true
                &&& r.volumes@ == Seq::<String>::empty()
            },
            TeardownPlan::RemoveEverything => {
                &&& r.stop@ == Seq::<CleanupContainer>::empty()
                &&& r.remove@ == non_static(kept@)
                &&& r.remove_network == true
                &&& r.volumes@ == volumes@
            },
        },
{
    match plan {
        TeardownPlan::LeaveRunning => TeardownWork {
            stop: Vec::new(),
            remove: Vec::new(),
            remove_network: false,
            volumes: Vec::new(),
        },
        TeardownPlan::StopAndRemoveNetwork => TeardownWork {
            stop: non_static_targets(kept),
            remove: Vec::new(),
            remove_network: true,
            volumes: Vec::new(),
        },
        TeardownPlan::RemoveEverything => TeardownWork {
            stop: Vec::new(),
            remove: non_static_targets(kept),
            remove_network: true,
            volumes,
        },
    }
}

/// Whether a container's logs are captured at teardown: only when log
/// options were set, and, under the `OnError` policy, only when the
/// test failed.
pub open spec fn spec_should_capture(opts: Option<LogOptions>, test_failed: bool) -> bool {
    match opts {
        None => false,
        Some(o) => match o.policy {
            LogPolicy::Always => true,
            LogPolicy::OnError => test_failed,
        },
    }
}

/// Which streams a log source captures: `(stderr, stdout)`.
pub open spec fn spec_captured_streams(source: LogSource) -> (bool, bool) {
    match source {
        LogSource::StdErr => (true, false),
        LogSource::StdOut => (false, true),
        LogSource::Both => (true, true),
    }
}

/// One container whose logs are to be captured.
pub struct LogTask {
    /// The daemon identifier to read logs from.
    pub id: String,
    /// The container name, for error reporting.
    pub name: String,
    /// Capture standard error.
    pub stderr: bool,
    /// Capture standard output.
    pub stdout: bool,
}

/// The capture tasks owed for the descriptors, in kept order.
pub open spec fn spec_log_tasks(kept: Seq<CleanupContainer>, test_failed: bool) -> Seq<LogTask>
    decreases kept.len(),
{
    if kept.len() == 0 {
        Seq::empty()
    } else {
        let rest = spec_log_tasks(kept.drop_last(), test_failed);
        let c = kept.last();
        if spec_should_capture(c.log_options, test_failed) {
            rest.push(LogTask {
                id: c.id,
                name: c.name,
                stderr: spec_captured_streams(c.log_options->Some_0.source).0,
                stdout: spec_captured_streams(c.log_options->Some_0.source).1,
            })
        } else {
            rest
        }
    }
}

/// Plans log capture for the run: one task per container whose options
/// ask for it under this verdict, in kept order, with the streams its
/// source selects.
pub fn log_plan(kept: &Vec<CleanupContainer>, test_failed: bool) -> (r: Vec<LogTask>)
    ensures
        r@ == spec_log_tasks(kept@, test_failed),
{
    let mut r: Vec<LogTask> = Vec::new();
    let n = kept.len();
    let mut i: usize = 0;
    while i < n
        invariant
            n == kept@.len(),
            i <= n,
            r@ == spec_log_tasks(kept@.take(i as int), test_failed),
        decreases n - i,
    {
        proof {
            assert(kept@.take(i as int + 1).drop_last() =~= kept@.take(i as int));
            assert(kept@.take(i as int + 1).last() == kept@[i as int]);
        }
        let c = &kept[i];
        match &c.log_options {
            Some(o) => {
                let capture = match o.policy {
                    LogPolicy::Always => true,
                    LogPolicy::OnError => test_failed,
                };
                if capture {
                    let (stderr, stdout) = match o.source {
                        LogSource::StdErr => (true, false),
                        LogSource::StdOut => (false, true),
                        LogSource::Both => (true, true),
                    };
                    r.push(LogTask { id: c.id.clone(), name: c.name.clone(), stderr, stdout });
                }
            },
            None => {},
        }
        i = i + 1;
    }
    proof {
        assert(kept@.take(n as int) =~= kept@);
    }
    r
}

/// The message reported when a container's logs could not be handled.
pub open spec fn spec_log_write_error_msg(name: Seq<char>, detail: Seq<char>) -> Seq<char> {
    "unable to handle logs for: "@ + name + ": "@ + detail
}

/// The error owed when capturing or writing a container's logs failed.
pub fn log_write_error(name: &str, detail: &str) -> (e: crate::error::DockerTestError)
    ensures
        e is LogWriteError,
        e.spec_message() == spec_log_write_error_msg(name@, detail@),
{
    let mut m = <String as vstd::string::StringExecFns>::from_str("unable to handle logs for: ");
    m.append(name);
    m.append(": ");
    m.append(detail);
    proof {
        assert(m@ =~= spec_log_write_error_msg(name@, detail@));
    }
    crate::error::DockerTestError::LogWriteError(m)
}

} // verus!
