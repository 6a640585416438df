//! Teardown policy, volume naming, log planning, inspection and the
//! order-restoring sort.

use dockertest::composition::{Composition, LogOptions, LogPolicy, LogSource};
use dockertest::container::{
    CleanupContainer, HostPortMappings, Ipv4Address, PortMapping, RunningContainer,
};
use dockertest::dockertest::{sort_running_containers_into_insertion_order, DockerTest};
use dockertest::engine::{bootstrap, CreatedContainer, Transitional};
use dockertest::error::DockerTestError;
use dockertest::inspect::{parse_ipv4, InspectOutcome};
use dockertest::prune::{
    log_plan, log_write_error, parse_prune_strategy, teardown_plan, teardown_work, PruneStrategy,
    TeardownPlan,
};
use dockertest::startup::StartOutcome;
use dockertest::StartPolicy;

fn cleanup(id: &str, is_static: bool) -> CleanupContainer {
    CleanupContainer {
        id: id.to_string(),
        name: format!("name-{}", id),
        is_static,
        log_options: None,
    }
}

fn running(id: &str, handle: &str) -> RunningContainer {
    RunningContainer {
        id: id.to_string(),
        name: format!("name-{}", id),
        handle: handle.to_string(),
        is_static: false,
        ip: Ipv4Address::unspecified(),
        ports: HostPortMappings::new(),
        log_options: None,
    }
}

#[test]
fn prune_values_select_their_strategies() {
    assert_eq!(
        parse_prune_strategy(None),
        (PruneStrategy::RemoveRegardless, false)
    );
    assert_eq!(
        parse_prune_strategy(Some("always")),
        (PruneStrategy::RemoveRegardless, false)
    );
    assert_eq!(
        parse_prune_strategy(Some("never")),
        (PruneStrategy::RunningRegardless, false)
    );
    assert_eq!(
        parse_prune_strategy(Some("running_on_failure")),
        (PruneStrategy::RunningOnFailure, false)
    );
    assert_eq!(
        parse_prune_strategy(Some("stop_on_failure")),
        (PruneStrategy::StopOnFailure, false)
    );
    // Values are compared ignoring ASCII case.
    assert_eq!(
        parse_prune_strategy(Some("NEVER")),
        (PruneStrategy::RunningRegardless, false)
    );
}

#[test]
fn garbage_prune_value_warns_and_behaves_as_always() {
    let (strategy, warned) = parse_prune_strategy(Some("garbage"));
    assert!(warned, "unknown value deserves a warning");
    let (always, always_warned) = parse_prune_strategy(Some("always"));
    assert!(!always_warned);
    for failed in [false, true] {
        assert_eq!(teardown_plan(strategy, failed), teardown_plan(always, failed));
        assert_eq!(teardown_plan(strategy, failed), TeardownPlan::RemoveEverything);
    }
}

#[test]
fn stop_on_failure_with_a_failed_test_stops_but_keeps_volumes() {
    let plan = teardown_plan(PruneStrategy::StopOnFailure, true);
    assert_eq!(plan, TeardownPlan::StopAndRemoveNetwork);
    let kept = vec![cleanup("c1", false)];
    let volumes = vec!["data-aaaaaaaaaaaaaaaaaaaa".to_string()];
    let work = teardown_work(plan, &kept, volumes);
    // The container is stopped, not removed; the network goes; no
    // volume is removed.
    assert_eq!(work.stop.len(), 1);
    assert_eq!(work.stop[0].id, "c1");
    assert!(work.remove.is_empty());
    assert!(work.remove_network);
    assert!(work.volumes.is_empty());
}

#[test]
fn stop_on_failure_with_a_passing_test_removes_everything() {
    let plan = teardown_plan(PruneStrategy::StopOnFailure, false);
    assert_eq!(plan, TeardownPlan::RemoveEverything);
}

#[test]
fn remove_everything_covers_all_containers_network_and_volumes() {
    let kept = vec![cleanup("c1", false), cleanup("shared", true), cleanup("c2", false)];
    let volumes = vec![
        "data-aaaaaaaaaaaaaaaaaaaa".to_string(),
        "logs-aaaaaaaaaaaaaaaaaaaa".to_string(),
    ];
    let work = teardown_work(TeardownPlan::RemoveEverything, &kept, volumes.clone());
    // Every container created by this run is removed (the statically
    // managed one is not ours to remove), the network is removed, and
    // every recorded volume is removed.
    let removed: Vec<String> = work.remove.iter().map(|c| c.id.clone()).collect();
    assert_eq!(removed, vec!["c1".to_string(), "c2".to_string()]);
    assert!(work.stop.is_empty());
    assert!(work.remove_network);
    assert_eq!(work.volumes, volumes);
}

#[test]
fn leave_running_touches_nothing() {
    let kept = vec![cleanup("c1", false)];
    let work = teardown_work(
        TeardownPlan::LeaveRunning,
        &kept,
        vec!["data-x".to_string()],
    );
    assert!(work.stop.is_empty());
    assert!(work.remove.is_empty());
    assert!(!work.remove_network);
    assert!(work.volumes.is_empty());
}

#[test]
fn named_volumes_are_suffixed_and_shared() {
    // A volume `data` mounted at `/var/lib`, referenced by two
    // compositions: both resolve to the same suffixed name, and the
    // suffixed name is recorded once for teardown.
    let mut one = Composition::with_repository("db");
    one.with_named_volume("data".to_string(), "/var/lib".to_string());
    let mut two = Composition::with_repository("backup");
    two.with_named_volume("data".to_string(), "/var/lib".to_string());
    two.with_named_volume("logs".to_string(), "/logs".to_string());
    let mut test = DockerTest::new();
    test.add_composition(one);
    test.add_composition(two);
    let run_id = test.id.clone();
    test.resolve_named_volumes();

    let suffixed = format!("data-{}", run_id);
    assert_eq!(suffixed.len(), "data-".len() + 20);
    assert!(suffixed["data-".len()..].chars().all(|c| c.is_ascii_lowercase()));
    assert_eq!(
        test.compositions[0].final_named_volume_names,
        vec![format!("{}:/var/lib", suffixed)]
    );
    assert_eq!(
        test.compositions[1].final_named_volume_names,
        vec![
            format!("{}:/var/lib", suffixed),
            format!("logs-{}:/logs", run_id)
        ]
    );
    assert_eq!(
        test.named_volumes,
        vec![suffixed, format!("logs-{}", run_id)]
    );
}

#[test]
fn log_plan_honours_policy_and_source() {
    let mut always_both = cleanup("c1", false);
    always_both.log_options = Some(LogOptions {
        source: LogSource::Both,
        policy: LogPolicy::Always,
    });
    let mut on_error_stderr = cleanup("c2", false);
    on_error_stderr.log_options = Some(LogOptions {
        source: LogSource::StdErr,
        policy: LogPolicy::OnError,
    });
    let unconfigured = cleanup("c3", false);
    let kept = vec![always_both, on_error_stderr, unconfigured];

    let passed = log_plan(&kept, false);
    assert_eq!(passed.len(), 1);
    assert_eq!(passed[0].id, "c1");
    assert!(passed[0].stderr && passed[0].stdout);

    let failed = log_plan(&kept, true);
    assert_eq!(failed.len(), 2);
    assert_eq!(failed[1].id, "c2");
    assert!(failed[1].stderr && !failed[1].stdout);
}

#[test]
fn log_write_errors_name_the_container() {
    let e = log_write_error("dockertest-rs-db-aaaa", "disk full");
    match e {
        DockerTestError::LogWriteError(msg) => {
            assert_eq!(
                msg,
                "unable to handle logs for: dockertest-rs-db-aaaa: disk full"
            );
        }
        other => panic!("wrong variant: {:?}", other),
    }
}

#[test]
fn ipv4_texts_parse_exactly() {
    assert_eq!(
        parse_ipv4("172.17.0.2"),
        Some(Ipv4Address {
            octet0: 172,
            octet1: 17,
            octet2: 0,
            octet3: 2
        })
    );
    assert_eq!(
        parse_ipv4("0.0.0.0"),
        Some(Ipv4Address {
            octet0: 0,
            octet1: 0,
            octet2: 0,
            octet3: 0
        })
    );
    assert_eq!(
        parse_ipv4("255.255.255.255"),
        Some(Ipv4Address {
            octet0: 255,
            octet1: 255,
            octet2: 255,
            octet3: 255
        })
    );
    assert_eq!(parse_ipv4(""), None);
    assert_eq!(parse_ipv4("1.2.3"), None);
    assert_eq!(parse_ipv4("1.2.3.4.5"), None);
    assert_eq!(parse_ipv4("256.0.0.1"), None);
    assert_eq!(parse_ipv4("01.2.3.4"), None);
    assert_eq!(parse_ipv4("1..2.3"), None);
    assert_eq!(parse_ipv4("a.b.c.d"), None);
    assert_eq!(parse_ipv4("1.2.3.4 "), None);
}

#[test]
fn inspection_populates_ip_and_ports() {
    let engine = orbit_single();
    let mut engine = engine;
    let ports = HostPortMappings {
        mappings: vec![PortMapping {
            container_port: 5432,
            host_port: 49153,
        }],
    };
    let reports = vec![InspectOutcome::Details {
        ip_text: Some("172.17.0.2".to_string()),
        ports: Some(Ok(ports)),
    }];
    engine.inspect(reports, false).expect("inspection succeeds");
    match &engine.phase.kept[0] {
        Transitional::Running(c) => {
            assert_eq!(
                c.ip,
                Ipv4Address {
                    octet0: 172,
                    octet1: 17,
                    octet2: 0,
                    octet3: 2
                }
            );
            assert_eq!(c.ports.mappings.len(), 1);
            assert_eq!(c.ports.mappings[0].host_port, 49153);
        }
        _ => panic!("slot must stay running"),
    }
}

#[test]
fn inspection_without_a_network_entry_reports_unspecified() {
    let mut engine = orbit_single();
    let reports = vec![InspectOutcome::Details {
        ip_text: None,
        ports: None,
    }];
    engine.inspect(reports, false).expect("inspection succeeds");
    match &engine.phase.kept[0] {
        Transitional::Running(c) => {
            assert_eq!(c.ip, Ipv4Address::unspecified());
            assert!(c.ports.mappings.is_empty());
        }
        _ => panic!("slot must stay running"),
    }
}

#[test]
fn inspection_on_windows_forces_localhost() {
    let mut engine = orbit_single();
    let reports = vec![InspectOutcome::Details {
        ip_text: Some("172.17.0.2".to_string()),
        ports: None,
    }];
    engine.inspect(reports, true).expect("inspection succeeds");
    match &engine.phase.kept[0] {
        Transitional::Running(c) => assert_eq!(c.ip, Ipv4Address::localhost()),
        _ => panic!("slot must stay running"),
    }
}

#[test]
fn inspection_failures_are_collected_not_fatal() {
    let mut engine = orbit_two();
    let reports = vec![
        InspectOutcome::Failed("container gone".to_string()),
        InspectOutcome::Details {
            ip_text: Some("10.0.0.7".to_string()),
            ports: Some(Err("bad port text".to_string())),
        },
    ];
    let errors = engine
        .inspect(reports, false)
        .expect_err("both reports carry a failure");
    assert_eq!(errors.len(), 2);
    assert_eq!(
        errors[0],
        DockerTestError::Daemon("failed to inspect container: container gone".to_string())
    );
    assert_eq!(
        errors[1],
        DockerTestError::HostPort("bad port text".to_string())
    );
    // The second container was still inspected: its address is set.
    match &engine.phase.kept[1] {
        Transitional::Running(c) => assert_eq!(
            c.ip,
            Ipv4Address {
                octet0: 10,
                octet1: 0,
                octet2: 0,
                octet3: 7
            }
        ),
        _ => panic!("slot must stay running"),
    }
}

#[test]
fn sort_restores_insertion_order() {
    let mut started = vec![running("id-c", "c"), running("id-a", "a"), running("id-b", "b")];
    let ids = vec!["id-a".to_string(), "id-b".to_string(), "id-c".to_string()];
    sort_running_containers_into_insertion_order(&mut started, ids);
    let order: Vec<String> = started.iter().map(|c| c.id.clone()).collect();
    assert_eq!(
        order,
        vec!["id-a".to_string(), "id-b".to_string(), "id-c".to_string()]
    );
}

/// One strict container, created and started.
fn orbit_single() -> dockertest::engine::Engine<dockertest::engine::Orbiting> {
    orbit_n(1)
}

/// Two strict containers, created and started.
fn orbit_two() -> dockertest::engine::Engine<dockertest::engine::Orbiting> {
    orbit_n(2)
}

fn orbit_n(n: usize) -> dockertest::engine::Engine<dockertest::engine::Orbiting> {
    let mut compositions = Vec::new();
    for i in 0..n {
        compositions.push(Composition::with_repository(&format!("repo{}", i)));
    }
    let mut engine = bootstrap(compositions);
    let suffixes: Vec<String> = (0..n).map(|i| format!("{:020}", i)).collect();
    engine.resolve_final_container_name_with_suffixes("dockertest-rs", &suffixes);
    let mut fueling = engine.fuel();
    fueling.resolve_inject_container_name_env().expect("no requests");
    let created: Vec<Result<CreatedContainer, DockerTestError>> = (0..n)
        .map(|i| {
            Ok(CreatedContainer::Pending(
                dockertest::container::PendingContainer {
                    id: format!("id-{}", i),
                    name: format!("name-{}", i),
                    handle: format!("repo{}", i),
                    start_policy: StartPolicy::Strict,
                    log_options: None,
                },
            ))
        })
        .collect();
    let igniting = match fueling.ignite(created) {
        Ok(engine) => engine,
        Err(_) => panic!("creation succeeds"),
    };
    let started: Vec<RunningContainer> = (0..n)
        .map(|i| running(&format!("id-{}", i), &format!("repo{}", i)))
        .collect();
    let outcome = StartOutcome {
        strict: Ok(started),
        relaxed: Ok(Vec::new()),
        statics: Vec::new(),
    };
    match igniting.orbiting(outcome) {
        Ok(engine) => engine,
        Err(_) => panic!("startup succeeds"),
    }
}
