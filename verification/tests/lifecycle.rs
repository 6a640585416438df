//! The phase machine from bootstrap to decommission: handle
//! resolution, environment injection, the strict/relaxed start
//! discipline, and order preservation.

use dockertest::composition::Composition;
use dockertest::container::{
    HostPortMappings, Ipv4Address, PendingContainer, RunningContainer,
};
use dockertest::engine::{bootstrap, CreatedContainer, Engine, Igniting, Orbiting, Transitional};
use dockertest::error::DockerTestError;
use dockertest::startup::{
    collect_relaxed_results, RelaxedOutcome, StartOutcome, StrictStartSession,
};
use dockertest::StartPolicy;

fn pending(id: &str, name: &str, handle: &str, policy: StartPolicy) -> PendingContainer {
    PendingContainer {
        id: id.to_string(),
        name: name.to_string(),
        handle: handle.to_string(),
        start_policy: policy,
        log_options: None,
    }
}

fn running(id: &str, handle: &str) -> RunningContainer {
    RunningContainer {
        id: id.to_string(),
        name: format!("name-{}", id),
        handle: handle.to_string(),
        is_static: false,
        ip: Ipv4Address::unspecified(),
        ports: HostPortMappings::new(),
        log_options: None,
    }
}

fn daemon_error(text: &str) -> DockerTestError {
    DockerTestError::Daemon(text.to_string())
}

/// Drives a batch of (repository, policy) pairs to Orbiting: names are
/// resolved with fixed suffixes, creation succeeds for every slot, and
/// every container starts.
fn orbit_batch(specs: &[(&str, StartPolicy)]) -> Engine<Orbiting> {
    let ignited = ignite_batch(specs);
    let engine = match ignited {
        Ok(engine) => engine,
        Err(_) => panic!("creation should succeed"),
    };
    let (relaxed, strict) = engine.start_plan();
    let mut session = StrictStartSession::new(strict);
    loop {
        let next = match session.next_to_start() {
            Some(p) => Some((p.id.clone(), p.handle.clone())),
            None => None,
        };
        match next {
            Some((id, handle)) => session.report_started(running(&id, &handle)),
            None => break,
        }
    }
    let strict_result = match session.finish() {
        Ok(started) => Ok(started),
        Err((_, e)) => Err(e),
    };
    let relaxed_outcomes: Vec<RelaxedOutcome> = relaxed
        .iter()
        .map(|p| RelaxedOutcome::Started(running(&p.id, &p.handle)))
        .collect();
    let relaxed_result = collect_relaxed_results(relaxed_outcomes);
    let outcome = StartOutcome {
        strict: strict_result,
        relaxed: relaxed_result,
        statics: Vec::new(),
    };
    match engine.orbiting(outcome) {
        Ok(orbiting) => orbiting,
        Err(_) => panic!("startup should succeed"),
    }
}

/// Bootstraps, names and creates a batch; every creation succeeds.
fn ignite_batch(specs: &[(&str, StartPolicy)]) -> Result<Engine<Igniting>, Engine<Igniting>> {
    let mut compositions = Vec::new();
    for (repo, policy) in specs {
        compositions.push(Composition::with_repository(repo).with_start_policy(*policy));
    }
    let mut engine = bootstrap(compositions);
    let suffixes: Vec<String> = (0..specs.len()).map(|i| format!("{:020}", i)).collect();
    engine.resolve_final_container_name_with_suffixes("dockertest-rs", &suffixes);
    let mut fueling = engine.fuel();
    fueling
        .resolve_inject_container_name_env()
        .expect("no injection requests");
    let created: Vec<Result<CreatedContainer, DockerTestError>> = specs
        .iter()
        .enumerate()
        .map(|(i, (repo, policy))| {
            Ok(CreatedContainer::Pending(pending(
                &format!("id-{}", i),
                &format!("name-{}", i),
                repo,
                *policy,
            )))
        })
        .collect();
    fueling.ignite(created)
}

#[test]
fn bootstrap_resolves_unique_handles_to_their_index() {
    let compositions = vec![
        Composition::with_repository("postgres"),
        Composition::with_repository("nginx"),
    ];
    let engine = bootstrap(compositions);
    assert_eq!(
        engine.keeper.lookup(&"postgres".to_string()),
        Some(0usize)
    );
    assert_eq!(engine.keeper.lookup(&"nginx".to_string()), Some(1usize));
    assert_eq!(engine.keeper.lookup(&"missing".to_string()), None);
    assert!(!engine.keeper.is_collision(&"postgres".to_string()));
}

#[test]
fn bootstrap_marks_repeated_handles_as_collisions() {
    let compositions = vec![
        Composition::with_repository("redis"),
        Composition::with_repository("redis"),
        Composition::with_repository("nginx"),
    ];
    let engine = bootstrap(compositions);
    // The first occurrence keeps its index, but the handle collides.
    assert_eq!(engine.keeper.lookup(&"redis".to_string()), Some(0usize));
    assert!(engine.keeper.is_collision(&"redis".to_string()));
    assert!(!engine.keeper.is_collision(&"nginx".to_string()));
}

#[test]
fn final_names_follow_the_naming_convention() {
    let compositions = vec![
        Composition::with_repository("postgres"),
        Composition::with_repository("nginx").with_container_name("front"),
    ];
    let mut engine = bootstrap(compositions);
    let suffixes = vec![
        "aaaaaaaaaaaaaaaaaaaa".to_string(),
        "bbbbbbbbbbbbbbbbbbbb".to_string(),
    ];
    engine.resolve_final_container_name_with_suffixes("myspace", &suffixes);
    assert_eq!(
        engine.phase.kept[0].container_name,
        "myspace-postgres-aaaaaaaaaaaaaaaaaaaa"
    );
    assert_eq!(
        engine.phase.kept[1].container_name,
        "myspace-front-bbbbbbbbbbbbbbbbbbbb"
    );
    // Distinct suffixes give distinct names.
    assert_ne!(
        engine.phase.kept[0].container_name,
        engine.phase.kept[1].container_name
    );
}

#[test]
fn random_final_names_are_distinct_and_well_formed() {
    let compositions = vec![
        Composition::with_repository("redis"),
        Composition::with_repository("redis"),
    ];
    let mut engine = bootstrap(compositions);
    engine.resolve_final_container_name("dockertest-rs");
    let a = engine.phase.kept[0].container_name.clone();
    let b = engine.phase.kept[1].container_name.clone();
    assert!(a.starts_with("dockertest-rs-redis-"));
    assert_eq!(a.len(), "dockertest-rs-redis-".len() + 20);
    assert!(a[a.len() - 20..].chars().all(|c| c.is_ascii_lowercase()));
    assert_ne!(a, b);
}

#[test]
fn injection_chain_binds_the_target_name() {
    let db = Composition::with_repository("db");
    let mut app = Composition::with_repository("app");
    app.inject_container_name_env("db".to_string(), "DB_HOST".to_string());
    let mut engine = bootstrap(vec![db, app]);
    let suffixes = vec![
        "aaaaaaaaaaaaaaaaaaaa".to_string(),
        "bbbbbbbbbbbbbbbbbbbb".to_string(),
    ];
    engine.resolve_final_container_name_with_suffixes("dockertest-rs", &suffixes);
    let mut fueling = engine.fuel();
    fueling
        .resolve_inject_container_name_env()
        .expect("valid injection");
    let db_name = fueling.phase.kept[0].container_name.clone();
    assert_eq!(db_name, "dockertest-rs-db-aaaaaaaaaaaaaaaaaaaa");
    let bound = fueling.phase.kept[1]
        .env
        .get(&"DB_HOST".to_string())
        .expect("variable bound")
        .clone();
    assert_eq!(bound, db_name);
}

#[test]
fn injection_is_idempotent_after_mutation() {
    let db = Composition::with_repository("db");
    let mut app = Composition::with_repository("app");
    app.inject_container_name_env("db".to_string(), "DB_HOST".to_string());
    let mut engine = bootstrap(vec![db, app]);
    let suffixes = vec![
        "aaaaaaaaaaaaaaaaaaaa".to_string(),
        "bbbbbbbbbbbbbbbbbbbb".to_string(),
    ];
    engine.resolve_final_container_name_with_suffixes("dockertest-rs", &suffixes);
    let mut fueling = engine.fuel();
    fueling.resolve_inject_container_name_env().expect("first run");
    let after_first: Vec<Option<String>> = fueling
        .phase
        .kept
        .iter()
        .map(|c| c.env.get(&"DB_HOST".to_string()).cloned())
        .collect();
    let lens_first: Vec<usize> = fueling.phase.kept.iter().map(|c| c.env.len()).collect();
    fueling.resolve_inject_container_name_env().expect("second run");
    let after_second: Vec<Option<String>> = fueling
        .phase
        .kept
        .iter()
        .map(|c| c.env.get(&"DB_HOST".to_string()).cloned())
        .collect();
    let lens_second: Vec<usize> = fueling.phase.kept.iter().map(|c| c.env.len()).collect();
    assert_eq!(after_first, after_second);
    assert_eq!(lens_first, lens_second);
}

#[test]
fn injection_on_duplicate_handle_fails_with_the_exact_message() {
    let one = Composition::with_repository("redis");
    let two = Composition::with_repository("redis");
    let mut app = Composition::with_repository("app");
    app.inject_container_name_env("redis".to_string(), "CACHE".to_string());
    let mut engine = bootstrap(vec![one, two, app]);
    let suffixes = vec![
        "aaaaaaaaaaaaaaaaaaaa".to_string(),
        "bbbbbbbbbbbbbbbbbbbb".to_string(),
        "cccccccccccccccccccc".to_string(),
    ];
    engine.resolve_final_container_name_with_suffixes("dockertest-rs", &suffixes);
    let mut fueling = engine.fuel();
    let err = fueling
        .resolve_inject_container_name_env()
        .expect_err("duplicate handle must fail");
    match err {
        DockerTestError::Startup(msg) => {
            // The composition is named by its handle at the time of the
            // check, which after naming is its final container name.
            assert_eq!(
                msg,
                "composition `dockertest-rs-app-cccccccccccccccccccc` attempted to \
                 inject_container_name_env on duplicate handle `redis`"
            );
        }
        other => panic!("wrong error variant: {:?}", other),
    }
}

#[test]
fn injection_on_unknown_handle_fails_with_the_exact_message() {
    let mut app = Composition::with_repository("app");
    app.inject_container_name_env("ghost".to_string(), "X".to_string());
    let mut engine = bootstrap(vec![app]);
    engine.resolve_final_container_name_with_suffixes(
        "dockertest-rs",
        &vec!["aaaaaaaaaaaaaaaaaaaa".to_string()],
    );
    let mut fueling = engine.fuel();
    let err = fueling
        .resolve_inject_container_name_env()
        .expect_err("unknown handle must fail");
    match err {
        DockerTestError::Startup(msg) => {
            assert_eq!(
                msg,
                "composition `dockertest-rs-app-aaaaaaaaaaaaaaaaaaaa` attempted to \
                 inject_container_name_env on non-existent handle `ghost`"
            );
        }
        other => panic!("wrong error variant: {:?}", other),
    }
}

#[test]
fn injection_overwrites_an_existing_variable() {
    // The user preset the variable; the injected final name replaces it.
    let db = Composition::with_repository("db");
    let mut app = Composition::with_repository("app");
    app.with_env_var("DB_HOST".to_string(), "preset".to_string());
    app.inject_container_name_env("db".to_string(), "DB_HOST".to_string());
    let mut engine = bootstrap(vec![db, app]);
    engine.resolve_final_container_name_with_suffixes(
        "dockertest-rs",
        &vec![
            "aaaaaaaaaaaaaaaaaaaa".to_string(),
            "bbbbbbbbbbbbbbbbbbbb".to_string(),
        ],
    );
    let mut fueling = engine.fuel();
    fueling.resolve_inject_container_name_env().expect("valid injection");
    let bound = fueling.phase.kept[1]
        .env
        .get(&"DB_HOST".to_string())
        .expect("variable bound")
        .clone();
    assert_eq!(bound, "dockertest-rs-db-aaaaaaaaaaaaaaaaaaaa");
    // Overwritten in place: still a single binding.
    assert_eq!(fueling.phase.kept[1].env.len(), 1);
}

#[test]
fn empty_strict_session_finishes_at_once() {
    let mut session = StrictStartSession::new(Vec::new());
    assert!(session.next_to_start().is_none());
    let started = match session.finish() {
        Ok(started) => started,
        Err(_) => panic!("nothing can have failed"),
    };
    assert!(started.is_empty());
}

#[test]
fn ignite_keeps_every_slot_and_reports_failure() {
    // One successful creation, one daemon refusal: the engine still
    // advances, carrying both slots, and signals the failure.
    let a = Composition::with_repository("nginx");
    let b = Composition::with_repository("broken");
    let mut engine = bootstrap(vec![a, b]);
    engine.resolve_final_container_name_with_suffixes(
        "dockertest-rs",
        &vec![
            "aaaaaaaaaaaaaaaaaaaa".to_string(),
            "bbbbbbbbbbbbbbbbbbbb".to_string(),
        ],
    );
    let fueling = engine.fuel();
    let created = vec![
        Ok(CreatedContainer::Pending(pending(
            "id-a",
            "name-a",
            "nginx",
            StartPolicy::Strict,
        ))),
        Err(daemon_error("no such image: broken")),
    ];
    let igniting = match fueling.ignite(created) {
        Ok(_) => panic!("a failed creation must surface as Err"),
        Err(engine) => engine,
    };
    assert_eq!(igniting.phase.kept.len(), 2);
    assert!(matches!(igniting.phase.kept[0], Transitional::Pending(_)));
    assert!(matches!(
        igniting.phase.kept[1],
        Transitional::CreationFailure(_)
    ));
    // The failure path: cleanup lists exactly the created container for
    // removal, and returns the creation error naming the other.
    let (to_remove, errors) = igniting.cleanup();
    assert_eq!(to_remove.len(), 1);
    assert_eq!(to_remove[0].id, "id-a");
    assert!(!to_remove[0].is_static);
    assert_eq!(errors.len(), 1);
    assert_eq!(errors[0], daemon_error("no such image: broken"));
}

#[test]
fn strict_start_is_exactly_serial_and_failure_cuts_it_short() {
    let batch = vec![
        pending("id-0", "n0", "a", StartPolicy::Strict),
        pending("id-1", "n1", "b", StartPolicy::Strict),
        pending("id-2", "n2", "c", StartPolicy::Strict),
    ];
    let mut session = StrictStartSession::new(batch);
    // Handed out in declaration order, one at a time.
    let first = session.next_to_start().expect("first").id.clone();
    assert_eq!(first, "id-0");
    session.report_started(running("id-0", "a"));
    let second = session.next_to_start().expect("second").id.clone();
    assert_eq!(second, "id-1");
    session.report_failed(daemon_error("boom"));
    // After the failure at position 1, nothing further is handed out:
    // position 0 started, position 2 was never started.
    assert!(session.next_to_start().is_none());
    match session.finish() {
        Ok(_) => panic!("must report the failure"),
        Err((started, e)) => {
            assert_eq!(started.len(), 1);
            assert_eq!(started[0].id, "id-0");
            assert_eq!(e, daemon_error("boom"));
        }
    }
}

#[test]
fn relaxed_failure_does_not_prevent_reaping_the_others() {
    // All outcomes are consumed; the first failure is reported.
    let outcomes = vec![
        RelaxedOutcome::Started(running("id-0", "a")),
        RelaxedOutcome::Failed(daemon_error("boom")),
        RelaxedOutcome::Started(running("id-2", "c")),
    ];
    match collect_relaxed_results(outcomes) {
        Ok(_) => panic!("must report the failure"),
        Err(e) => assert_eq!(e, daemon_error("boom")),
    }
    // A join failure is reported as a processing error.
    let outcomes = vec![RelaxedOutcome::JoinError];
    match collect_relaxed_results(outcomes) {
        Ok(_) => panic!("must report the join failure"),
        Err(e) => assert_eq!(
            e,
            DockerTestError::Processing("join error gathering".to_string())
        ),
    }
    // An all-started batch comes back complete, in gathering order.
    let outcomes = vec![
        RelaxedOutcome::Started(running("id-0", "a")),
        RelaxedOutcome::Started(running("id-1", "b")),
    ];
    let started = collect_relaxed_results(outcomes).expect("all started");
    assert_eq!(started.len(), 2);
    assert_eq!(started[0].id, "id-0");
    assert_eq!(started[1].id, "id-1");
}

#[test]
fn strict_failure_still_reaps_relaxed_and_wins_over_relaxed_failure() {
    let engine = match ignite_batch(&[("x", StartPolicy::Strict), ("y", StartPolicy::Relaxed)]) {
        Ok(engine) => engine,
        Err(_) => panic!("creation succeeds"),
    };
    // Both classes failed: the strict error is the one reported, and
    // the engine comes back unchanged, still in Igniting, for cleanup.
    let outcome = StartOutcome {
        strict: Err(daemon_error("strict boom")),
        relaxed: Err(daemon_error("relaxed boom")),
        statics: Vec::new(),
    };
    match engine.orbiting(outcome) {
        Ok(_) => panic!("must fail"),
        Err((engine, e)) => {
            assert_eq!(e, daemon_error("strict boom"));
            assert_eq!(engine.phase.kept.len(), 2);
            assert!(matches!(engine.phase.kept[0], Transitional::Pending(_)));
        }
    }
}

#[test]
fn relaxed_failure_does_not_mask_strict_success() {
    let engine = match ignite_batch(&[("x", StartPolicy::Strict), ("y", StartPolicy::Relaxed)]) {
        Ok(engine) => engine,
        Err(_) => panic!("creation succeeds"),
    };
    let outcome = StartOutcome {
        strict: Ok(vec![running("id-0", "x")]),
        relaxed: Err(daemon_error("relaxed boom")),
        statics: Vec::new(),
    };
    match engine.orbiting(outcome) {
        Ok(_) => panic!("must fail"),
        Err((_, e)) => assert_eq!(e, daemon_error("relaxed boom")),
    }
}

#[test]
fn mixed_batch_keeps_declaration_order_through_orbit() {
    // X strict, Y relaxed, Z strict: the strict plan is [X, Z] in
    // order, the relaxed plan [Y], and after orbit the kept vector is
    // still [X, Y, Z].
    let ignited = ignite_batch(&[
        ("x", StartPolicy::Strict),
        ("y", StartPolicy::Relaxed),
        ("z", StartPolicy::Strict),
    ])
    .unwrap_or_else(|_| panic!("creation succeeds"));
    let (relaxed, strict) = ignited.start_plan();
    let strict_handles: Vec<String> = strict.iter().map(|p| p.handle.clone()).collect();
    let relaxed_handles: Vec<String> = relaxed.iter().map(|p| p.handle.clone()).collect();
    assert_eq!(strict_handles, vec!["x".to_string(), "z".to_string()]);
    assert_eq!(relaxed_handles, vec!["y".to_string()]);

    let orbiting = orbit_batch(&[
        ("x", StartPolicy::Strict),
        ("y", StartPolicy::Relaxed),
        ("z", StartPolicy::Strict),
    ]);
    let handles: Vec<String> = orbiting
        .phase
        .kept
        .iter()
        .map(|t| match t {
            Transitional::Running(r) => r.handle.clone(),
            _ => panic!("every slot must be running after a successful orbit"),
        })
        .collect();
    assert_eq!(
        handles,
        vec!["x".to_string(), "y".to_string(), "z".to_string()]
    );
}

#[test]
fn successful_orbit_leaves_no_pending_slot() {
    let orbiting = orbit_batch(&[
        ("a", StartPolicy::Strict),
        ("b", StartPolicy::Relaxed),
    ]);
    for slot in orbiting.phase.kept.iter() {
        assert!(matches!(slot, Transitional::Running(_)));
    }
}

#[test]
fn handle_collision_blocks_lookup_but_not_startup() {
    // Two compositions under the same default handle: the run proceeds
    // through startup, only the lookup is blocked.
    let orbiting = orbit_batch(&[
        ("redis", StartPolicy::Strict),
        ("redis", StartPolicy::Strict),
    ]);
    assert_eq!(orbiting.phase.kept.len(), 2);
    assert!(orbiting.handle_collision("redis"));
    let ops = orbiting.operations();
    match ops.try_handle("redis") {
        Ok(_) => panic!("collision must not resolve"),
        Err(DockerTestError::TestBody(msg)) => {
            assert_eq!(msg, "handle 'redis' defined multiple times");
        }
        Err(other) => panic!("wrong error variant: {:?}", other),
    }
}

#[test]
fn resolve_handle_refuses_collisions_and_resolves_unique_handles() {
    // A collided handle never resolves, even though its first
    // occurrence kept its index and both containers are running.
    let collided = orbit_batch(&[
        ("redis", StartPolicy::Strict),
        ("redis", StartPolicy::Strict),
    ]);
    assert!(collided.resolve_handle("redis").is_none());
    assert!(collided.handle_collision("redis"));

    let unique = orbit_batch(&[("db", StartPolicy::Strict)]);
    let c = unique.resolve_handle("db").expect("unique handle resolves");
    assert_eq!(c.handle, "db");
    assert!(unique.resolve_handle("ghost").is_none());
    assert!(!unique.handle_collision("ghost"));
}

#[test]
fn operations_resolve_a_unique_handle() {
    let orbiting = orbit_batch(&[
        ("db", StartPolicy::Strict),
        ("web", StartPolicy::Relaxed),
    ]);
    let ops = orbiting.operations();
    let db = ops.try_handle("db").expect("db resolves");
    assert_eq!(db.handle, "db");
    let web = ops.handle("web");
    assert_eq!(web.handle, "web");
    match ops.try_handle("ghost") {
        Ok(_) => panic!("unknown handle must not resolve"),
        Err(DockerTestError::TestBody(msg)) => {
            assert_eq!(msg, "container with handle 'ghost' not found");
        }
        Err(other) => panic!("wrong error variant: {:?}", other),
    }
}

#[test]
fn decommission_partitions_running_and_static_slots() {
    let orbiting = orbit_batch(&[("a", StartPolicy::Strict), ("b", StartPolicy::Strict)]);
    let debris = orbiting.decommission();
    assert_eq!(debris.phase.kept.len(), 2);
    assert_eq!(debris.phase.kept[0].id, "id-0");
    assert_eq!(debris.phase.kept[1].id, "id-1");
    assert!(debris.phase.external.is_empty());
}

#[test]
fn empty_batch_runs_and_tears_down_nothing_but_the_network() {
    // Bootstrap, ignite, orbit and decommission of an empty batch all
    // succeed and produce empty plans; teardown under `always` removes
    // the network and nothing else, because nothing was created.
    let engine = bootstrap(Vec::new());
    let fueling = engine.fuel();
    let igniting = match fueling.ignite(Vec::new()) {
        Ok(engine) => engine,
        Err(_) => panic!("no creations, no failures"),
    };
    let (relaxed, strict) = igniting.start_plan();
    assert!(relaxed.is_empty() && strict.is_empty());
    let outcome = StartOutcome {
        strict: Ok(Vec::new()),
        relaxed: Ok(Vec::new()),
        statics: Vec::new(),
    };
    let orbiting = match igniting.orbiting(outcome) {
        Ok(engine) => engine,
        Err(_) => panic!("empty orbit succeeds"),
    };
    assert!(orbiting.phase.kept.is_empty());
    let debris = orbiting.decommission();
    assert!(debris.phase.kept.is_empty());

    let plan = dockertest::prune::teardown_plan(
        dockertest::prune::PruneStrategy::RemoveRegardless,
        false,
    );
    let work = dockertest::prune::teardown_work(plan, &debris.phase.kept, Vec::new());
    assert!(work.stop.is_empty());
    assert!(work.remove.is_empty());
    assert!(work.remove_network);
    assert!(work.volumes.is_empty());
}

#[test]
fn static_external_slots_resolve_from_the_registry() {
    // A slot created as a static external is matched by handle when the
    // registry hands back its running form.
    let spec = Composition::with_repository("shared");
    let mut engine = bootstrap(vec![spec]);
    engine.resolve_final_container_name_with_suffixes(
        "dockertest-rs",
        &vec!["aaaaaaaaaaaaaaaaaaaa".to_string()],
    );
    let fueling = engine.fuel();
    let created = vec![Ok(CreatedContainer::StaticExternal(
        dockertest::container::StaticExternalContainer {
            id: "static-1".to_string(),
            handle: "shared".to_string(),
        },
    ))];
    let igniting = match fueling.ignite(created) {
        Ok(engine) => engine,
        Err(_) => panic!("creation succeeds"),
    };
    let mut shared = running("static-1", "shared");
    shared.is_static = true;
    let outcome = StartOutcome {
        strict: Ok(Vec::new()),
        relaxed: Ok(Vec::new()),
        statics: vec![shared],
    };
    let orbiting = match igniting.orbiting(outcome) {
        Ok(engine) => engine,
        Err(_) => panic!("orbit succeeds"),
    };
    assert!(matches!(orbiting.phase.kept[0], Transitional::Running(_)));
    let debris = orbiting.decommission();
    assert_eq!(debris.phase.kept.len(), 1);
    assert!(debris.phase.kept[0].is_static);
    // The static registry, not this run, cleans it up.
    let ids = debris.static_cleanup_ids();
    assert_eq!(ids, vec!["static-1".to_string()]);
    let work = dockertest::prune::teardown_work(
        dockertest::prune::TeardownPlan::RemoveEverything,
        &debris.phase.kept,
        Vec::new(),
    );
    assert!(work.remove.is_empty());
}
