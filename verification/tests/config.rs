//! The run configuration: defaults and builders.

use dockertest::composition::{PullPolicy, Source};
use dockertest::dockertest::DockerTest;

// Tests that the default DockerTest constructor produces a valid instance with the correct values set
#[test]
fn test_default_constructor() {
    let test = DockerTest::new();
    assert_eq!(
        test.compositions.len(),
        0,
        "should not have any strict instances after creation"
    );

    assert_eq!(
        test.namespace,
        "dockertest-rs".to_string(),
        "default namespace was not set correctly"
    );

    let equal = match *test.source() {
        Source::Local => true,
        _ => false,
    };

    assert!(equal, "source not set to local by default");
}

// Tests that the with_namespace builder method sets the namespace correctly
#[test]
fn test_with_namespace() {
    let namespace = "this_is_a_test_namespace".to_string();
    let test = DockerTest::new().with_namespace(&namespace);

    assert_eq!(
        test.namespace, namespace,
        "default namespace was not set correctly"
    );
}

// Tests that the with_default_source builder method sets the default_source_correctly
#[test]
fn test_with_default_source() {
    let test = DockerTest::new().with_default_source(Source::DockerHub(PullPolicy::Always));

    let equal = match test.default_source {
        Source::DockerHub(p) => match p {
            PullPolicy::Always => true,
            _ => false,
        },
        _ => false,
    };

    assert!(equal, "default_source was not set correctly");
}

#[test]
fn pull_decision_follows_the_source() {
    assert!(!Source::Local.should_pull());
    assert!(Source::DockerHub(PullPolicy::Always).should_pull());
    assert!(Source::DockerHub(PullPolicy::IfNotPresent).should_pull());
    assert!(!Source::DockerHub(PullPolicy::Never).should_pull());
}

#[test]
fn default_network_name_carries_the_run_id() {
    let test = DockerTest::new();
    assert_eq!(test.id.len(), 20);
    assert!(test.id.chars().all(|c| c.is_ascii_lowercase()));
    assert_eq!(test.network, format!("dockertest-rs-{}", test.id));
    assert!(test.container_id.is_none());
}
