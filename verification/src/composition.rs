//! Container specifications as the user authors them.

use vstd::prelude::*;
use vstd::string::StringExecFns;

use crate::env::EnvMap;
use crate::naming::spec_final_name;
use crate::StartPolicy;

verus! {

/// How eagerly an image is pulled from its registry.
#[derive(Clone, Copy, Debug, PartialEq, Eq, Structural)]
pub enum PullPolicy {
    /// Pull on every run.
    Always,
    /// Pull only when the image is absent from the local daemon.
    IfNotPresent,
    /// Never pull; the image must already be present.
    Never,
}

/// Where an image is pulled from.
#[derive(Clone, Copy, Debug, PartialEq, Eq, Structural)]
pub enum Source {
    /// The image must be available on the local daemon.
    Local,
    /// The image is pulled from the public registry under this policy.
    DockerHub(PullPolicy),
}

impl Source {
    /// Whether an image with this source is pulled before the run: a
    /// local image is never pulled, a registry image is pulled unless
    /// its policy forbids it.
    pub open spec fn spec_should_pull(&self) -> bool {
        match self {
            Source::Local => false,
            Source::DockerHub(policy) => !(policy is Never),
        }
    }

    /// Decides whether to pull an image with this source.
    pub fn should_pull(&self) -> (r: bool)
        ensures
            r == self.spec_should_pull(),
    {
        match self {
            Source::Local => false,
            Source::DockerHub(policy) => !matches!(policy, PullPolicy::Never),
        }
    }
}

/// Which stream of a container's output is captured.
#[derive(Clone, Copy, Debug, PartialEq, Eq, Structural)]
pub enum LogSource {
    StdOut,
    StdErr,
    Both,
}

/// When a container's logs are captured at teardown.
#[derive(Clone, Copy, Debug, PartialEq, Eq, Structural)]
pub enum LogPolicy {
    /// Capture unconditionally.
    Always,
    /// Capture only when the test body failed.
    OnError,
}

/// Per-container log handling selected by the user.
#[derive(Clone, Copy, Debug, PartialEq, Eq, Structural)]
pub struct LogOptions {
    pub source: LogSource,
    pub policy: LogPolicy,
}

/// A single container specification.
///
/// `container_name` starts out as the user's explicit name (or empty),
/// and becomes the final daemon-level name once
/// `configure_container_name` has run.
pub struct Composition {
    /// The image repository; the default handle.
    pub repository: String,
    /// User-supplied name before naming; the final name afterwards.
    pub container_name: String,
    /// Strict or relaxed startup.
    pub start_policy: StartPolicy,
    /// Environment handed to the container.
    pub env: EnvMap,
    /// Requests `(handle, variable)`: inject the final container name of
    /// `handle` into this container's environment under `variable`.
    pub inject_container_name_env: Vec<(String, String)>,
    /// Named volumes as `(volume id, path in container)` pairs.
    pub named_volumes: Vec<(String, String)>,
    /// Suffixed `name:path` bindings, filled in when volumes resolve.
    pub final_named_volume_names: Vec<String>,
    /// Log handling, if any was requested.
    pub log_options: Option<LogOptions>,
    /// Pull source overriding the run's default, if any.
    pub source: Option<Source>,
}

impl Composition {
    /// The environment names are unique.
    pub open spec fn wf(&self) -> bool {
        self.env.wf()
    }

    /// The user-visible handle: the explicit container name when one is
    /// set, the image repository otherwise.
    pub open spec fn spec_handle(&self) -> Seq<char> {
        if self.container_name@.len() == 0 {
            self.repository@
        } else {
            self.container_name@
        }
    }

    /// A fresh specification for `repository` with strict startup, an
    /// empty environment and no volumes.
    pub fn with_repository(repository: &str) -> (r: Composition)
        ensures
            r.repository@ == repository@,
            r.container_name@ == Seq::<char>::empty(),
            r.start_policy == StartPolicy::Strict,
            r.env@ == Seq::<(Seq<char>, Seq<char>)>::empty(),
            r.inject_container_name_env@ == Seq::<(String, String)>::empty(),
            r.named_volumes@ == Seq::<(String, String)>::empty(),
            r.final_named_volume_names@ == Seq::<String>::empty(),
            r.log_options is None,
            r.source is None,
            r.wf(),
    {
        Composition {
            repository: repository.to_owned(),
            container_name: String::new(),
            start_policy: StartPolicy::Strict,
            env: EnvMap::new(),
            inject_container_name_env: Vec::new(),
            named_volumes: Vec::new(),
            final_named_volume_names: Vec::new(),
            log_options: None,
            source: None,
        }
    }

    /// Replaces the start policy.
    pub fn with_start_policy(self, start_policy: StartPolicy) -> (r: Composition)
        ensures
            r == (Composition { start_policy, ..self }),
    {
        Composition { start_policy, ..self }
    }

    /// Sets an explicit container name, overriding the handle.
    pub fn with_container_name(self, name: &str) -> (r: Composition)
        ensures
            r.container_name@ == name@,
            r == (Composition { container_name: r.container_name, ..self }),
    {
        Composition { container_name: name.to_owned(), ..self }
    }

    /// Overrides the run's default pull source for this image.
    pub fn with_source(self, source: Source) -> (r: Composition)
        ensures
            r == (Composition { source: Some(source), ..self }),
    {
        Composition { source: Some(source), ..self }
    }

    /// Requests log capture for this container.
    pub fn with_log_options(self, log_options: LogOptions) -> (r: Composition)
        ensures
            r == (Composition { log_options: Some(log_options), ..self }),
    {
        Composition { log_options: Some(log_options), ..self }
    }

    /// Binds `variable = value` in the container's environment.
    pub fn with_env_var(&mut self, variable: String, value: String)
        requires
            old(self).wf(),
        ensures
            final(self).wf(),
            final(self).env@ == crate::env::env_upsert(old(self).env@, variable@, value@),
            *final(self) == (Composition { env: final(self).env, ..*old(self) }),
    {
        self.env.insert(variable, value);
    }

    /// Requests that the final container name resolved for `handle` be
    /// injected into this container's environment under `variable`.
    pub fn inject_container_name_env(&mut self, handle: String, variable: String)
        ensures
            final(self).inject_container_name_env@
                == old(self).inject_container_name_env@.push((handle, variable)),
            *final(self) == (Composition {
                inject_container_name_env: final(self).inject_container_name_env,
                ..*old(self)
            }),
    {
        self.inject_container_name_env.push((handle, variable));
    }

    /// Mounts the named volume `id` at `path` inside the container.
    pub fn with_named_volume(&mut self, id: String, path: String)
        ensures
            final(self).named_volumes@ == old(self).named_volumes@.push((id, path)),
            *final(self) == (Composition { named_volumes: final(self).named_volumes, ..*old(self) }),
    {
        self.named_volumes.push((id, path));
    }

    /// The user-visible handle as a fresh string.
    pub fn handle(&self) -> (r: String)
        ensures
            r@ == self.spec_handle(),
    {
        if self.container_name.as_str().is_empty() {
            self.repository.clone()
        } else {
            self.container_name.clone()
        }
    }

    /// Rewrites `container_name` into the final daemon-level name
    /// `{namespace}-{base}-{suffix}`, where the base is the handle the
    /// composition had before the call.
    pub fn configure_container_name(&mut self, namespace: &str, suffix: &str)
        ensures
            final(self).container_name@
                == spec_final_name(namespace@, old(self).spec_handle(), suffix@),
            *final(self) == (Composition { container_name: final(self).container_name, ..*old(self) }),
    {
        let base = self.handle();
        self.container_name = crate::naming::build_final_name(namespace, base.as_str(), suffix);
    }
}

} // verus!
