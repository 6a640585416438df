//! Error taxonomy of the lifecycle engine.

use vstd::prelude::*;

verus! {

/// Everything that can go wrong during a test run.
///
/// Daemon-side failures are carried verbatim as text; the remaining
/// variants record which layer of the engine detected the problem.
#[derive(Debug)]
pub enum DockerTestError {
    /// An RPC against the daemon failed; the payload is the daemon's message.
    Daemon(String),
    /// Internal misuse detected before any container was created.
    Startup(String),
    /// An image was not available or violated its pull policy.
    Pull(String),
    /// A malformed port-mapping response from the daemon.
    HostPort(String),
    /// Log capture or log writing failed.
    LogWriteError(String),
    /// Task-join and concurrency-plumbing failures.
    Processing(String),
    /// Signalled by the test body itself.
    TestBody(String),
}

impl DockerTestError {
    /// The text carried by the error, whichever variant holds it.
    pub open spec fn spec_message(&self) -> Seq<char> {
        match self {
            DockerTestError::Daemon(s) => s@,
            DockerTestError::Startup(s) => s@,
            DockerTestError::Pull(s) => s@,
            DockerTestError::HostPort(s) => s@,
            DockerTestError::LogWriteError(s) => s@,
            DockerTestError::Processing(s) => s@,
            DockerTestError::TestBody(s) => s@,
        }
    }

    /// Two errors agree on variant and message text.
    pub open spec fn spec_eq(&self, other: &DockerTestError) -> bool {
        match (self, other) {
            (DockerTestError::Daemon(a), DockerTestError::Daemon(b)) => a@ == b@,
            (DockerTestError::Startup(a), DockerTestError::Startup(b)) => a@ == b@,
            (DockerTestError::Pull(a), DockerTestError::Pull(b)) => a@ == b@,
            (DockerTestError::HostPort(a), DockerTestError::HostPort(b)) => a@ == b@,
            (DockerTestError::LogWriteError(a), DockerTestError::LogWriteError(b)) => a@ == b@,
            (DockerTestError::Processing(a), DockerTestError::Processing(b)) => a@ == b@,
            (DockerTestError::TestBody(a), DockerTestError::TestBody(b)) => a@ == b@,
            _ => false,
        }
    }

    /// The text carried by the error.
    pub fn message(&self) -> (r: &String)
        ensures
            r@ == self.spec_message(),
    {
        match self {
            DockerTestError::Daemon(s) => s,
            DockerTestError::Startup(s) => s,
            DockerTestError::Pull(s) => s,
            DockerTestError::HostPort(s) => s,
            DockerTestError::LogWriteError(s) => s,
            DockerTestError::Processing(s) => s,
            DockerTestError::TestBody(s) => s,
        }
    }
}

impl Clone for DockerTestError {
    fn clone(&self) -> (r: Self)
        ensures
            r == *self,
    {
        match self {
            DockerTestError::Daemon(s) => DockerTestError::Daemon(s.clone()),
            DockerTestError::Startup(s) => DockerTestError::Startup(s.clone()),
            DockerTestError::Pull(s) => DockerTestError::Pull(s.clone()),
            DockerTestError::HostPort(s) => DockerTestError::HostPort(s.clone()),
            DockerTestError::LogWriteError(s) => DockerTestError::LogWriteError(s.clone()),
            DockerTestError::Processing(s) => DockerTestError::Processing(s.clone()),
            DockerTestError::TestBody(s) => DockerTestError::TestBody(s.clone()),
        }
    }
}

impl PartialEq for DockerTestError {
    fn eq(&self, other: &Self) -> (r: bool) {
        match (self, other) {
            (DockerTestError::Daemon(a), DockerTestError::Daemon(b)) => crate::text::string_eq(a, b),
            (DockerTestError::Startup(a), DockerTestError::Startup(b)) => crate::text::string_eq(a, b),
            (DockerTestError::Pull(a), DockerTestError::Pull(b)) => crate::text::string_eq(a, b),
            (DockerTestError::HostPort(a), DockerTestError::HostPort(b)) => crate::text::string_eq(a, b),
            (DockerTestError::LogWriteError(a), DockerTestError::LogWriteError(b)) => crate::text::string_eq(a, b),
            (DockerTestError::Processing(a), DockerTestError::Processing(b)) => crate::text::string_eq(a, b),
            (DockerTestError::TestBody(a), DockerTestError::TestBody(b)) => crate::text::string_eq(a, b),
            _ => false,
        }
    }
}

impl vstd::std_specs::cmp::PartialEqSpecImpl for DockerTestError {
    open spec fn obeys_eq_spec() -> bool {
        true
    }

    open spec fn eq_spec(&self, other: &Self) -> bool {
        self.spec_eq(other)
    }
}

} // verus!
