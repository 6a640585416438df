//! The forms a container takes as it moves through the run's phases.

use vstd::prelude::*;

use crate::composition::LogOptions;
use crate::StartPolicy;

verus! {

/// An IPv4 address as four plain octets.
#[derive(Clone, Copy, Debug, PartialEq, Eq, Structural)]
pub struct Ipv4Address {
    pub octet0: u8,
    pub octet1: u8,
    pub octet2: u8,
    pub octet3: u8,
}

impl Ipv4Address {
    /// `0.0.0.0`: reported when a container has no address on the
    /// run's network.
    pub fn unspecified() -> (r: Ipv4Address)
        ensures
            r == (Ipv4Address { octet0: 0, octet1: 0, octet2: 0, octet3: 0 }),
    {
        Ipv4Address { octet0: 0, octet1: 0, octet2: 0, octet3: 0 }
    }

    /// `127.0.0.1`: reported on hosts that cannot route to container
    /// addresses.
    pub fn localhost() -> (r: Ipv4Address)
        ensures
            r == (Ipv4Address { octet0: 127, octet1: 0, octet2: 0, octet3: 1 }),
    {
        Ipv4Address { octet0: 127, octet1: 0, octet2: 0, octet3: 1 }
    }
}

/// One published port: the container-side port and where it is reachable
/// on the host.
#[derive(Clone, Copy, Debug, PartialEq, Eq, Structural)]
pub struct PortMapping {
    pub container_port: u16,
    pub host_port: u16,
}

/// The host-side port map of a running container.
#[derive(Debug)]
pub struct HostPortMappings {
    pub mappings: Vec<PortMapping>,
}

impl HostPortMappings {
    /// An empty port map, reported when the daemon lists no ports.
    pub fn new() -> (r: HostPortMappings)
        ensures
            r.mappings@ == Seq::<PortMapping>::empty(),
    {
        HostPortMappings { mappings: Vec::new() }
    }
}

impl Clone for HostPortMappings {
    fn clone(&self) -> (r: Self)
        ensures
            r.mappings@ == self.mappings@,
    {
        let mut mappings: Vec<PortMapping> = Vec::new();
        let n = self.mappings.len();
        let mut i: usize = 0;
        while i < n
            invariant
                n == self.mappings@.len(),
                i <= n,
                mappings@ == self.mappings@.take(i as int),
            decreases n - i,
        {
            mappings.push(self.mappings[i]);
            proof {
                assert(mappings@ =~= self.mappings@.take(i as int + 1));
            }
            i = i + 1;
        }
        proof {
            assert(self.mappings@.take(n as int) =~= self.mappings@);
        }
        HostPortMappings { mappings }
    }
}

/// A container the daemon has created but not yet started.
#[derive(Debug)]
pub struct PendingContainer {
    /// The daemon-assigned identifier.
    pub id: String,
    /// The final container name.
    pub name: String,
    /// The user-visible handle it was created under.
    pub handle: String,
    /// Strict or relaxed startup.
    pub start_policy: StartPolicy,
    /// Log handling requested for this container.
    pub log_options: Option<LogOptions>,
}

/// A started container, as the test body sees it.
#[derive(Debug)]
pub struct RunningContainer {
    /// The daemon-assigned identifier.
    pub id: String,
    /// The final container name.
    pub name: String,
    /// The user-visible handle it was created under.
    pub handle: String,
    /// Whether the container came from the static registry; teardown
    /// never stops or removes such a container.
    pub is_static: bool,
    /// Address on the run's network; `0.0.0.0` when absent.
    pub ip: Ipv4Address,
    /// Published ports.
    pub ports: HostPortMappings,
    /// Log handling requested for this container.
    pub log_options: Option<LogOptions>,
}

/// Two running containers carry the same data, character for character.
pub open spec fn same_running(a: RunningContainer, b: RunningContainer) -> bool {
    &&& a.id@ == b.id@
    &&& a.name@ == b.name@
    &&& a.handle@ == b.handle@
    &&& a.is_static == b.is_static
    &&& a.ip == b.ip
    &&& a.ports.mappings@ == b.ports.mappings@
    &&& a.log_options == b.log_options
}

/// A container started outside this run but referenced by it; never
/// created nor destroyed here.
#[derive(Debug)]
pub struct StaticExternalContainer {
    /// The daemon-assigned identifier.
    pub id: String,
    /// The user-visible handle it resolves under.
    pub handle: String,
}

/// What teardown needs to know of a container.
#[derive(Debug)]
pub struct CleanupContainer {
    /// The daemon-assigned identifier.
    pub id: String,
    /// The final container name.
    pub name: String,
    /// Whether the container is managed by the static registry: such a
    /// container is never stopped or removed by this run.
    pub is_static: bool,
    /// Log handling requested for this container.
    pub log_options: Option<LogOptions>,
}

impl Clone for PendingContainer {
    fn clone(&self) -> (r: Self)
        ensures
            r == *self,
    {
        PendingContainer {
            id: self.id.clone(),
            name: self.name.clone(),
            handle: self.handle.clone(),
            start_policy: self.start_policy,
            log_options: self.log_options,
        }
    }
}

impl Clone for RunningContainer {
    fn clone(&self) -> (r: Self)
        ensures
            r.id@ == self.id@,
            r.name@ == self.name@,
            r.handle@ == self.handle@,
            r.is_static == self.is_static,
            r.ip == self.ip,
            r.ports.mappings@ == self.ports.mappings@,
            r.log_options == self.log_options,
    {
        RunningContainer {
            id: self.id.clone(),
            name: self.name.clone(),
            handle: self.handle.clone(),
            is_static: self.is_static,
            ip: self.ip,
            ports: self.ports.clone(),
            log_options: self.log_options,
        }
    }
}

impl Clone for StaticExternalContainer {
    fn clone(&self) -> (r: Self)
        ensures
            r == *self,
    {
        StaticExternalContainer { id: self.id.clone(), handle: self.handle.clone() }
    }
}

impl Clone for CleanupContainer {
    fn clone(&self) -> (r: Self)
        ensures
            r == *self,
    {
        CleanupContainer {
            id: self.id.clone(),
            name: self.name.clone(),
            is_static: self.is_static,
            log_options: self.log_options,
        }
    }
}

impl RunningContainer {
    /// The daemon identifier.
    pub fn id(&self) -> (r: &String)
        ensures
            r@ == self.id@,
    {
        &self.id
    }

    /// The final container name.
    pub fn name(&self) -> (r: &String)
        ensures
            r@ == self.name@,
    {
        &self.name
    }

    /// The container's address on the run's network.
    pub fn ip(&self) -> (r: Ipv4Address)
        ensures
            r == self.ip,
    {
        self.ip
    }
}

impl From<PendingContainer> for CleanupContainer {
    fn from(p: PendingContainer) -> (r: CleanupContainer) {
        CleanupContainer { id: p.id, name: p.name, is_static: false, log_options: p.log_options }
    }
}

impl vstd::std_specs::convert::FromSpecImpl<PendingContainer> for CleanupContainer {
    open spec fn obeys_from_spec() -> bool {
        true
    }

    open spec fn from_spec(p: PendingContainer) -> CleanupContainer {
        CleanupContainer { id: p.id, name: p.name, is_static: false, log_options: p.log_options }
    }
}

impl From<RunningContainer> for CleanupContainer {
    fn from(p: RunningContainer) -> (r: CleanupContainer) {
        CleanupContainer {
            id: p.id,
            name: p.name,
            is_static: p.is_static,
            log_options: p.log_options,
        }
    }
}

impl vstd::std_specs::convert::FromSpecImpl<RunningContainer> for CleanupContainer {
    open spec fn obeys_from_spec() -> bool {
        true
    }

    open spec fn from_spec(p: RunningContainer) -> CleanupContainer {
        CleanupContainer {
            id: p.id,
            name: p.name,
            is_static: p.is_static,
            log_options: p.log_options,
        }
    }
}

} // verus!
