//! The values that flow through the monitor.
use vstd::prelude::*;

verus! {

/// The state of one container within a pod, as last observed.
#[derive(Clone, Debug)]
pub struct ContainerStatus {
    pub name: String,
    pub restart_count: u32,
    /// Reason of the container's last termination, if it has terminated.
    pub last_termination_reason: Option<String>,
    pub last_termination_exit_code: Option<i32>,
    /// Time of the last termination, in seconds since the Unix epoch.
    pub last_termination_timestamp: Option<i64>,
}

/// A snapshot of one pod: its identity and its container statuses, in order.
#[derive(Clone, Debug)]
pub struct PodObservation {
    pub namespace: String,
    pub name: String,
    pub uid: String,
    pub containers: Vec<ContainerStatus>,
}

/// One container of one pod killed by the out-of-memory killer at a given restart count.
#[derive(Clone, Debug)]
pub struct KillOccurrence {
    pub pod_namespace: String,
    pub pod_name: String,
    pub pod_uid: String,
    pub container_name: String,
    pub restart_count: u32,
    /// Time of the kill, in seconds since the Unix epoch, when known.
    pub observed_at: Option<i64>,
}

/// The occurrence that container `c` of pod `obs` stands for.
pub open spec fn occurrence_of(obs: PodObservation, c: ContainerStatus) -> KillOccurrence {
    KillOccurrence {
        pod_namespace: obs.namespace,
        pod_name: obs.name,
        pod_uid: obs.uid,
        container_name: c.name,
        restart_count: c.restart_count,
        observed_at: c.last_termination_timestamp,
    }
}

} // verus!
