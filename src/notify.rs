//! The notification record written to the cluster for a kill.
use crate::identity::{append_decimal, decimal, identity_key, key_of};
use crate::model::KillOccurrence;
use vstd::prelude::*;

verus! {

/// Severity of a notification record.
#[derive(Clone, Copy, Debug, PartialEq, Eq, Structural)]
pub enum Severity {
    Normal,
    Warning,
}

/// The record that describes one kill, addressed to the killed pod.
#[derive(Clone, Debug)]
pub struct NotificationRecord {
    pub target_kind: String,
    pub target_api_version: String,
    pub target_namespace: String,
    pub target_name: String,
    pub target_uid: String,
    pub reason: String,
    pub action: String,
    pub message: String,
    pub severity: Severity,
    pub source_component: String,
    pub first_observed_at: Option<i64>,
    pub last_observed_at: Option<i64>,
    /// The record's own name in the cluster, which makes its creation idempotent.
    pub identity_key: String,
}

/// The identity key of an occurrence.
pub open spec fn occ_key(o: KillOccurrence) -> Seq<char> {
    key_of(o.pod_uid@, o.container_name@, o.restart_count as nat)
}

/// The human-readable text of the record for `o`.
pub open spec fn message_of(o: KillOccurrence) -> Seq<char> {
    "Pod "@ + o.pod_name@ + " in namespace "@ + o.pod_namespace@ + " was OOMKilled on restart "@
        + decimal(o.restart_count as nat) + "."@
}

/// `r` is the record for occurrence `o`.
pub open spec fn describes(r: NotificationRecord, o: KillOccurrence) -> bool {
    &&& r.target_kind@ == "Pod"@
    &&& r.target_api_version@ == "v1"@
    &&& r.target_namespace@ == o.pod_namespace@
    &&& r.target_name@ == o.pod_name@
    &&& r.target_uid@ == o.pod_uid@
    &&& r.reason@ == "OOMKilling"@
    &&& r.action@ == "Terminated"@
    &&& r.message@ == message_of(o)
    &&& r.severity == Severity::Warning
    &&& r.source_component@ == "banshee"@
    &&& r.first_observed_at == o.observed_at
    &&& r.last_observed_at == o.observed_at
    &&& r.identity_key@ == occ_key(o)
}

/// The message for `o`: pod name, namespace and restart count.
pub fn build_message(o: &KillOccurrence) -> (r: String)
    ensures
        r@ == message_of(*o),
{
    let mut m = String::from_str("Pod ");
    m.append(o.pod_name.as_str());
    m.append(" in namespace ");
    m.append(o.pod_namespace.as_str());
    m.append(" was OOMKilled on restart ");
    append_decimal(&mut m, o.restart_count as u64);
    m.append(".");
    assert(m@ =~= message_of(*o));
    m
}

/// The notification record for `o`.
pub fn build_record(o: &KillOccurrence) -> (r: NotificationRecord)
    ensures
        describes(r, *o),
{
    NotificationRecord {
        target_kind: String::from_str("Pod"),
        target_api_version: String::from_str("v1"),
        target_namespace: o.pod_namespace.clone(),
        target_name: o.pod_name.clone(),
        target_uid: o.pod_uid.clone(),
        reason: String::from_str("OOMKilling"),
        action: String::from_str("Terminated"),
        message: build_message(o),
        severity: Severity::Warning,
        source_component: String::from_str("banshee"),
        first_observed_at: o.observed_at,
        last_observed_at: o.observed_at,
        identity_key: identity_key(&o.pod_uid, &o.container_name, o.restart_count),
    }
}

} // verus!
