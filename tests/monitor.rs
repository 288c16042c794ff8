use banshee::detect::{detect, was_oom_killed};
use banshee::identity::{decimal_string, identity_key};
use banshee::model::{ContainerStatus, KillOccurrence, PodObservation};
use banshee::notify::{build_message, build_record, Severity};
use banshee::pipeline::{classify_create, is_handled, plan, settle, EmitOutcome};
use banshee::tracker::DedupTracker;

fn status(name: &str, restarts: u32, reason: Option<&str>) -> ContainerStatus {
    ContainerStatus {
        name: name.to_string(),
        restart_count: restarts,
        last_termination_reason: reason.map(|r| r.to_string()),
        last_termination_exit_code: reason.map(|_| 137),
        last_termination_timestamp: reason.map(|_| 1_700_000_000),
    }
}

fn pod(ns: &str, name: &str, uid: &str, containers: Vec<ContainerStatus>) -> PodObservation {
    PodObservation {
        namespace: ns.to_string(),
        name: name.to_string(),
        uid: uid.to_string(),
        containers,
    }
}

#[test]
fn oom_killed_reason_is_detected() {
    let obs = pod("default", "worker-1", "abc", vec![status("app", 3, Some("OOMKilled"))]);
    let found = detect(&obs);
    assert_eq!(found.len(), 1);
    assert_eq!(found[0].pod_namespace, "default");
    assert_eq!(found[0].pod_name, "worker-1");
    assert_eq!(found[0].pod_uid, "abc");
    assert_eq!(found[0].container_name, "app");
    assert_eq!(found[0].restart_count, 3);
    assert_eq!(found[0].observed_at, Some(1_700_000_000));
}

#[test]
fn other_reasons_are_not_detected() {
    for reason in ["Error", "Completed", "oomkilled", "OOMKilled ", "OOMKill", ""] {
        let obs = pod("default", "p", "u", vec![status("app", 1, Some(reason))]);
        assert!(detect(&obs).is_empty(), "reason {:?}", reason);
    }
}

#[test]
fn no_termination_is_not_detected() {
    let obs = pod("default", "p", "u", vec![status("app", 0, None)]);
    assert!(detect(&obs).is_empty());
    assert!(!was_oom_killed(&obs.containers[0]));
}

#[test]
fn exit_code_alone_is_not_detected() {
    let mut c = status("app", 2, Some("Error"));
    c.last_termination_exit_code = Some(137);
    assert!(!was_oom_killed(&c));
}

#[test]
fn pod_without_containers_yields_nothing() {
    let obs = pod("default", "p", "u", vec![]);
    assert!(detect(&obs).is_empty());
}

#[test]
fn two_killed_containers_in_order() {
    let obs = pod(
        "default",
        "p",
        "u",
        vec![
            status("sidecar", 1, Some("OOMKilled")),
            status("healthy", 0, None),
            status("main", 4, Some("OOMKilled")),
        ],
    );
    let found = detect(&obs);
    assert_eq!(found.len(), 2);
    assert_eq!(found[0].container_name, "sidecar");
    assert_eq!(found[0].restart_count, 1);
    assert_eq!(found[1].container_name, "main");
    assert_eq!(found[1].restart_count, 4);
}

#[test]
fn decimal_text() {
    assert_eq!(decimal_string(0), "0");
    assert_eq!(decimal_string(7), "7");
    assert_eq!(decimal_string(10), "10");
    assert_eq!(decimal_string(305), "305");
    assert_eq!(decimal_string(u32::MAX), "4294967295");
}

#[test]
fn identity_key_joins_fields() {
    let k = identity_key(&"abc".to_string(), &"app".to_string(), 3);
    assert_eq!(k, "3.abc.app.3");
    let k = identity_key(&"0f1e-22".to_string(), &"db".to_string(), 12);
    assert_eq!(k, "7.0f1e-22.db.12");
}

#[test]
fn message_names_pod_namespace_and_restart() {
    let occ = KillOccurrence {
        pod_namespace: "prod".to_string(),
        pod_name: "api-7".to_string(),
        pod_uid: "u1".to_string(),
        container_name: "web".to_string(),
        restart_count: 42,
        observed_at: None,
    };
    assert_eq!(build_message(&occ), "Pod api-7 in namespace prod was OOMKilled on restart 42.");
}

#[test]
fn record_fields() {
    let occ = KillOccurrence {
        pod_namespace: "prod".to_string(),
        pod_name: "api-7".to_string(),
        pod_uid: "u1".to_string(),
        container_name: "web".to_string(),
        restart_count: 2,
        observed_at: Some(99),
    };
    let r = build_record(&occ);
    assert_eq!(r.target_kind, "Pod");
    assert_eq!(r.target_api_version, "v1");
    assert_eq!(r.target_namespace, "prod");
    assert_eq!(r.target_name, "api-7");
    assert_eq!(r.target_uid, "u1");
    assert_eq!(r.reason, "OOMKilling");
    assert_eq!(r.action, "Terminated");
    assert_eq!(r.severity, Severity::Warning);
    assert_eq!(r.source_component, "banshee");
    assert_eq!(r.first_observed_at, Some(99));
    assert_eq!(r.last_observed_at, Some(99));
    assert_eq!(r.identity_key, "2.u1.web.2");
    assert_eq!(r.message, "Pod api-7 in namespace prod was OOMKilled on restart 2.");
}

#[test]
fn tracker_records_keys() {
    let mut t = DedupTracker::new();
    let k = "u.c.1".to_string();
    assert!(!t.has_seen(&k));
    assert!(t.should_process(&k));
    t.mark_seen(k.clone());
    assert!(t.has_seen(&k));
    assert!(!t.should_process(&k));
    t.mark_seen(k.clone());
    assert!(t.has_seen(&k));
    assert!(!t.has_seen(&"u.c.2".to_string()));
}

#[test]
fn outcome_classification() {
    assert!(is_handled(EmitOutcome::Created));
    assert!(is_handled(EmitOutcome::AlreadyExists));
    assert!(!is_handled(EmitOutcome::Failed));
}

#[test]
fn end_to_end_single_kill() {
    let t = DedupTracker::new();
    let obs = pod("default", "worker-1", "abc", vec![status("app", 3, Some("OOMKilled"))]);
    let recs = plan(&t, &obs);
    assert_eq!(recs.len(), 1);
    assert_eq!(recs[0].identity_key, "3.abc.app.3");
    assert!(recs[0].message.contains("worker-1"));
    assert!(recs[0].message.contains("default"));
    assert!(recs[0].message.contains('3'));
}

#[test]
fn end_to_end_error_reason() {
    let t = DedupTracker::new();
    let obs = pod("default", "worker-1", "abc", vec![status("app", 3, Some("Error"))]);
    assert!(detect(&obs).is_empty());
    assert!(plan(&t, &obs).is_empty());
}

#[test]
fn end_to_end_replayed_kill_emits_once() {
    let mut t = DedupTracker::new();
    let obs = pod("default", "worker-1", "abc", vec![status("app", 3, Some("OOMKilled"))]);
    let mut attempts = 0;
    for _ in 0..2 {
        for rec in plan(&t, &obs) {
            attempts += 1;
            assert!(settle(&mut t, &rec, EmitOutcome::Created));
        }
    }
    assert_eq!(attempts, 1);
}

#[test]
fn conflict_counts_as_handled() {
    let mut t = DedupTracker::new();
    let obs = pod("default", "worker-1", "abc", vec![status("app", 3, Some("OOMKilled"))]);
    let first = plan(&t, &obs);
    assert_eq!(first.len(), 1);
    assert!(settle(&mut t, &first[0], EmitOutcome::AlreadyExists));
    assert!(t.has_seen(&"3.abc.app.3".to_string()));
    assert!(plan(&t, &obs).is_empty());
}

#[test]
fn failed_emission_is_retried_on_redelivery() {
    let mut t = DedupTracker::new();
    let obs = pod("default", "worker-1", "abc", vec![status("app", 3, Some("OOMKilled"))]);
    let first = plan(&t, &obs);
    assert!(!settle(&mut t, &first[0], EmitOutcome::Failed));
    assert!(!t.has_seen(&first[0].identity_key));
    let again = plan(&t, &obs);
    assert_eq!(again.len(), 1);
    assert_eq!(again[0].identity_key, "3.abc.app.3");
}

#[test]
fn restart_increase_is_a_new_kill() {
    let mut t = DedupTracker::new();
    let first = pod("default", "worker-1", "abc", vec![status("app", 3, Some("OOMKilled"))]);
    let recs = plan(&t, &first);
    assert!(settle(&mut t, &recs[0], EmitOutcome::Created));
    let later = pod("default", "worker-1", "abc", vec![status("app", 4, Some("OOMKilled"))]);
    let recs = plan(&t, &later);
    assert_eq!(recs.len(), 1);
    assert_eq!(recs[0].identity_key, "3.abc.app.4");
    assert_ne!(recs[0].identity_key, "3.abc.app.3");
}

#[test]
fn two_kills_in_one_pod_are_both_planned() {
    let t = DedupTracker::new();
    let obs = pod(
        "default",
        "p",
        "u",
        vec![status("a", 1, Some("OOMKilled")), status("b", 2, Some("OOMKilled"))],
    );
    let recs = plan(&t, &obs);
    assert_eq!(recs.len(), 2);
    assert_eq!(recs[0].identity_key, "1.u.a.1");
    assert_eq!(recs[1].identity_key, "1.u.b.2");
}

#[test]
fn repeated_key_in_one_observation_is_planned_once() {
    let t = DedupTracker::new();
    let obs = pod(
        "default",
        "p",
        "u",
        vec![status("a", 1, Some("OOMKilled")), status("a", 1, Some("OOMKilled"))],
    );
    assert_eq!(detect(&obs).len(), 2);
    assert_eq!(plan(&t, &obs).len(), 1);
}

#[test]
fn same_names_in_another_pod_are_distinct() {
    let mut t = DedupTracker::new();
    let first = pod("default", "worker-1", "abc", vec![status("app", 3, Some("OOMKilled"))]);
    let recs = plan(&t, &first);
    settle(&mut t, &recs[0], EmitOutcome::Created);
    let recreated = pod("default", "worker-1", "def", vec![status("app", 3, Some("OOMKilled"))]);
    let recs = plan(&t, &recreated);
    assert_eq!(recs.len(), 1);
    assert_eq!(recs[0].identity_key, "3.def.app.3");
}

#[test]
fn dotted_names_do_not_collide() {
    let k1 = identity_key(&"a.b".to_string(), &"c".to_string(), 5);
    let k2 = identity_key(&"a".to_string(), &"b.c".to_string(), 5);
    assert_eq!(k1, "3.a.b.c.5");
    assert_eq!(k2, "1.a.b.c.5");
    assert_ne!(k1, k2);
    let mut t = DedupTracker::new();
    let first = pod("default", "p", "a.b", vec![status("c", 5, Some("OOMKilled"))]);
    let recs = plan(&t, &first);
    assert!(settle(&mut t, &recs[0], EmitOutcome::Created));
    let second = pod("default", "q", "a", vec![status("b.c", 5, Some("OOMKilled"))]);
    assert_eq!(plan(&t, &second).len(), 1);
}

#[test]
fn create_responses_are_classified() {
    assert_eq!(classify_create(Ok(())), EmitOutcome::Created);
    assert_eq!(classify_create(Err(Some(409))), EmitOutcome::AlreadyExists);
    assert_eq!(classify_create(Err(Some(403))), EmitOutcome::Failed);
    assert_eq!(classify_create(Err(Some(422))), EmitOutcome::Failed);
    assert_eq!(classify_create(Err(None)), EmitOutcome::Failed);
}

#[test]
fn restart_increase_in_a_larger_pod_is_planned() {
    let mut t = DedupTracker::new();
    t.mark_seen("7.other-1.x.0".to_string());
    let first = pod(
        "default",
        "p",
        "u",
        vec![status("a", 1, Some("OOMKilled")), status("b", 2, Some("OOMKilled"))],
    );
    for rec in plan(&t, &first) {
        settle(&mut t, &rec, EmitOutcome::Created);
    }
    let later = pod(
        "default",
        "p",
        "u",
        vec![status("a", 1, Some("OOMKilled")), status("b", 3, Some("OOMKilled"))],
    );
    let recs = plan(&t, &later);
    assert_eq!(recs.len(), 1);
    assert_eq!(recs[0].identity_key, "1.u.b.3");
}
