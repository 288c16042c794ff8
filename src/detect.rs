//! Finding out-of-memory kills in a pod's container statuses.
use crate::model::{ContainerStatus, KillOccurrence, PodObservation, occurrence_of};
use vstd::prelude::*;

verus! {

/// The termination reason the cluster gives a container killed for exceeding its memory.
pub open spec fn oom_reason() -> Seq<char> {
    "OOMKilled"@
}

/// Whether the container's last termination was an out-of-memory kill: the
/// reason is exactly `OOMKilled`.
pub open spec fn is_oom_killed(c: ContainerStatus) -> bool {
    c.last_termination_reason is Some && c.last_termination_reason->0@ == oom_reason()
}

/// The occurrences that the containers `cs` of pod `obs` yield, in container order.
pub open spec fn kills_in(obs: PodObservation, cs: Seq<ContainerStatus>) -> Seq<KillOccurrence>
    decreases cs.len(),
{
    if cs.len() == 0 {
        seq![]
    } else {
        let prev = kills_in(obs, cs.drop_last());
        if is_oom_killed(cs.last()) {
            prev.push(occurrence_of(obs, cs.last()))
        } else {
            prev
        }
    }
}

/// The occurrences that an observation yields.
pub open spec fn kills(obs: PodObservation) -> Seq<KillOccurrence> {
    kills_in(obs, obs.containers@)
}

/// Whether the container's last termination was an out-of-memory kill.
pub fn was_oom_killed(c: &ContainerStatus) -> (r: bool)
    ensures
        r == is_oom_killed(*c),
{
    match &c.last_termination_reason {
        Some(reason) => {
            let target = String::from_str("OOMKilled");
            *reason == target
        },
        None => false,
    }
}

/// Builds the occurrence for container `c` of pod `obs`.
pub fn make_occurrence(obs: &PodObservation, c: &ContainerStatus) -> (r: KillOccurrence)
    ensures
        r == occurrence_of(*obs, *c),
{
    KillOccurrence {
        pod_namespace: obs.namespace.clone(),
        pod_name: obs.name.clone(),
        pod_uid: obs.uid.clone(),
        container_name: c.name.clone(),
        restart_count: c.restart_count,
        observed_at: c.last_termination_timestamp,
    }
}

/// The out-of-memory kills in an observation: one for each container whose
/// last termination reason is exactly `OOMKilled`, in container order.
pub fn detect(obs: &PodObservation) -> (r: Vec<KillOccurrence>)
    ensures
        r@ == kills(*obs),
{
    let mut out: Vec<KillOccurrence> = Vec::new();
    let n = obs.containers.len();
    let mut i: usize = 0;
    while i < n
        invariant
            n == obs.containers@.len(),
            i <= n,
            out@ == kills_in(*obs, obs.containers@.subrange(0, i as int)),
        decreases n - i,
    {
        let c = &obs.containers[i];
        assert(obs.containers@.subrange(0, i + 1).drop_last() =~= obs.containers@.subrange(0, i as int));
        if was_oom_killed(c) {
            out.push(make_occurrence(obs, c));
        }
        i += 1;
    }
    assert(obs.containers@.subrange(0, n as int) =~= obs.containers@);
    out
}

/// An observation of a single container yields one occurrence when its last
/// termination reason is exactly `OOMKilled`, and none otherwise.
pub proof fn lemma_single_container(obs: PodObservation)
    requires
        obs.containers@.len() == 1,
    ensures
        is_oom_killed(obs.containers@[0]) ==> kills(obs) == seq![occurrence_of(obs, obs.containers@[0])],
        !is_oom_killed(obs.containers@[0]) ==> kills(obs).len() == 0,
{
    let cs = obs.containers@;
    assert(cs.drop_last() =~= Seq::<ContainerStatus>::empty());
    assert(kills_in(obs, cs.drop_last()) == Seq::<KillOccurrence>::empty());
    if is_oom_killed(cs[0]) {
        assert(kills(obs) =~= seq![occurrence_of(obs, cs[0])]);
    }
}

/// `o` is the occurrence of some container of `cs` killed for memory.
pub open spec fn comes_from_kill(obs: PodObservation, cs: Seq<ContainerStatus>, o: KillOccurrence) -> bool {
    exists|i: int| 0 <= i < cs.len() && is_oom_killed(#[trigger] cs[i]) && o == occurrence_of(obs, cs[i])
}

/// Every occurrence found comes from a container killed for memory, and every
/// such container yields its occurrence.
pub proof fn lemma_kills_in_members(obs: PodObservation, cs: Seq<ContainerStatus>)
    ensures
        forall|k: int| 0 <= k < kills_in(obs, cs).len() ==> comes_from_kill(obs, cs, #[trigger] kills_in(obs, cs)[k]),
        forall|i: int|
            0 <= i < cs.len() && is_oom_killed(#[trigger] cs[i]) ==> exists|k: int|
                0 <= k < kills_in(obs, cs).len() && #[trigger] kills_in(obs, cs)[k] == occurrence_of(obs, cs[i]),
    decreases cs.len(),
{
    if cs.len() > 0 {
        let pre = cs.drop_last();
        let prev = kills_in(obs, pre);
        let cur = kills_in(obs, cs);
        lemma_kills_in_members(obs, pre);
        assert forall|k: int| 0 <= k < cur.len() implies comes_from_kill(obs, cs, #[trigger] cur[k]) by {
            if k < prev.len() {
                assert(cur[k] == prev[k]);
                assert(comes_from_kill(obs, pre, prev[k]));
                let i = choose|i: int| 0 <= i < pre.len() && is_oom_killed(#[trigger] pre[i]) && prev[k] == occurrence_of(obs, pre[i]);
                assert(pre[i] == cs[i]);
            } else {
                let i = cs.len() - 1;
                assert(is_oom_killed(cs[i]) && cur[k] == occurrence_of(obs, cs[i]));
            }
        }
        assert forall|i: int| 0 <= i < cs.len() && is_oom_killed(#[trigger] cs[i]) implies exists|k: int|
            0 <= k < cur.len() && #[trigger] cur[k] == occurrence_of(obs, cs[i]) by {
            if i < cs.len() - 1 {
                assert(pre[i] == cs[i]);
                let k = choose|k: int| 0 <= k < prev.len() && #[trigger] prev[k] == occurrence_of(obs, pre[i]);
                assert(cur[k] == prev[k]);
            } else {
                assert(cur[prev.len() as int] == occurrence_of(obs, cs[i]));
            }
        }
    }
}

/// Where no two containers share both name and restart count, an observation
/// yields an occurrence for a container, by name and restart count, exactly
/// when that container's last termination reason is `OOMKilled`.
pub proof fn lemma_detect_by_container(obs: PodObservation)
    requires
        forall|i: int, j: int|
            0 <= i < j < obs.containers@.len() ==> !(#[trigger] obs.containers@[i].name@ == #[trigger] obs.containers@[j].name@
                && obs.containers@[i].restart_count == obs.containers@[j].restart_count),
    ensures
        forall|i: int|
            0 <= i < obs.containers@.len() ==> ((exists|k: int|
                0 <= k < kills(obs).len() && (#[trigger] kills(obs)[k]).container_name@ == obs.containers@[i].name@
                    && kills(obs)[k].restart_count == obs.containers@[i].restart_count) <==> is_oom_killed(
                #[trigger] obs.containers@[i],
            )),
{
    let cs = obs.containers@;
    lemma_kills_in_members(obs, cs);
    assert forall|i: int| 0 <= i < cs.len() implies ((exists|k: int|
        0 <= k < kills(obs).len() && (#[trigger] kills(obs)[k]).container_name@ == cs[i].name@
            && kills(obs)[k].restart_count == cs[i].restart_count) <==> is_oom_killed(#[trigger] cs[i])) by {
        if is_oom_killed(cs[i]) {
            let k = choose|k: int| 0 <= k < kills(obs).len() && #[trigger] kills(obs)[k] == occurrence_of(obs, cs[i]);
            assert(kills(obs)[k].container_name@ == cs[i].name@);
        }
        if exists|k: int|
            0 <= k < kills(obs).len() && (#[trigger] kills(obs)[k]).container_name@ == cs[i].name@
                && kills(obs)[k].restart_count == cs[i].restart_count {
            let k = choose|k: int|
                0 <= k < kills(obs).len() && (#[trigger] kills(obs)[k]).container_name@ == cs[i].name@
                    && kills(obs)[k].restart_count == cs[i].restart_count;
            assert(comes_from_kill(obs, cs, kills(obs)[k]));
            let i2 = choose|i2: int| 0 <= i2 < cs.len() && is_oom_killed(#[trigger] cs[i2]) && kills(obs)[k] == occurrence_of(obs, cs[i2]);
            if i2 < i {
                assert(!(cs[i2].name@ == cs[i].name@ && cs[i2].restart_count == cs[i].restart_count));
            } else if i < i2 {
                assert(!(cs[i].name@ == cs[i2].name@ && cs[i].restart_count == cs[i2].restart_count));
            }
        }
    }
}

} // verus!
