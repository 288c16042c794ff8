//! The decisions of the monitor loop: which records to emit for an
//! observation, and what an emission's outcome does to the tracker.
use crate::detect::{detect, is_oom_killed, kills, lemma_kills_in_members};
use crate::identity::lemma_key_injective;
use crate::model::{KillOccurrence, PodObservation, occurrence_of};
use crate::notify::{build_record, describes, occ_key, NotificationRecord};
use crate::tracker::DedupTracker;
use vstd::prelude::*;

verus! {

/// What became of one attempt to create a notification record in the cluster.
#[derive(Clone, Copy, Debug, PartialEq, Eq, Structural)]
pub enum EmitOutcome {
    /// The record was created.
    Created,
    /// A record of that name already exists: an earlier attempt succeeded.
    AlreadyExists,
    /// Any other failure (permissions, validation, connectivity).
    Failed,
}

/// Whether an outcome counts as a handled notification.
pub open spec fn handled(o: EmitOutcome) -> bool {
    o is Created || o is AlreadyExists
}

/// The handled keys after `key`'s attempt ended in `o`.
pub open spec fn settled(seen: Set<Seq<char>>, key: Seq<char>, o: EmitOutcome) -> Set<Seq<char>> {
    if handled(o) {
        seen.insert(key)
    } else {
        seen
    }
}

/// The keys of a sequence of occurrences.
pub open spec fn keys_of(occs: Seq<KillOccurrence>) -> Seq<Seq<char>> {
    occs.map_values(|o: KillOccurrence| occ_key(o))
}

/// The occurrences of `occs` that need a notification, in order: those whose
/// key is not in `seen` and did not come earlier in `occs`.
pub open spec fn fresh(seen: Set<Seq<char>>, occs: Seq<KillOccurrence>) -> Seq<KillOccurrence>
    decreases occs.len(),
{
    if occs.len() == 0 {
        seq![]
    } else {
        let prev = fresh(seen, occs.drop_last());
        let k = occ_key(occs.last());
        if seen.contains(k) || keys_of(prev).contains(k) {
            prev
        } else {
            prev.push(occs.last())
        }
    }
}

/// The occurrences of observation `obs` that need a notification, given the handled keys `seen`.
pub open spec fn planned(seen: Set<Seq<char>>, obs: PodObservation) -> Seq<KillOccurrence> {
    fresh(seen, kills(obs))
}

/// The handled keys after the attempts for `occs` ended in `outs`, one
/// outcome for each, settled in order.
pub open spec fn settle_all(seen: Set<Seq<char>>, occs: Seq<KillOccurrence>, outs: Seq<EmitOutcome>) -> Set<Seq<char>>
    decreases occs.len(),
{
    if occs.len() == 0 || outs.len() == 0 {
        seen
    } else {
        settle_all(settled(seen, occ_key(occs[0]), outs[0]), occs.skip(1), outs.skip(1))
    }
}

/// The attempts made, observation by observation, when the observations
/// `obss` arrive in order and the attempts for the `i`-th end in `outs[i]`.
pub open spec fn run(seen: Set<Seq<char>>, obss: Seq<PodObservation>, outs: Seq<Seq<EmitOutcome>>) -> Seq<Seq<KillOccurrence>>
    decreases obss.len(),
{
    if obss.len() == 0 {
        seq![]
    } else {
        let p = planned(seen, obss[0]);
        seq![p] + run(settle_all(seen, p, outs[0]), obss.skip(1), outs.skip(1))
    }
}

/// Whether an outcome counts as a handled notification: a created record, or
/// one that already existed.
pub fn is_handled(o: EmitOutcome) -> (r: bool)
    ensures
        r == handled(o),
{
    match o {
        EmitOutcome::Created => true,
        EmitOutcome::AlreadyExists => true,
        EmitOutcome::Failed => false,
    }
}

/// The HTTP status with which the cluster refuses to create a record whose
/// name is taken.
pub const CONFLICT_STATUS: u16 = 409;

/// The outcome of a create request: `Ok` when the cluster created the record;
/// `Err(Some(status))` when it refused it with an HTTP status; `Err(None)`
/// when no answer came (connectivity).
pub open spec fn outcome_of(response: Result<(), Option<u16>>) -> EmitOutcome {
    match response {
        Ok(()) => EmitOutcome::Created,
        Err(Some(status)) => if status == CONFLICT_STATUS {
            EmitOutcome::AlreadyExists
        } else {
            EmitOutcome::Failed
        },
        Err(None) => EmitOutcome::Failed,
    }
}

/// Classifies the answer to a create request: a conflict on the record's name
/// means an earlier attempt created it, any other refusal is a failure.
pub fn classify_create(response: Result<(), Option<u16>>) -> (r: EmitOutcome)
    ensures
        r == outcome_of(response),
{
    match response {
        Ok(()) => EmitOutcome::Created,
        Err(Some(status)) => if status == CONFLICT_STATUS {
            EmitOutcome::AlreadyExists
        } else {
            EmitOutcome::Failed
        },
        Err(None) => EmitOutcome::Failed,
    }
}

/// Whether some record of `records` has identity `key`.
fn holds_key(records: &Vec<NotificationRecord>, key: &String) -> (r: bool)
    ensures
        r == exists|j: int| 0 <= j < records@.len() && records@[j].identity_key@ == key@,
{
    let n = records.len();
    let mut i: usize = 0;
    while i < n
        invariant
            n == records@.len(),
            i <= n,
            forall|j: int| 0 <= j < i ==> records@[j].identity_key@ != key@,
        decreases n - i,
    {
        if records[i].identity_key == *key {
            return true;
        }
        i += 1;
    }
    false
}

/// The records to emit for an observation: one for each out-of-memory kill in
/// it whose identity key the tracker has not seen, at most one per key, in
/// container order.
pub fn plan(tracker: &DedupTracker, obs: &PodObservation) -> (r: Vec<NotificationRecord>)
    ensures
        r@.len() == planned(tracker@, *obs).len(),
        forall|i: int| 0 <= i < r@.len() ==> describes(#[trigger] r@[i], planned(tracker@, *obs)[i]),
{
    let occs = detect(obs);
    let ghost seen = tracker@;
    let mut out: Vec<NotificationRecord> = Vec::new();
    let n = occs.len();
    let mut i: usize = 0;
    while i < n
        invariant
            n == occs@.len(),
            occs@ == kills(*obs),
            seen == tracker@,
            i <= n,
            out@.len() == fresh(seen, occs@.subrange(0, i as int)).len(),
            forall|j: int| 0 <= j < out@.len() ==> describes(#[trigger] out@[j], fresh(seen, occs@.subrange(0, i as int))[j]),
        decreases n - i,
    {
        let ghost prev = fresh(seen, occs@.subrange(0, i as int));
        assert(occs@.subrange(0, i + 1).drop_last() =~= occs@.subrange(0, i as int));
        let rec = build_record(&occs[i]);
        let ghost k = occ_key(occs@[i as int]);
        let dup = holds_key(&out, &rec.identity_key);
        assert(dup == keys_of(prev).contains(k)) by {
            if dup {
                let j = choose|j: int| 0 <= j < out@.len() && out@[j].identity_key@ == k;
                assert(keys_of(prev)[j] == k);
            }
            if keys_of(prev).contains(k) {
                let j = choose|j: int| 0 <= j < keys_of(prev).len() && keys_of(prev)[j] == k;
                assert(out@[j].identity_key@ == k);
            }
        }
        if tracker.should_process(&rec.identity_key) && !dup {
            out.push(rec);
        }
        i += 1;
    }
    assert(occs@.subrange(0, n as int) =~= occs@);
    out
}

/// Applies the outcome of the attempt to emit `record` to the tracker: the key
/// is recorded as seen exactly when the record was created or already existed.
/// Returns whether the notification counts as handled.
pub fn settle(tracker: &mut DedupTracker, record: &NotificationRecord, outcome: EmitOutcome) -> (r: bool)
    ensures
        r == handled(outcome),
        final(tracker)@ == settled(old(tracker)@, record.identity_key@, outcome),
{
    if is_handled(outcome) {
        tracker.mark_seen(record.identity_key.clone());
        true
    } else {
        false
    }
}

/// Every occurrence planned has a key outside `seen`, and no two planned
/// occurrences share a key: within one observation each key is emitted at
/// most once.
pub proof fn lemma_fresh_keys(seen: Set<Seq<char>>, occs: Seq<KillOccurrence>)
    ensures
        forall|i: int| 0 <= i < fresh(seen, occs).len() ==> !seen.contains(#[trigger] occ_key(fresh(seen, occs)[i])),
        forall|i: int, j: int|
            0 <= i < j < fresh(seen, occs).len() ==> occ_key(#[trigger] fresh(seen, occs)[i]) != occ_key(
                #[trigger] fresh(seen, occs)[j],
            ),
    decreases occs.len(),
{
    if occs.len() > 0 {
        let prev = fresh(seen, occs.drop_last());
        lemma_fresh_keys(seen, occs.drop_last());
        let k = occ_key(occs.last());
        if !(seen.contains(k) || keys_of(prev).contains(k)) {
            let f = fresh(seen, occs);
            assert forall|i: int, j: int| 0 <= i < j < f.len() implies occ_key(#[trigger] f[i]) != occ_key(#[trigger] f[j]) by {
                if j == f.len() - 1 {
                    assert(keys_of(prev)[i] == occ_key(f[i]));
                } else {
                    assert(f[i] == prev[i] && f[j] == prev[j]);
                }
            }
            assert forall|i: int| 0 <= i < f.len() implies !seen.contains(#[trigger] occ_key(f[i])) by {
                if i < f.len() - 1 {
                    assert(f[i] == prev[i]);
                }
            }
        }
    }
}

/// Settling never forgets a key, and records the key of every handled attempt.
pub proof fn lemma_settle_all(seen: Set<Seq<char>>, occs: Seq<KillOccurrence>, outs: Seq<EmitOutcome>)
    ensures
        seen.subset_of(settle_all(seen, occs, outs)),
        forall|a: int|
            0 <= a < occs.len() && a < outs.len() && handled(#[trigger] outs[a]) ==> settle_all(seen, occs, outs).contains(
                occ_key(occs[a]),
            ),
    decreases occs.len(),
{
    if occs.len() > 0 && outs.len() > 0 {
        let s1 = settled(seen, occ_key(occs[0]), outs[0]);
        lemma_settle_all(s1, occs.skip(1), outs.skip(1));
        assert forall|a: int|
            0 <= a < occs.len() && a < outs.len() && handled(#[trigger] outs[a]) implies settle_all(seen, occs, outs).contains(
                occ_key(occs[a]),
            ) by {
            if a > 0 {
                assert(outs.skip(1)[a - 1] == outs[a]);
                assert(occs.skip(1)[a - 1] == occs[a]);
            }
        }
    }
}

/// A run makes one batch of attempts per observation.
pub proof fn lemma_run_len(seen: Set<Seq<char>>, obss: Seq<PodObservation>, outs: Seq<Seq<EmitOutcome>>)
    ensures
        run(seen, obss, outs).len() == obss.len(),
    decreases obss.len(),
{
    if obss.len() > 0 {
        lemma_run_len(settle_all(seen, planned(seen, obss[0]), outs[0]), obss.skip(1), outs.skip(1));
    }
}

/// Whatever the observations and outcomes, a run makes one batch of attempts
/// per observation, and never attempts a key that was already handled.
pub proof fn lemma_run_skips_seen(seen: Set<Seq<char>>, obss: Seq<PodObservation>, outs: Seq<Seq<EmitOutcome>>, k: Seq<char>)
    requires
        seen.contains(k),
    ensures
        run(seen, obss, outs).len() == obss.len(),
        forall|j: int, b: int|
            0 <= j < obss.len() && 0 <= b < run(seen, obss, outs)[j].len() ==> occ_key(
                #[trigger] run(seen, obss, outs)[j][b],
            ) != k,
    decreases obss.len(),
{
    if obss.len() > 0 {
        let p = planned(seen, obss[0]);
        let s1 = settle_all(seen, p, outs[0]);
        lemma_fresh_keys(seen, kills(obss[0]));
        lemma_settle_all(seen, p, outs[0]);
        lemma_run_skips_seen(s1, obss.skip(1), outs.skip(1), k);
        let r = run(seen, obss, outs);
        assert forall|j: int, b: int| 0 <= j < obss.len() && 0 <= b < r[j].len() implies occ_key(#[trigger] r[j][b]) != k by {
            if j == 0 {
                assert(r[0] == p);
            } else {
                assert(r[j] == run(s1, obss.skip(1), outs.skip(1))[j - 1]);
            }
        }
    }
}

/// Once an attempt for a key is handled (created, or found to exist), no later
/// observation in the run attempts that key again, however often the same kill
/// is delivered.
pub proof fn lemma_handled_kill_not_reemitted(
    seen: Set<Seq<char>>,
    obss: Seq<PodObservation>,
    outs: Seq<Seq<EmitOutcome>>,
    i: int,
    j: int,
    a: int,
    b: int,
)
    requires
        0 <= i < j < obss.len(),
        outs.len() == obss.len(),
        0 <= a < run(seen, obss, outs)[i].len(),
        a < outs[i].len(),
        handled(outs[i][a]),
        0 <= b < run(seen, obss, outs)[j].len(),
    ensures
        occ_key(run(seen, obss, outs)[j][b]) != occ_key(run(seen, obss, outs)[i][a]),
    decreases i,
{
    let p = planned(seen, obss[0]);
    let s1 = settle_all(seen, p, outs[0]);
    let r = run(seen, obss, outs);
    let rest = run(s1, obss.skip(1), outs.skip(1));
    lemma_run_len(s1, obss.skip(1), outs.skip(1));
    assert(r[j] == rest[j - 1]);
    if i == 0 {
        assert(r[0] == p);
        lemma_settle_all(seen, p, outs[0]);
        lemma_run_skips_seen(s1, obss.skip(1), outs.skip(1), occ_key(p[a]));
    } else {
        assert(r[i] == rest[i - 1]);
        assert(outs.skip(1)[i - 1] == outs[i]);
        lemma_handled_kill_not_reemitted(s1, obss.skip(1), outs.skip(1), i - 1, j - 1, a, b);
    }
}

/// Emitting the same occurrence again targets the same record name, so the
/// cluster answers with a conflict; and a record that already exists counts
/// exactly as one just created: the key is recorded as handled either way.
pub proof fn lemma_conflict_is_success(seen: Set<Seq<char>>, key: Seq<char>, o: KillOccurrence, r1: NotificationRecord, r2: NotificationRecord)
    requires
        describes(r1, o),
        describes(r2, o),
    ensures
        r1.identity_key@ == r2.identity_key@,
        handled(EmitOutcome::AlreadyExists),
        settled(seen, key, EmitOutcome::AlreadyExists) == settled(seen, key, EmitOutcome::Created),
        settled(seen, key, EmitOutcome::AlreadyExists).contains(key),
{
}

/// Every occurrence whose key is not in `seen` has its key among the planned ones.
pub proof fn lemma_fresh_covers(seen: Set<Seq<char>>, occs: Seq<KillOccurrence>)
    ensures
        forall|i: int|
            0 <= i < occs.len() && !seen.contains(#[trigger] occ_key(occs[i])) ==> keys_of(fresh(seen, occs)).contains(
                occ_key(occs[i]),
            ),
    decreases occs.len(),
{
    if occs.len() > 0 {
        let pre = occs.drop_last();
        let prev = fresh(seen, pre);
        let cur = fresh(seen, occs);
        lemma_fresh_covers(seen, pre);
        assert forall|k: Seq<char>| keys_of(prev).contains(k) implies keys_of(cur).contains(k) by {
            let j = choose|j: int| 0 <= j < keys_of(prev).len() && keys_of(prev)[j] == k;
            assert(keys_of(cur)[j] == k);
        }
        assert forall|i: int| 0 <= i < occs.len() && !seen.contains(#[trigger] occ_key(occs[i])) implies keys_of(cur).contains(
            occ_key(occs[i]),
        ) by {
            if i < occs.len() - 1 {
                assert(pre[i] == occs[i]);
                assert(keys_of(prev).contains(occ_key(pre[i])));
            } else if !keys_of(prev).contains(occ_key(occs[i])) {
                assert(keys_of(cur)[prev.len() as int] == occ_key(occs[i]));
            }
        }
    }
}

/// After a kill `o1` has been handled, an observation in which the same
/// container of the same pod was killed at another restart count, not yet
/// handled, still plans that kill: its key differs from `o1`'s and is not
/// deduplicated against it.
pub proof fn lemma_new_restart_is_new(seen: Set<Seq<char>>, o1: KillOccurrence, obs: PodObservation, i: int, out: EmitOutcome)
    requires
        0 <= i < obs.containers@.len(),
        is_oom_killed(obs.containers@[i]),
        obs.uid@ == o1.pod_uid@,
        obs.containers@[i].name@ == o1.container_name@,
        obs.containers@[i].restart_count != o1.restart_count,
        !seen.contains(occ_key(occurrence_of(obs, obs.containers@[i]))),
    ensures
        occ_key(o1) != occ_key(occurrence_of(obs, obs.containers@[i])),
        keys_of(planned(settled(seen, occ_key(o1), out), obs)).contains(occ_key(occurrence_of(obs, obs.containers@[i]))),
{
    let c = obs.containers@[i];
    let o2 = occurrence_of(obs, c);
    let s1 = settled(seen, occ_key(o1), out);
    lemma_key_injective(o1.pod_uid@, o1.container_name@, o1.restart_count as nat, o2.pod_uid@, o2.container_name@, o2.restart_count as nat);
    lemma_kills_in_members(obs, obs.containers@);
    let k = choose|k: int| 0 <= k < kills(obs).len() && #[trigger] kills(obs)[k] == occurrence_of(obs, obs.containers@[i]);
    lemma_fresh_covers(s1, kills(obs));
    assert(!s1.contains(occ_key(kills(obs)[k])));
}

} // verus!
