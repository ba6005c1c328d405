use libfrugalos::bucket::{BucketKind, BucketTopology};
use libfrugalos::consistency::{
    ConsistencyError, ConsistencyResolver, ReadConsistency, ReplicaResponse,
};
use libfrugalos::object::{ObjectVersion, VersionedValue};

fn replicas(n: u32) -> BucketTopology {
    BucketTopology::new(BucketKind::Replicated { segment_count: 16, tolerable_faults: n - 1 }).unwrap()
}

fn answer(version: u64, content: &str) -> ReplicaResponse {
    ReplicaResponse::Answered(Some(VersionedValue {
        version: ObjectVersion(version),
        content: content.as_bytes().to_vec(),
    }))
}

fn unwrap_value(r: Result<Option<VersionedValue>, ConsistencyError>) -> (u64, Vec<u8>) {
    let v = r.unwrap().unwrap();
    (v.version.0, v.content)
}

#[test]
fn default_policy_is_consistent() {
    assert_eq!(ReadConsistency::default(), ReadConsistency::Consistent);
}

#[test]
fn quorum_read_over_five_replicas() {
    let t = replicas(5);
    assert_eq!(ReadConsistency::Quorum.required_responses(5), 3);
    let responses = vec![
        answer(1, "a"),
        answer(2, "b"),
        ReplicaResponse::TimedOut,
        answer(2, "b"),
        ReplicaResponse::TimedOut,
    ];
    let r = ConsistencyResolver::resolve(ReadConsistency::Quorum, &t, None, 1000, &responses);
    assert_eq!(unwrap_value(r), (2, b"b".to_vec()));
}

#[test]
fn quorum_read_with_too_few_answers_fails() {
    let t = replicas(5);
    let responses = vec![
        answer(1, "a"),
        ReplicaResponse::Failed,
        ReplicaResponse::TimedOut,
        answer(2, "b"),
        ReplicaResponse::TimedOut,
    ];
    let r = ConsistencyResolver::resolve(ReadConsistency::Quorum, &t, None, 1000, &responses);
    assert_eq!(r.unwrap_err(), ConsistencyError::InsufficientReplicas);
}

#[test]
fn quorum_plan_puts_leader_first() {
    let t = replicas(5);
    let plan = ConsistencyResolver::fetch_plan(ReadConsistency::Quorum, &t, Some(2)).unwrap();
    assert_eq!(plan.order, vec![2, 0, 1, 3, 4]);
    assert_eq!(plan.required, 3);
    let plan = ConsistencyResolver::fetch_plan(ReadConsistency::Quorum, &t, None).unwrap();
    assert_eq!(plan.order, vec![0, 1, 2, 3, 4]);
}

#[test]
fn quorum_read_uses_only_the_first_answers() {
    // Leader 4 first, then 0 and 1: the newer value on replica 2 is not waited for.
    let t = replicas(5);
    let responses = vec![answer(3, "x"), answer(3, "x"), answer(9, "z"), answer(1, "y"), answer(3, "x")];
    let r = ConsistencyResolver::resolve(ReadConsistency::Quorum, &t, Some(4), 1000, &responses);
    assert_eq!(unwrap_value(r), (3, b"x".to_vec()));
}

#[test]
fn subset_read_picks_highest_version() {
    let t = replicas(5);
    let responses = vec![answer(4, "old"), answer(7, "new"), answer(5, "mid"), answer(9, "skipped"), answer(1, "x")];
    let r = ConsistencyResolver::resolve(ReadConsistency::Subset(3), &t, None, 1000, &responses);
    assert_eq!(unwrap_value(r), (7, b"new".to_vec()));
}

#[test]
fn subset_read_with_equal_versions_different_payloads_conflicts() {
    let t = replicas(3);
    let responses = vec![answer(7, "p"), answer(7, "q"), answer(2, "r")];
    let r = ConsistencyResolver::resolve(ReadConsistency::Subset(2), &t, None, 1000, &responses);
    assert_eq!(r.unwrap_err(), ConsistencyError::VersionConflict);
}

#[test]
fn subset_read_with_equal_versions_same_payload_succeeds() {
    let t = replicas(3);
    let responses = vec![answer(7, "p"), answer(7, "p"), answer(2, "r")];
    let r = ConsistencyResolver::resolve(ReadConsistency::Subset(3), &t, None, 1000, &responses);
    assert_eq!(unwrap_value(r), (7, b"p".to_vec()));
}

#[test]
fn subset_read_skips_failed_replica() {
    let t = replicas(3);
    let responses = vec![ReplicaResponse::Failed, answer(2, "b"), answer(3, "c")];
    let r = ConsistencyResolver::resolve(ReadConsistency::Subset(2), &t, None, 1000, &responses);
    assert_eq!(unwrap_value(r), (3, b"c".to_vec()));
}

#[test]
fn subset_out_of_range_is_invalid() {
    let t = replicas(3);
    let responses = vec![answer(1, "a"), answer(1, "a"), answer(1, "a")];
    for k in [0usize, 4] {
        let r = ConsistencyResolver::resolve(ReadConsistency::Subset(k), &t, None, 1000, &responses);
        assert_eq!(r.unwrap_err(), ConsistencyError::InvalidConsistency);
    }
}

#[test]
fn subset_read_times_out() {
    let t = replicas(3);
    let responses = vec![answer(1, "a"), ReplicaResponse::TimedOut, ReplicaResponse::Failed];
    let r = ConsistencyResolver::resolve(ReadConsistency::Subset(2), &t, None, 1000, &responses);
    assert_eq!(r.unwrap_err(), ConsistencyError::Timeout);
}

#[test]
fn consistent_read_returns_leader_value() {
    let t = replicas(3);
    let responses = vec![answer(1, "old"), answer(8, "committed"), answer(2, "x")];
    let r = ConsistencyResolver::resolve(ReadConsistency::Consistent, &t, Some(1), 1000, &responses);
    assert_eq!(unwrap_value(r), (8, b"committed".to_vec()));
}

#[test]
fn consistent_read_without_leader_fails() {
    let t = replicas(3);
    let responses = vec![answer(1, "a"), answer(1, "a"), answer(1, "a")];
    for leader in [None, Some(3usize)] {
        let r = ConsistencyResolver::resolve(ReadConsistency::Consistent, &t, leader, 1000, &responses);
        assert_eq!(r.unwrap_err(), ConsistencyError::LeaderUnavailable);
    }
    let responses = vec![answer(1, "a"), ReplicaResponse::Failed, answer(1, "a")];
    let r = ConsistencyResolver::resolve(ReadConsistency::Consistent, &t, Some(1), 1000, &responses);
    assert_eq!(r.unwrap_err(), ConsistencyError::LeaderUnavailable);
}

#[test]
fn consistent_read_leader_timeout() {
    let t = replicas(3);
    let responses = vec![answer(1, "a"), ReplicaResponse::TimedOut, answer(1, "a")];
    let r = ConsistencyResolver::resolve(ReadConsistency::Consistent, &t, Some(1), 1000, &responses);
    assert_eq!(r.unwrap_err(), ConsistencyError::Timeout);
}

#[test]
fn stale_read_takes_lowest_reachable_replica() {
    let t = replicas(3);
    let responses = vec![ReplicaResponse::Failed, answer(1, "old"), answer(5, "new")];
    let r = ConsistencyResolver::resolve(ReadConsistency::Stale, &t, Some(2), 1000, &responses);
    assert_eq!(unwrap_value(r), (1, b"old".to_vec()));
}

#[test]
fn stale_read_with_no_reachable_replica_fails() {
    let t = replicas(2);
    let responses = vec![ReplicaResponse::Failed, ReplicaResponse::Failed];
    let r = ConsistencyResolver::resolve(ReadConsistency::Stale, &t, None, 1000, &responses);
    assert_eq!(r.unwrap_err(), ConsistencyError::InsufficientReplicas);
}

#[test]
fn missing_object_reads_as_none() {
    let t = replicas(3);
    let responses = vec![
        ReplicaResponse::Answered(None),
        ReplicaResponse::Answered(None),
        ReplicaResponse::Answered(None),
    ];
    let r = ConsistencyResolver::resolve(ReadConsistency::Quorum, &t, None, 1000, &responses);
    assert!(r.unwrap().is_none());
}

#[test]
fn zero_deadline_is_invalid() {
    let t = replicas(3);
    let responses = vec![answer(1, "a"), answer(1, "a"), answer(1, "a")];
    let r = ConsistencyResolver::resolve(ReadConsistency::Stale, &t, None, 0, &responses);
    assert_eq!(r.unwrap_err(), ConsistencyError::InvalidDeadline);
}

#[test]
fn replicas_without_response_count_as_failed() {
    let t = replicas(3);
    let responses = vec![answer(4, "a")];
    let r = ConsistencyResolver::resolve(ReadConsistency::Quorum, &t, None, 1000, &responses);
    assert_eq!(r.unwrap_err(), ConsistencyError::InsufficientReplicas);
}

#[test]
fn settled_once_required_answers_arrive_in_order() {
    let t = replicas(5);
    let plan = ConsistencyResolver::fetch_plan(ReadConsistency::Quorum, &t, None).unwrap();
    let waiting = vec![Some(answer(1, "a")), Some(answer(2, "b")), None, Some(answer(2, "b")), None];
    assert!(!ConsistencyResolver::is_settled(&plan, &waiting));
    let done = vec![
        Some(answer(1, "a")),
        Some(answer(2, "b")),
        Some(ReplicaResponse::Failed),
        Some(answer(2, "b")),
        None,
    ];
    assert!(ConsistencyResolver::is_settled(&plan, &done));
}

#[test]
fn consistent_read_settles_on_leader_answer() {
    let t = replicas(3);
    let plan = ConsistencyResolver::fetch_plan(ReadConsistency::Consistent, &t, Some(1)).unwrap();
    assert_eq!(plan.order, vec![1]);
    assert!(ConsistencyResolver::is_settled(&plan, &vec![None, Some(answer(4, "x")), None]));
    assert!(!ConsistencyResolver::is_settled(&plan, &vec![Some(answer(4, "x")), None, None]));
}

#[test]
fn plan_errors() {
    let t = replicas(3);
    assert_eq!(
        ConsistencyResolver::fetch_plan(ReadConsistency::Subset(4), &t, None).unwrap_err(),
        ConsistencyError::InvalidConsistency
    );
    assert_eq!(
        ConsistencyResolver::fetch_plan(ReadConsistency::Consistent, &t, None).unwrap_err(),
        ConsistencyError::LeaderUnavailable
    );
}

#[test]
fn quorum_read_sees_majority_write() {
    let t = replicas(5);
    let responses = vec![answer(1, "a"), answer(1, "a"), answer(9, "n"), answer(9, "n"), answer(9, "n")];
    let r = ConsistencyResolver::resolve(ReadConsistency::Quorum, &t, None, 1000, &responses);
    assert_eq!(unwrap_value(r), (9, b"n".to_vec()));
}
