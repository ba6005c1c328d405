//! Read consistency: which metadata replicas a read consults, and how their
//! answers are reconciled into one result.
use crate::bucket::{units_per_segment, BucketTopology};
use crate::object::{copy_value, opt_view, same_content, ObjectVersion, VersionedValue};
use vstd::prelude::*;

verus! {

/// How fresh a read must be.
#[derive(Debug, Clone, Copy, PartialEq, Eq, Structural)]
pub enum ReadConsistency {
    /// Read the leader replica: always fresh.
    Consistent,
    /// Read a strict majority of replicas: always fresh.
    Quorum,
    /// Read this many replicas: freshness not guaranteed; the highest version wins.
    Subset(usize),
    /// Read any one replica: the cheapest and weakest guarantee.
    Stale,
}

impl Default for ReadConsistency {
    fn default() -> (r: ReadConsistency)
        ensures
            r == ReadConsistency::Consistent,
    {
        ReadConsistency::Consistent
    }
}

/// Why a read could not be served.
#[derive(Debug, Clone, Copy, PartialEq, Eq, Structural)]
pub enum ConsistencyError {
    /// A `Subset(n)` read with `n` out of `1..=replica_count`.
    InvalidConsistency,
    /// The leader is unknown or could not be reached.
    LeaderUnavailable,
    /// Too few replicas answered.
    InsufficientReplicas,
    /// Two replicas hold different payloads under the winning version.
    VersionConflict,
    /// The deadline passed before the read could be resolved.
    Timeout,
    /// The deadline is not a positive duration.
    InvalidDeadline,
}

/// What one replica gave back to a fetch.
#[derive(Debug, Clone)]
pub enum ReplicaResponse {
    /// The replica answered: the object's value there, if it has one.
    Answered(Option<VersionedValue>),
    /// The replica could not be reached, or failed.
    Failed,
    /// The replica did not answer before the deadline.
    TimedOut,
}

/// The replicas a read fetches, in order of preference, and how many of them
/// must answer. Replicas after the first `required` are spares, fetched in
/// turn when an earlier one fails.
#[derive(Debug, Clone)]
pub struct FetchPlan {
    pub order: Vec<usize>,
    pub required: usize,
}

/// A reconciled value: its version and payload.
pub type ValueModel = (ObjectVersion, Seq<u8>);

/// Answers that a read needs under `policy`, over `n` replicas.
pub open spec fn required_responses(policy: ReadConsistency, n: nat) -> nat {
    match policy {
        ReadConsistency::Consistent => 1,
        ReadConsistency::Quorum => n / 2 + 1,
        ReadConsistency::Subset(k) => k as nat,
        ReadConsistency::Stale => 1,
    }
}

/// `leader` names one of the `n` replicas.
pub open spec fn leader_known(leader: Option<usize>, n: nat) -> bool {
    leader matches Some(l) && l < n
}

/// A `Subset(k)` read asks for between one and `n` replicas.
pub open spec fn policy_fits(policy: ReadConsistency, n: nat) -> bool {
    policy matches ReadConsistency::Subset(k) ==> 1 <= k <= n
}

/// The replicas fetched under `policy`, in order of preference: the leader
/// alone for a consistent read; the leader first (when known) then the others
/// by ascending id for a quorum read; all replicas by ascending id otherwise.
pub open spec fn fetch_order(policy: ReadConsistency, n: nat, leader: Option<usize>) -> Seq<int> {
    match policy {
        ReadConsistency::Consistent => if leader_known(leader, n) {
            seq![leader->0 as int]
        } else {
            Seq::empty()
        },
        ReadConsistency::Quorum => if leader_known(leader, n) {
            let l = leader->0 as int;
            Seq::new(n, |i: int| if i == 0 { l } else if i <= l { i - 1 } else { i })
        } else {
            Seq::new(n, |i: int| i)
        },
        _ => Seq::new(n, |i: int| i),
    }
}

/// Replica `i`'s response; a replica with no entry counts as failed.
pub open spec fn response_at(responses: Seq<ReplicaResponse>, i: int) -> ReplicaResponse {
    if 0 <= i < responses.len() {
        responses[i]
    } else {
        ReplicaResponse::Failed
    }
}

/// Folds one answer into the running best value and conflict flag: a higher
/// version replaces the best; an equal version with another payload is a conflict.
pub open spec fn merge_answer(
    best: Option<ValueModel>,
    conflict: bool,
    answer: Option<ValueModel>,
) -> (Option<ValueModel>, bool) {
    match answer {
        None => (best, conflict),
        Some(a) => match best {
            None => (Some(a), false),
            Some(b) => if ver(a) > ver(b) {
                (Some(a), false)
            } else if ver(a) == ver(b) {
                (best, conflict || a.1 != b.1)
            } else {
                (best, conflict)
            },
        },
    }
}

/// The state after reading the first `j` replicas of `order`: answers used
/// (at most `need`), the best value among them, and whether it conflicts.
/// Answers beyond the first `need` are not waited for.
pub open spec fn tally(
    responses: Seq<ReplicaResponse>,
    order: Seq<int>,
    need: nat,
    j: nat,
) -> (nat, Option<ValueModel>, bool)
    decreases j,
{
    if j == 0 {
        (0, None, false)
    } else {
        let prev = tally(responses, order, need, (j - 1) as nat);
        if prev.0 >= need {
            prev
        } else {
            match response_at(responses, order[j - 1]) {
                ReplicaResponse::Answered(a) => {
                    let m = merge_answer(prev.1, prev.2, opt_view(a));
                    (prev.0 + 1, m.0, m.1)
                },
                _ => prev,
            }
        }
    }
}

/// Some replica in `order` let the deadline pass.
pub open spec fn some_timed_out(responses: Seq<ReplicaResponse>, order: Seq<int>) -> bool {
    exists|j: int| 0 <= j < order.len() && response_at(responses, order[j]) is TimedOut
}

/// The result of a read under `policy` over `n` replicas, given every
/// replica's response.
pub open spec fn read_outcome(
    policy: ReadConsistency,
    n: nat,
    leader: Option<usize>,
    deadline_ms: u64,
    responses: Seq<ReplicaResponse>,
) -> Result<Option<ValueModel>, ConsistencyError> {
    if deadline_ms == 0 {
        Err(ConsistencyError::InvalidDeadline)
    } else if !policy_fits(policy, n) {
        Err(ConsistencyError::InvalidConsistency)
    } else if policy is Consistent {
        if !leader_known(leader, n) {
            Err(ConsistencyError::LeaderUnavailable)
        } else {
            match response_at(responses, leader->0 as int) {
                ReplicaResponse::Answered(a) => Ok(opt_view(a)),
                ReplicaResponse::Failed => Err(ConsistencyError::LeaderUnavailable),
                ReplicaResponse::TimedOut => Err(ConsistencyError::Timeout),
            }
        }
    } else {
        let order = fetch_order(policy, n, leader);
        let need = required_responses(policy, n);
        let t = tally(responses, order, need, order.len());
        if t.0 < need {
            if !(policy is Quorum) && some_timed_out(responses, order) {
                Err(ConsistencyError::Timeout)
            } else {
                Err(ConsistencyError::InsufficientReplicas)
            }
        } else if t.2 {
            Err(ConsistencyError::VersionConflict)
        } else {
            Ok(t.1)
        }
    }
}

/// The model of a read's result.
pub open spec fn result_view(r: Result<Option<VersionedValue>, ConsistencyError>) -> Result<
    Option<ValueModel>,
    ConsistencyError,
> {
    match r {
        Ok(v) => Ok(opt_view(v)),
        Err(e) => Err(e),
    }
}

impl ReadConsistency {
    /// Answers that a read needs under this policy, over `replica_count` replicas.
    pub fn required_responses(&self, replica_count: u32) -> (r: usize)
        ensures
            r == required_responses(*self, replica_count as nat),
    {
        match self {
            ReadConsistency::Consistent => 1,
            ReadConsistency::Quorum => (replica_count / 2 + 1) as usize,
            ReadConsistency::Subset(k) => *k,
            ReadConsistency::Stale => 1,
        }
    }
}

/// Serves reads: plans the fetches and reconciles the answers.
pub struct ConsistencyResolver;

impl ConsistencyResolver {
    /// Plans the fetches of a read over the replicas of `topology`.
    /// Fails on a `Subset(n)` read with `n` out of range, and on a consistent
    /// read whose leader is unknown.
    pub fn fetch_plan(
        policy: ReadConsistency,
        topology: &BucketTopology,
        leader: Option<usize>,
    ) -> (r: Result<FetchPlan, ConsistencyError>)
        ensures
            ({
                let n = units_per_segment(topology@) as nat;
                &&& !policy_fits(policy, n) ==> r == Err::<FetchPlan, ConsistencyError>(
                    ConsistencyError::InvalidConsistency,
                )
                &&& policy_fits(policy, n) && policy is Consistent && !leader_known(leader, n) ==> r
                    == Err::<FetchPlan, ConsistencyError>(ConsistencyError::LeaderUnavailable)
                &&& policy_fits(policy, n) && (policy is Consistent ==> leader_known(leader, n))
                    ==> r is Ok
                &&& r matches Ok(p) ==> p.required == required_responses(policy, n) && ids(p.order@)
                    == fetch_order(policy, n, leader)
            }),
    {
        let count = topology.replica_or_fragment_count();
        let n = count as usize;
        if let ReadConsistency::Subset(k) = policy {
            if k == 0 || k > n {
                return Err(ConsistencyError::InvalidConsistency);
            }
        }
        let required = policy.required_responses(count);
        let ghost order_spec = fetch_order(policy, n as nat, leader);
        let mut order: Vec<usize> = Vec::new();
        match policy {
            ReadConsistency::Consistent => {
                match leader {
                    Some(l) => {
                        if l < n {
                            order.push(l);
                        } else {
                            return Err(ConsistencyError::LeaderUnavailable);
                        }
                    },
                    None => {
                        return Err(ConsistencyError::LeaderUnavailable);
                    },
                }
            },
            _ => {
                let lead: Option<usize> = match policy {
                    ReadConsistency::Quorum => match leader {
                        Some(l) => if l < n {
                            Some(l)
                        } else {
                            None
                        },
                        None => None,
                    },
                    _ => None,
                };
                let mut i: usize = 0;
                while i < n
                    invariant
                        i <= n,
                        order_spec == fetch_order(policy, n as nat, leader),
                        !(policy is Consistent),
                        lead matches Some(l) ==> (policy is Quorum && leader == Some(l) && l < n),
                        lead is None ==> !(policy is Quorum && leader_known(leader, n as nat)),
                        order@.len() == i,
                        forall|k: int| 0 <= k < i ==> order@[k] as int == order_spec[k],
                    decreases n - i,
                {
                    let id = match lead {
                        Some(l) => if i == 0 {
                            l
                        } else if i <= l {
                            i - 1
                        } else {
                            i
                        },
                        None => i,
                    };
                    order.push(id);
                    i = i + 1;
                }
            },
        }
        assert(ids(order@) =~= order_spec);
        Ok(FetchPlan { order, required })
    }

    /// Resolves a read under `policy` over the replicas of `topology`, given
    /// each replica's response (indexed by replica id; a replica without an
    /// entry counts as failed). Replicas are consulted in the order of
    /// `fetch_plan`, and only the first answers that the policy needs are used.
    pub fn resolve(
        policy: ReadConsistency,
        topology: &BucketTopology,
        leader: Option<usize>,
        deadline_ms: u64,
        responses: &Vec<ReplicaResponse>,
    ) -> (r: Result<Option<VersionedValue>, ConsistencyError>)
        ensures
            result_view(r) == read_outcome(
                policy,
                units_per_segment(topology@) as nat,
                leader,
                deadline_ms,
                responses@,
            ),
    {
        if deadline_ms == 0 {
            return Err(ConsistencyError::InvalidDeadline);
        }
        let plan = match ConsistencyResolver::fetch_plan(policy, topology, leader) {
            Ok(p) => p,
            Err(e) => {
                return Err(e);
            },
        };
        if let ReadConsistency::Consistent = policy {
            assert(ids(plan.order@).len() == plan.order@.len());
            let l = plan.order[0];
            assert(ids(plan.order@)[0] == l as int);
            if l < responses.len() {
                match &responses[l] {
                    ReplicaResponse::Answered(a) => match a {
                        Some(v) => Ok(Some(copy_value(v))),
                        None => Ok(None),
                    },
                    ReplicaResponse::Failed => Err(ConsistencyError::LeaderUnavailable),
                    ReplicaResponse::TimedOut => Err(ConsistencyError::Timeout),
                }
            } else {
                Err(ConsistencyError::LeaderUnavailable)
            }
        } else {
            let (count, best, conflict) = tally_answers(&plan.order, plan.required, responses);
            if count < plan.required {
                let quorum = match policy {
                    ReadConsistency::Quorum => true,
                    _ => false,
                };
                if !quorum && any_timed_out(&plan.order, responses) {
                    Err(ConsistencyError::Timeout)
                } else {
                    Err(ConsistencyError::InsufficientReplicas)
                }
            } else if conflict {
                Err(ConsistencyError::VersionConflict)
            } else {
                Ok(best)
            }
        }
    }
}

impl ConsistencyResolver {
    /// Whether the answers arrived so far (`None` for a fetch still running)
    /// already fix the read's result, so that the fetches still running can be
    /// abandoned: every replica of the plan still running comes after the
    /// answers that the read uses.
    pub fn is_settled(plan: &FetchPlan, arrived: &Vec<Option<ReplicaResponse>>) -> (r: bool)
        ensures
            r == settled(arrived@, ids(plan.order@), plan.required as nat),
    {
        let ghost order_ids = ids(plan.order@);
        let ghost filled = fill_pending(arrived@);
        let need = plan.required;
        let mut count: usize = 0;
        let mut j: usize = 0;
        while j < plan.order.len()
            invariant
                j <= plan.order@.len(),
                order_ids == ids(plan.order@),
                filled == fill_pending(arrived@),
                need == plan.required,
                count <= need,
                count == tally(filled, order_ids, need as nat, j as nat).0,
                forall|k: int|
                    0 <= k < j && pending_at(arrived@, order_ids[k]) ==> tally(
                        filled,
                        order_ids,
                        need as nat,
                        k as nat,
                    ).0 >= need,
            decreases plan.order@.len() - j,
        {
            let id = plan.order[j];
            assert(order_ids[j as int] == id as int);
            if count < need {
                if id < arrived.len() {
                    match &arrived[id] {
                        None => {
                            return false;
                        },
                        Some(ReplicaResponse::Answered(_)) => {
                            count = count + 1;
                        },
                        Some(_) => {},
                    }
                }
            }
            j = j + 1;
        }
        true
    }
}

/// The fetch of replica `i` is still running.
pub open spec fn pending_at(arrived: Seq<Option<ReplicaResponse>>, i: int) -> bool {
    0 <= i < arrived.len() && arrived[i] is None
}

/// The responses as they stand when the deadline passes: a fetch still
/// running has timed out.
pub open spec fn fill_pending(arrived: Seq<Option<ReplicaResponse>>) -> Seq<ReplicaResponse> {
    arrived.map_values(
        |a: Option<ReplicaResponse>|
            match a {
                Some(x) => x,
                None => ReplicaResponse::TimedOut,
            },
    )
}

/// Every replica of `order` still running comes after the `need` answers
/// that the read uses.
pub open spec fn settled(arrived: Seq<Option<ReplicaResponse>>, order: Seq<int>, need: nat) -> bool {
    forall|j: int|
        0 <= j < order.len() && pending_at(arrived, order[j]) ==> tally(
            fill_pending(arrived),
            order,
            need,
            j as nat,
        ).0 >= need
}

proof fn lemma_tally_count_grows(responses: Seq<ReplicaResponse>, order: Seq<int>, need: nat, j: nat, k: nat)
    requires
        j <= k,
    ensures
        tally(responses, order, need, j).0 <= tally(responses, order, need, k).0,
        tally(responses, order, need, j).0 >= need ==> tally(responses, order, need, k) == tally(
            responses,
            order,
            need,
            j,
        ),
    decreases k - j,
{
    if j < k {
        lemma_tally_count_grows(responses, order, need, j, (k - 1) as nat);
    }
}

proof fn lemma_settled_tally_final(
    arrived: Seq<Option<ReplicaResponse>>,
    completion: Seq<ReplicaResponse>,
    order: Seq<int>,
    need: nat,
    k: nat,
)
    requires
        settled(arrived, order, need),
        completion.len() == arrived.len(),
        forall|i: int| 0 <= i < arrived.len() && arrived[i] is Some ==> completion[i] == arrived[i]->0,
        k <= order.len(),
    ensures
        tally(fill_pending(arrived), order, need, k) == tally(completion, order, need, k),
    decreases k,
{
    if k > 0 {
        let p = (k - 1) as nat;
        lemma_settled_tally_final(arrived, completion, order, need, p);
        let filled = fill_pending(arrived);
        if tally(filled, order, need, p).0 < need {
            let i = order[p as int];
            assert(!pending_at(arrived, i));
            assert(response_at(filled, i) == response_at(completion, i));
        }
    }
}

/// Abandoning the fetches still running once the read is settled is safe:
/// however those fetches would have ended, the read's result is the one that
/// the answers already arrived give (with the running fetches counted as
/// timed out).
pub proof fn lemma_settled_read_is_final(
    policy: ReadConsistency,
    n: nat,
    leader: Option<usize>,
    deadline_ms: u64,
    arrived: Seq<Option<ReplicaResponse>>,
    completion: Seq<ReplicaResponse>,
)
    requires
        settled(arrived, fetch_order(policy, n, leader), required_responses(policy, n)),
        completion.len() == arrived.len(),
        forall|i: int| 0 <= i < arrived.len() && arrived[i] is Some ==> completion[i] == arrived[i]->0,
    ensures
        read_outcome(policy, n, leader, deadline_ms, fill_pending(arrived)) == read_outcome(
            policy,
            n,
            leader,
            deadline_ms,
            completion,
        ),
{
    let order = fetch_order(policy, n, leader);
    let need = required_responses(policy, n);
    let filled = fill_pending(arrived);
    lemma_settled_tally_final(arrived, completion, order, need, order.len());
    if policy is Consistent && leader_known(leader, n) {
        let l = leader->0 as int;
        assert(order[0] == l);
        assert(!pending_at(arrived, l));
        assert(response_at(filled, l) == response_at(completion, l));
    }
    if tally(filled, order, need, order.len()).0 < need {
        assert forall|j: int| 0 <= j < order.len() implies !pending_at(arrived, order[j]) by {
            if pending_at(arrived, order[j]) {
                lemma_tally_count_grows(filled, order, need, j as nat, order.len());
            }
        }
        assert forall|j: int| 0 <= j < order.len() implies response_at(filled, order[j])
            == response_at(completion, order[j]) by {
            assert(!pending_at(arrived, order[j]));
        }
        assert(some_timed_out(filled, order) == some_timed_out(completion, order));
    }
}

/// Replica ids as integers.
pub open spec fn ids(order: Seq<usize>) -> Seq<int> {
    order.map_values(|x: usize| x as int)
}

/// Reads the replicas of `order` in turn until `need` have answered, keeping
/// the best value among the answers and whether it conflicts.
fn tally_answers(order: &Vec<usize>, need: usize, responses: &Vec<ReplicaResponse>) -> (r: (
    usize,
    Option<VersionedValue>,
    bool,
))
    ensures
        ({
            let t = tally(responses@, ids(order@), need as nat, order@.len());
            r.0 == t.0 && opt_view(r.1) == t.1 && r.2 == t.2
        }),
{
    let ghost order_ids = ids(order@);
    let mut count: usize = 0;
    let mut best: Option<VersionedValue> = None;
    let mut conflict = false;
    let mut j: usize = 0;
    while j < order.len()
        invariant
            j <= order@.len(),
            order_ids == ids(order@),
            count <= need,
            ({
                let t = tally(responses@, order_ids, need as nat, j as nat);
                count == t.0 && opt_view(best) == t.1 && conflict == t.2
            }),
        decreases order@.len() - j,
    {
        if count < need {
            let id = order[j];
            assert(order_ids[j as int] == id as int);
            if id < responses.len() {
                match &responses[id] {
                    ReplicaResponse::Answered(a) => {
                        match a {
                            Some(x) => {
                                match &best {
                                    None => {
                                        best = Some(copy_value(x));
                                        conflict = false;
                                    },
                                    Some(b) => {
                                        if x.version.0 > b.version.0 {
                                            best = Some(copy_value(x));
                                            conflict = false;
                                        } else if x.version.0 == b.version.0 {
                                            if !same_content(&x.content, &b.content) {
                                                conflict = true;
                                            }
                                        }
                                    },
                                }
                            },
                            None => {},
                        }
                        count = count + 1;
                    },
                    _ => {},
                }
            }
        }
        j = j + 1;
    }
    (count, best, conflict)
}

/// Returns whether some replica of `order` let the deadline pass.
fn any_timed_out(order: &Vec<usize>, responses: &Vec<ReplicaResponse>) -> (r: bool)
    ensures
        r == some_timed_out(responses@, ids(order@)),
{
    let ghost order_ids = ids(order@);
    let mut j: usize = 0;
    while j < order.len()
        invariant
            j <= order@.len(),
            order_ids == ids(order@),
            forall|k: int| 0 <= k < j ==> !(response_at(responses@, order_ids[k]) is TimedOut),
        decreases order@.len() - j,
    {
        let id = order[j];
        assert(order_ids[j as int] == id as int);
        if id < responses.len() {
            if let ReplicaResponse::TimedOut = &responses[id] {
                return true;
            }
        }
        j = j + 1;
    }
    false
}

/// The version of a reconciled value.
pub open spec fn ver(v: ValueModel) -> u64 {
    (v.0).0
}

/// The value that the `j`-th replica of `order` answered, if it answered one.
pub open spec fn answer_at(responses: Seq<ReplicaResponse>, order: Seq<int>, j: int) -> Option<
    ValueModel,
> {
    match response_at(responses, order[j]) {
        ReplicaResponse::Answered(a) => opt_view(a),
        _ => None,
    }
}

/// The `j`-th replica of `order` is one whose answer the read uses: it
/// answered, and fewer than `need` replicas before it had.
pub open spec fn consulted(responses: Seq<ReplicaResponse>, order: Seq<int>, need: nat, j: int) -> bool {
    &&& 0 <= j < order.len()
    &&& response_at(responses, order[j]) is Answered
    &&& tally(responses, order, need, j as nat).0 < need
}

/// The `j`-th replica of `order` is used by the read and answered with a value.
pub open spec fn consulted_value(
    responses: Seq<ReplicaResponse>,
    order: Seq<int>,
    need: nat,
    j: int,
) -> bool {
    consulted(responses, order, need, j) && answer_at(responses, order, j) is Some
}

/// The value answered by the `j`-th replica of `order` (meaningful when it answered one).
pub open spec fn value_at(responses: Seq<ReplicaResponse>, order: Seq<int>, j: int) -> ValueModel {
    answer_at(responses, order, j)->0
}

proof fn lemma_tally_facts(responses: Seq<ReplicaResponse>, order: Seq<int>, need: nat, k: nat)
    requires
        k <= order.len(),
    ensures
        ({
            let t = tally(responses, order, need, k);
            &&& t.1 is None ==> forall|j: int|
                0 <= j < k && consulted(responses, order, need, j) ==> answer_at(
                    responses,
                    order,
                    j,
                ) is None
            &&& t.1 matches Some(b) ==> {
                &&& exists|j: int|
                    0 <= j < k && consulted(responses, order, need, j) && answer_at(
                        responses,
                        order,
                        j,
                    ) == Some(b)
                &&& forall|j: int|
                    0 <= j < k && consulted_value(responses, order, need, j) ==> ver(
                        value_at(responses, order, j),
                    ) <= ver(b)
                &&& !t.2 ==> forall|j: int|
                    0 <= j < k && consulted_value(responses, order, need, j) && ver(
                        value_at(responses, order, j),
                    ) == ver(b) ==> value_at(responses, order, j).1 == b.1
                &&& t.2 ==> exists|j: int|
                    0 <= j < k && consulted_value(responses, order, need, j) && ver(
                        value_at(responses, order, j),
                    ) == ver(b) && value_at(responses, order, j).1 != b.1
            }
            &&& t.2 ==> t.1 is Some
        }),
    decreases k,
{
    if k > 0 {
        let p = (k - 1) as nat;
        lemma_tally_facts(responses, order, need, p);
        let prev = tally(responses, order, need, p);
        let t = tally(responses, order, need, k);
        let last = p as int;
        if prev.2 {
            let b = prev.1->0;
            let w = choose|j: int|
                0 <= j < p && consulted_value(responses, order, need, j) && ver(
                    value_at(responses, order, j),
                ) == ver(b) && value_at(responses, order, j).1 != b.1;
            assert(0 <= w < k);
        }
        if prev.0 >= need {
            assert(!consulted(responses, order, need, last));
        } else {
            match response_at(responses, order[last]) {
                ReplicaResponse::Answered(a) => {
                    assert(consulted(responses, order, need, last));
                    let av = opt_view(a);
                    assert(answer_at(responses, order, last) == av);
                    match av {
                        None => {},
                        Some(x) => {
                            match prev.1 {
                                None => {
                                    assert(t.1 == Some(x));
                                },
                                Some(b) => {
                                    if ver(x) > ver(b) {
                                        assert(t.1 == Some(x) && !t.2);
                                    } else if ver(x) == ver(b) {
                                        assert(value_at(responses, order, last) == x);
                                        assert(consulted_value(responses, order, need, last));
                                    }
                                },
                            }
                        },
                    }
                },
                _ => {
                    assert(!consulted(responses, order, need, last));
                },
            }
        }
    }
}

/// A reconciled read (quorum, subset or stale) returns the highest version
/// among the answers it uses, and never picks between two different payloads
/// under that version: when it returns a value, every answer it used is no
/// newer, and every answer of the same version holds the same payload; when it
/// reports a conflict, two answers it used share the highest version and differ.
pub proof fn lemma_reconciled_read_picks_highest(
    policy: ReadConsistency,
    n: nat,
    leader: Option<usize>,
    deadline_ms: u64,
    responses: Seq<ReplicaResponse>,
)
    requires
        !(policy is Consistent),
    ensures
        ({
            let order = fetch_order(policy, n, leader);
            let need = required_responses(policy, n);
            let r = read_outcome(policy, n, leader, deadline_ms, responses);
            &&& r matches Ok(Some(b)) ==> {
                &&& exists|j: int|
                    consulted(responses, order, need, j) && answer_at(responses, order, j) == Some(
                        b,
                    )
                &&& forall|j: int|
                    consulted_value(responses, order, need, j) ==> ver(value_at(responses, order, j))
                        <= ver(b) && (ver(value_at(responses, order, j)) == ver(b) ==> value_at(
                        responses,
                        order,
                        j,
                    ).1 == b.1)
            }
            &&& r matches Ok(None) ==> forall|j: int|
                consulted(responses, order, need, j) ==> answer_at(responses, order, j) is None
            &&& r == Err::<Option<ValueModel>, ConsistencyError>(ConsistencyError::VersionConflict)
                ==> exists|j1: int, j2: int|
                {
                    &&& consulted_value(responses, order, need, j1)
                    &&& consulted_value(responses, order, need, j2)
                    &&& ver(value_at(responses, order, j1)) == ver(value_at(responses, order, j2))
                    &&& value_at(responses, order, j1).1 != value_at(responses, order, j2).1
                    &&& forall|j: int|
                        consulted_value(responses, order, need, j) ==> ver(
                            value_at(responses, order, j),
                        ) <= ver(value_at(responses, order, j1))
                }
        }),
{
    let order = fetch_order(policy, n, leader);
    let need = required_responses(policy, n);
    lemma_tally_facts(responses, order, need, order.len());
    let t = tally(responses, order, need, order.len());
    if read_outcome(policy, n, leader, deadline_ms, responses) == Err::<
        Option<ValueModel>,
        ConsistencyError,
    >(ConsistencyError::VersionConflict) {
        let b = t.1->0;
        let j1 = choose|j: int|
            0 <= j < order.len() && consulted(responses, order, need, j) && answer_at(
                responses,
                order,
                j,
            ) == Some(b);
        let j2 = choose|j: int|
            0 <= j < order.len() && consulted_value(responses, order, need, j) && ver(
                value_at(responses, order, j),
            ) == ver(b) && value_at(responses, order, j).1 != b.1;
        assert(consulted_value(responses, order, need, j1));
        assert(ver(value_at(responses, order, j1)) == ver(value_at(responses, order, j2)));
    }
}

/// Replica `i` holds a write of version at least `committed`: if it answers,
/// it answers with such a version.
pub open spec fn holds_write(responses: Seq<ReplicaResponse>, i: int, committed: u64) -> bool {
    response_at(responses, i) matches ReplicaResponse::Answered(a) ==> (a matches Some(v)
        && v.version.0 >= committed)
}

/// Replicas below `k` that hold a write of version at least `committed`.
pub open spec fn holders_below(responses: Seq<ReplicaResponse>, committed: u64, k: nat) -> nat
    decreases k,
{
    if k == 0 {
        0
    } else {
        holders_below(responses, committed, (k - 1) as nat) + if holds_write(
            responses,
            k - 1,
            committed,
        ) {
            1nat
        } else {
            0nat
        }
    }
}

/// Positions below `k` of `order` whose replica holds the write.
spec fn holders_in_order(
    responses: Seq<ReplicaResponse>,
    order: Seq<int>,
    committed: u64,
    k: nat,
) -> nat
    decreases k,
{
    if k == 0 {
        0
    } else {
        holders_in_order(responses, order, committed, (k - 1) as nat) + if holds_write(
            responses,
            order[k - 1],
            committed,
        ) {
            1nat
        } else {
            0nat
        }
    }
}

proof fn lemma_quorum_order_counts(
    responses: Seq<ReplicaResponse>,
    n: nat,
    leader: Option<usize>,
    committed: u64,
    k: nat,
)
    requires
        k <= n,
        leader_known(leader, n) ==> k > leader->0,
    ensures
        holders_in_order(responses, fetch_order(ReadConsistency::Quorum, n, leader), committed, k)
            == holders_below(responses, committed, k),
    decreases k,
{
    let order = fetch_order(ReadConsistency::Quorum, n, leader);
    if leader_known(leader, n) {
        let l = leader->0 as nat;
        if k == l + 1 {
            lemma_leader_prefix_counts(responses, n, l, committed, k);
        } else {
            lemma_quorum_order_counts(responses, n, leader, committed, (k - 1) as nat);
        }
    } else if k > 0 {
        lemma_quorum_order_counts(responses, n, leader, committed, (k - 1) as nat);
    }
}

proof fn lemma_leader_prefix_counts(
    responses: Seq<ReplicaResponse>,
    n: nat,
    l: nat,
    committed: u64,
    k: nat,
)
    requires
        l < n,
        1 <= k <= l + 1,
        l <= usize::MAX,
    ensures
        holders_in_order(
            responses,
            fetch_order(ReadConsistency::Quorum, n, Some(l as usize)),
            committed,
            k,
        ) == holders_below(responses, committed, (k - 1) as nat) + if holds_write(
            responses,
            l as int,
            committed,
        ) {
            1nat
        } else {
            0nat
        },
    decreases k,
{
    let order = fetch_order(ReadConsistency::Quorum, n, Some(l as usize));
    assert((l as usize) as int == l as int);
    assert(leader_known(Some(l as usize), n));
    let bonus: nat = if holds_write(responses, l as int, committed) {
        1nat
    } else {
        0nat
    };
    if k > 1 {
        lemma_leader_prefix_counts(responses, n, l, committed, (k - 1) as nat);
        assert(order[k - 1] == k - 2);
        assert(holders_in_order(responses, order, committed, k) == holders_in_order(
            responses,
            order,
            committed,
            (k - 1) as nat,
        ) + if holds_write(responses, k - 2, committed) {
            1nat
        } else {
            0nat
        });
        assert(holders_below(responses, committed, (k - 1) as nat) == holders_below(
            responses,
            committed,
            (k - 2) as nat,
        ) + if holds_write(responses, k - 2, committed) {
            1nat
        } else {
            0nat
        });
    } else {
        assert(order[0] == l);
        assert(holders_in_order(responses, order, committed, 1) == holders_in_order(
            responses,
            order,
            committed,
            0,
        ) + bonus);
    }
}

proof fn lemma_unheld_consulted_bound(
    responses: Seq<ReplicaResponse>,
    order: Seq<int>,
    need: nat,
    committed: u64,
    k: nat,
)
    requires
        k <= order.len(),
        forall|j: int|
            0 <= j < k && consulted(responses, order, need, j) ==> !holds_write(
                responses,
                order[j],
                committed,
            ),
    ensures
        tally(responses, order, need, k).0 + holders_in_order(responses, order, committed, k) <= k,
    decreases k,
{
    if k > 0 {
        lemma_unheld_consulted_bound(responses, order, need, committed, (k - 1) as nat);
        let j = k - 1;
        if consulted(responses, order, need, j) {
            assert(!holds_write(responses, order[j], committed));
        }
    }
}

/// A quorum read is never stale: when a majority of the replicas hold a write
/// of version at least `committed`, a quorum read that succeeds returns a
/// value of version at least `committed`, since the replicas it uses form a
/// majority too and share one of those replicas.
pub proof fn lemma_quorum_read_not_stale(
    n: nat,
    leader: Option<usize>,
    deadline_ms: u64,
    responses: Seq<ReplicaResponse>,
    committed: u64,
)
    requires
        holders_below(responses, committed, n) >= n / 2 + 1,
    ensures
        read_outcome(ReadConsistency::Quorum, n, leader, deadline_ms, responses) matches Ok(r)
            ==> r matches Some(b) && ver(b) >= committed,
{
    let policy = ReadConsistency::Quorum;
    let order = fetch_order(policy, n, leader);
    let need = required_responses(policy, n);
    if read_outcome(policy, n, leader, deadline_ms, responses) is Ok {
        assert(order.len() == n);
        lemma_quorum_order_counts(responses, n, leader, committed, n);
        let held = exists|j: int|
            0 <= j < n && consulted(responses, order, need, j) && holds_write(
                responses,
                order[j],
                committed,
            );
        if !held {
            lemma_unheld_consulted_bound(responses, order, need, committed, n);
        }
        let j = choose|j: int|
            0 <= j < n && consulted(responses, order, need, j) && holds_write(
                responses,
                order[j],
                committed,
            );
        assert(consulted_value(responses, order, need, j));
        assert(ver(value_at(responses, order, j)) >= committed);
        lemma_reconciled_read_picks_highest(policy, n, leader, deadline_ms, responses);
    }
}

/// A consistent read is never stale: once the leader holds a write of version
/// at least `committed` (as every write acknowledged under quorum or consistent
/// semantics does), a consistent read with a valid deadline returns a value of
/// version at least `committed`.
pub proof fn lemma_consistent_read_not_stale(
    n: nat,
    leader: Option<usize>,
    deadline_ms: u64,
    responses: Seq<ReplicaResponse>,
    committed: u64,
)
    requires
        deadline_ms > 0,
        leader_known(leader, n),
        response_at(responses, leader->0 as int) matches ReplicaResponse::Answered(Some(v))
            && v.version.0 >= committed,
    ensures
        read_outcome(ReadConsistency::Consistent, n, leader, deadline_ms, responses) matches Ok(
            Some(b),
        ) && ver(b) >= committed,
{
}

} // verus!
