//! Write preconditions and their evaluation.
use crate::object::ObjectVersion;
use vstd::prelude::*;

verus! {

/// What a write expects of the object's current version.
#[derive(Debug, Clone, PartialEq, Eq)]
pub enum Expect {
    /// No precondition.
    Any,
    /// The object must not exist.
    Absent,
    /// The object's current version must be one of these.
    IfMatch(Vec<ObjectVersion>),
    /// The object must not exist, or its current version must be none of these.
    IfNoneMatch(Vec<ObjectVersion>),
}

/// A write whose precondition did not hold, with what was expected and observed.
#[derive(Debug, Clone)]
pub struct PreconditionFailed {
    pub expect: Expect,
    pub observed: Vec<ObjectVersion>,
}

/// `v` is the reconciled version of `current`: present, and no lower than any other.
pub open spec fn is_latest(current: Set<ObjectVersion>, v: ObjectVersion) -> bool {
    &&& current.contains(v)
    &&& forall|w: ObjectVersion| current.contains(w) ==> w.0 <= v.0
}

/// No version is known: the object does not exist.
pub open spec fn no_version(current: Set<ObjectVersion>) -> bool {
    forall|w: ObjectVersion| !current.contains(w)
}

/// Whether `expect` admits a write when the object's known versions are `current`.
/// A set of several versions is judged by its reconciled (highest) version.
pub open spec fn precondition_holds(expect: Expect, current: Set<ObjectVersion>) -> bool {
    match expect {
        Expect::Any => true,
        Expect::Absent => no_version(current),
        Expect::IfMatch(required) => exists|v: ObjectVersion|
            is_latest(current, v) && required@.contains(v),
        Expect::IfNoneMatch(excluded) => no_version(current) || exists|v: ObjectVersion|
            is_latest(current, v) && !excluded@.contains(v),
    }
}

/// What `PreconditionEvaluator::evaluate` returns for `expect` and `current`:
/// success exactly when the precondition holds, and otherwise the inputs back.
pub open spec fn evaluation_outcome(
    expect: Expect,
    current: Seq<ObjectVersion>,
    r: Result<(), PreconditionFailed>,
) -> bool {
    &&& r is Ok <==> precondition_holds(expect, current.to_set())
    &&& r matches Err(e) ==> e.expect == expect && e.observed@ == current
}

/// Returns the highest version in `versions`, if there is one.
pub fn latest_version(versions: &Vec<ObjectVersion>) -> (r: Option<ObjectVersion>)
    ensures
        r matches Some(v) ==> is_latest(versions@.to_set(), v),
        r is None <==> no_version(versions@.to_set()),
{
    if versions.len() == 0 {
        return None;
    }
    let mut best = versions[0];
    let mut i: usize = 1;
    while i < versions.len()
        invariant
            1 <= i <= versions@.len(),
            versions@.contains(best),
            forall|j: int| 0 <= j < i ==> versions@[j].0 <= best.0,
        decreases versions@.len() - i,
    {
        if versions[i].0 > best.0 {
            best = versions[i];
        }
        i = i + 1;
    }
    assert(versions@.contains(versions@[0]));
    assert(versions@.to_set().contains(versions@[0]));
    Some(best)
}

/// Returns whether `v` is one of `versions`.
pub fn contains_version(versions: &Vec<ObjectVersion>, v: ObjectVersion) -> (r: bool)
    ensures
        r == versions@.contains(v),
{
    let mut i: usize = 0;
    while i < versions.len()
        invariant
            i <= versions@.len(),
            forall|j: int| 0 <= j < i ==> versions@[j] != v,
        decreases versions@.len() - i,
    {
        if versions[i] == v {
            return true;
        }
        i = i + 1;
    }
    false
}

/// Decides whether a write may proceed given its precondition.
pub struct PreconditionEvaluator;

impl PreconditionEvaluator {
    /// Checks `expect` against the object's known versions. Several versions
    /// (unreconciled replica answers) are judged by the highest of them.
    /// On failure the expectation and the observed versions are handed back.
    pub fn evaluate(expect: Expect, current_versions: Vec<ObjectVersion>) -> (r: Result<
        (),
        PreconditionFailed,
    >)
        ensures
            evaluation_outcome(expect, current_versions@, r),
    {
        let latest = latest_version(&current_versions);
        let holds = match &expect {
            Expect::Any => true,
            Expect::Absent => latest.is_none(),
            Expect::IfMatch(required) => match latest {
                Some(v) => contains_version(required, v),
                None => false,
            },
            Expect::IfNoneMatch(excluded) => match latest {
                Some(v) => !contains_version(excluded, v),
                None => true,
            },
        };
        proof {
            let current = current_versions@.to_set();
            if let Some(m) = latest {
                assert forall|v: ObjectVersion| is_latest(current, v) implies v == m by {
                    assert(v.0 <= m.0 && m.0 <= v.0);
                }
                assert(!no_version(current));
            }
        }
        if holds {
            Ok(())
        } else {
            Err(PreconditionFailed { expect, observed: current_versions })
        }
    }
}

/// A write that expects absence succeeds on an object with no version.
pub proof fn lemma_absent_admits_empty()
    ensures
        precondition_holds(Expect::Absent, Set::empty()),
{
}

/// A write that expects absence fails whatever single version the object has.
pub proof fn lemma_absent_rejects_existing(v: ObjectVersion)
    ensures
        !precondition_holds(Expect::Absent, set![v]),
{
    assert(set![v].contains(v));
}

/// A write that expects exactly the version `v1` succeeds when `v1` is current,
/// and fails when another version `v2` is current.
pub proof fn lemma_if_match_single(required: Vec<ObjectVersion>, v1: ObjectVersion, v2: ObjectVersion)
    requires
        required@ == seq![v1],
    ensures
        precondition_holds(Expect::IfMatch(required), set![v1]),
        v1 != v2 ==> !precondition_holds(Expect::IfMatch(required), set![v2]),
{
    assert(is_latest(set![v1], v1));
    assert(required@[0] == v1);
    if v1 != v2 {
        assert forall|v: ObjectVersion| is_latest(set![v2], v) implies !required@.contains(v) by {
            assert(set![v2].contains(v));
            if required@.contains(v) {
                let i = choose|i: int| 0 <= i < required@.len() && required@[i] == v;
                assert(i == 0);
            }
        }
    }
}

/// Evaluation has no hidden state: two evaluations of the same inputs give the
/// same answer, and the answer depends only on the set of known versions, not
/// on their order or repetition.
pub proof fn lemma_evaluation_deterministic(
    expect: Expect,
    current1: Seq<ObjectVersion>,
    current2: Seq<ObjectVersion>,
    r1: Result<(), PreconditionFailed>,
    r2: Result<(), PreconditionFailed>,
)
    requires
        current1.to_set() == current2.to_set(),
        evaluation_outcome(expect, current1, r1),
        evaluation_outcome(expect, current2, r2),
    ensures
        r1 is Ok <==> r2 is Ok,
        current1 == current2 ==> (r1 matches Err(e1) ==> r2 matches Err(e2) && e1.expect == e2.expect
            && e1.observed@ == e2.observed@),
{
}

} // verus!
