use libfrugalos::expect::{Expect, PreconditionEvaluator};
use libfrugalos::object::ObjectVersion;

fn v(n: u64) -> ObjectVersion {
    ObjectVersion(n)
}

#[test]
fn absent_succeeds_on_missing_object() {
    assert!(PreconditionEvaluator::evaluate(Expect::Absent, vec![]).is_ok());
}

#[test]
fn absent_fails_on_any_existing_version() {
    for n in [0u64, 1, 42, u64::MAX] {
        let err = PreconditionEvaluator::evaluate(Expect::Absent, vec![v(n)]).unwrap_err();
        assert_eq!(err.expect, Expect::Absent);
        assert_eq!(err.observed, vec![v(n)]);
    }
}

#[test]
fn if_match_same_version_succeeds() {
    assert!(PreconditionEvaluator::evaluate(Expect::IfMatch(vec![v(1)]), vec![v(1)]).is_ok());
}

#[test]
fn if_match_other_version_fails() {
    let r = PreconditionEvaluator::evaluate(Expect::IfMatch(vec![v(1)]), vec![v(2)]);
    let err = r.unwrap_err();
    assert_eq!(err.expect, Expect::IfMatch(vec![v(1)]));
    assert_eq!(err.observed, vec![v(2)]);
}

#[test]
fn if_match_requires_existing_object() {
    assert!(PreconditionEvaluator::evaluate(Expect::IfMatch(vec![v(1)]), vec![]).is_err());
}

#[test]
fn any_always_succeeds() {
    assert!(PreconditionEvaluator::evaluate(Expect::Any, vec![]).is_ok());
    assert!(PreconditionEvaluator::evaluate(Expect::Any, vec![v(3), v(9)]).is_ok());
}

#[test]
fn if_none_match_cases() {
    let ex = || Expect::IfNoneMatch(vec![v(1), v(2)]);
    assert!(PreconditionEvaluator::evaluate(ex(), vec![]).is_ok());
    assert!(PreconditionEvaluator::evaluate(ex(), vec![v(3)]).is_ok());
    assert!(PreconditionEvaluator::evaluate(ex(), vec![v(2)]).is_err());
}

#[test]
fn several_versions_are_judged_by_the_highest() {
    // The reconciled version is 5, not 3.
    assert!(PreconditionEvaluator::evaluate(Expect::IfMatch(vec![v(3)]), vec![v(3), v(5)]).is_err());
    assert!(PreconditionEvaluator::evaluate(Expect::IfMatch(vec![v(5)]), vec![v(3), v(5)]).is_ok());
    assert!(PreconditionEvaluator::evaluate(Expect::IfNoneMatch(vec![v(3)]), vec![v(5), v(3)]).is_ok());
    assert!(PreconditionEvaluator::evaluate(Expect::IfNoneMatch(vec![v(5)]), vec![v(3), v(5)]).is_err());
}

#[test]
fn evaluation_is_repeatable() {
    let cases = vec![
        (Expect::Any, vec![v(1)]),
        (Expect::Absent, vec![v(1)]),
        (Expect::IfMatch(vec![v(1), v(4)]), vec![v(4), v(2)]),
        (Expect::IfNoneMatch(vec![v(7)]), vec![v(7)]),
    ];
    for (e, cur) in cases {
        let a = PreconditionEvaluator::evaluate(e.clone(), cur.clone());
        let b = PreconditionEvaluator::evaluate(e.clone(), cur.clone());
        assert_eq!(a.is_ok(), b.is_ok());
        if let (Err(x), Err(y)) = (a, b) {
            assert_eq!(x.expect, y.expect);
            assert_eq!(x.observed, y.observed);
        }
    }
}
