use libfrugalos::bucket::{BucketKind, BucketTopology, TopologyError};

#[test]
fn replicated_with_too_many_faults_is_rejected() {
    for (s, t) in [(4u32, 4u32), (4, 5), (0, 0)] {
        let kind = BucketKind::Replicated { segment_count: s, tolerable_faults: t };
        assert_eq!(BucketTopology::validate(&kind), Err(TopologyError::InvalidTopology));
        assert!(BucketTopology::new(kind).is_err());
    }
}

#[test]
fn dispersed_without_data_fragments_is_rejected() {
    let kind = BucketKind::Dispersed { segment_count: 4, tolerable_faults: 2, data_fragment_count: 0 };
    assert_eq!(BucketTopology::validate(&kind), Err(TopologyError::InvalidTopology));
}

#[test]
fn dispersed_whose_fragment_total_overflows_is_rejected() {
    let kind = BucketKind::Dispersed {
        segment_count: 4,
        tolerable_faults: u32::MAX,
        data_fragment_count: 1,
    };
    assert_eq!(BucketTopology::validate(&kind), Err(TopologyError::InvalidTopology));
}

#[test]
fn dispersed_four_two_three_reports_five_fragments() {
    let kind = BucketKind::Dispersed { segment_count: 4, tolerable_faults: 2, data_fragment_count: 3 };
    assert_eq!(BucketTopology::validate(&kind), Ok(()));
    let t = BucketTopology::new(kind).unwrap();
    assert_eq!(t.replica_or_fragment_count(), 5);
    assert_eq!(t.fault_tolerance(), 2);
    assert_eq!(t.min_units_to_read(), 3);
    assert_eq!(t.kind(), kind);
}

#[test]
fn replicated_counts() {
    let t = BucketTopology::new(BucketKind::Replicated { segment_count: 8, tolerable_faults: 2 }).unwrap();
    assert_eq!(t.replica_or_fragment_count(), 3);
    assert_eq!(t.fault_tolerance(), 2);
    assert_eq!(t.min_units_to_read(), 1);
}

#[test]
fn metadata_counts() {
    let t = BucketTopology::new(BucketKind::Metadata).unwrap();
    assert_eq!(t.replica_or_fragment_count(), 1);
    assert_eq!(t.fault_tolerance(), 0);
    assert_eq!(t.min_units_to_read(), 1);
}
