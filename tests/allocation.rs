use libfrugalos::device::{
    decode_device_kind, decode_segment_allocation_policy, encode_device_kind,
    encode_segment_allocation_policy, place, resolve_weight, AllocationError, DecodeError,
    DeviceKind, DeviceWeight, SegmentAllocationPolicy, Weight,
};

fn dev(device: u64, weight: u64) -> DeviceWeight {
    DeviceWeight { device, weight }
}

#[test]
fn policy_codes_round_trip() {
    let all = [
        SegmentAllocationPolicy::ScatterIfPossible,
        SegmentAllocationPolicy::Scatter,
        SegmentAllocationPolicy::Neutral,
        SegmentAllocationPolicy::Gather,
        SegmentAllocationPolicy::AsEvenAsPossible,
    ];
    for (i, p) in all.iter().enumerate() {
        assert_eq!(encode_segment_allocation_policy(*p), i as u32);
        assert_eq!(decode_segment_allocation_policy(i as u32), Ok(*p));
    }
}

#[test]
fn unknown_policy_code_is_rejected() {
    assert_eq!(decode_segment_allocation_policy(5), Err(DecodeError::UnknownValue(5)));
    assert_eq!(decode_segment_allocation_policy(u32::MAX), Err(DecodeError::UnknownValue(u32::MAX)));
}

#[test]
fn device_kind_codes_round_trip() {
    for (i, k) in [DeviceKind::Virtual, DeviceKind::Memory, DeviceKind::File].iter().enumerate() {
        assert_eq!(encode_device_kind(*k), i as u32);
        assert_eq!(decode_device_kind(i as u32), Ok(*k));
    }
    assert_eq!(decode_device_kind(3), Err(DecodeError::UnknownValue(3)));
}

#[test]
fn weights_resolve() {
    assert_eq!(resolve_weight(Weight::Auto, 500, 10_000), 500);
    assert_eq!(resolve_weight(Weight::Absolute(7), 500, 10_000), 7);
    assert_eq!(resolve_weight(Weight::Relative(250_000), 500, 1_000), 250);
    assert_eq!(resolve_weight(Weight::Relative(1), 500, 999_999), 0);
    assert_eq!(resolve_weight(Weight::Relative(u32::MAX), 0, u64::MAX), u64::MAX);
}

#[test]
fn no_eligible_device_fails() {
    for p in [SegmentAllocationPolicy::Neutral, SegmentAllocationPolicy::Gather] {
        assert_eq!(place(&vec![], p, 3), Err(AllocationError::NoEligibleDevice));
        assert_eq!(place(&vec![dev(1, 0), dev(2, 0)], p, 3), Err(AllocationError::NoEligibleDevice));
    }
}

#[test]
fn gather_uses_heaviest_device() {
    let devices = vec![dev(5, 10), dev(3, 30), dev(4, 30), dev(9, 0)];
    assert_eq!(place(&devices, SegmentAllocationPolicy::Gather, 4), Ok(vec![3, 3, 3, 3]));
}

#[test]
fn scatter_uses_distinct_devices() {
    let devices = vec![dev(7, 1), dev(2, 5), dev(3, 5), dev(8, 0)];
    assert_eq!(place(&devices, SegmentAllocationPolicy::Scatter, 3), Ok(vec![2, 3, 7]));
}

#[test]
fn scatter_with_too_few_devices_fails() {
    let devices = vec![dev(1, 1), dev(2, 1), dev(3, 0)];
    assert_eq!(
        place(&devices, SegmentAllocationPolicy::Scatter, 3),
        Err(AllocationError::NoEligibleDevice)
    );
}

#[test]
fn scatter_if_possible_reuses_devices() {
    let devices = vec![dev(1, 1), dev(2, 1)];
    assert_eq!(
        place(&devices, SegmentAllocationPolicy::ScatterIfPossible, 5),
        Ok(vec![1, 2, 1, 2, 1])
    );
}

#[test]
fn neutral_is_weighted_round_robin() {
    let devices = vec![dev(1, 2), dev(2, 1)];
    assert_eq!(place(&devices, SegmentAllocationPolicy::Neutral, 3), Ok(vec![1, 2, 1]));
    assert_eq!(place(&devices, SegmentAllocationPolicy::Neutral, 6), Ok(vec![1, 2, 1, 1, 2, 1]));
}

#[test]
fn as_even_as_possible_follows_weights() {
    let devices = vec![dev(1, 2), dev(2, 1)];
    assert_eq!(place(&devices, SegmentAllocationPolicy::AsEvenAsPossible, 3), Ok(vec![1, 1, 2]));
    let equal = vec![dev(9, 4), dev(3, 4), dev(5, 4)];
    assert_eq!(
        place(&equal, SegmentAllocationPolicy::AsEvenAsPossible, 4),
        Ok(vec![3, 5, 9, 3])
    );
}

#[test]
fn zero_segments_place_nothing() {
    assert_eq!(place(&vec![dev(1, 1)], SegmentAllocationPolicy::Scatter, 0), Ok(vec![]));
}

#[test]
fn placement_is_reproducible() {
    let devices = vec![dev(4, 3), dev(1, 7), dev(2, 7), dev(6, 1)];
    for p in [
        SegmentAllocationPolicy::ScatterIfPossible,
        SegmentAllocationPolicy::Neutral,
        SegmentAllocationPolicy::AsEvenAsPossible,
    ] {
        assert_eq!(place(&devices, p, 9), place(&devices, p, 9));
    }
}
