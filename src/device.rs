//! Device weights and the placement of segments on devices.
use vstd::prelude::*;

verus! {

/// One million: the denominator of a relative weight.
pub const PARTS_PER_MILLION: u64 = 1_000_000;

/// The weight of a device in placement decisions.
#[derive(Debug, Clone, Copy, PartialEq, Eq, Structural)]
pub enum Weight {
    /// The device's raw capacity.
    Auto,
    /// A fixed number of weight units.
    Absolute(u64),
    /// A share of the cluster's total capacity, in parts per million.
    Relative(u32),
}

/// The bias of segment placement.
#[derive(Debug, Clone, Copy, PartialEq, Eq, Structural)]
pub enum SegmentAllocationPolicy {
    /// Spread segments over distinct devices; reuse devices when there are too few.
    ScatterIfPossible,
    /// Spread segments over distinct devices; fail when there are too few.
    Scatter,
    /// Weight-proportional round robin.
    Neutral,
    /// Put segments on as few devices as possible.
    Gather,
    /// Keep the weight-adjusted segment count of every device as even as possible.
    AsEvenAsPossible,
}

/// The kind of a device.
#[derive(Debug, Clone, Copy, PartialEq, Eq, Structural)]
pub enum DeviceKind {
    Virtual,
    Memory,
    File,
}

/// A numeric code that names no known value.
#[derive(Debug, Clone, Copy, PartialEq, Eq, Structural)]
pub enum DecodeError {
    UnknownValue(u32),
}

/// The code of a placement policy.
pub open spec fn policy_code(p: SegmentAllocationPolicy) -> u32 {
    match p {
        SegmentAllocationPolicy::ScatterIfPossible => 0,
        SegmentAllocationPolicy::Scatter => 1,
        SegmentAllocationPolicy::Neutral => 2,
        SegmentAllocationPolicy::Gather => 3,
        SegmentAllocationPolicy::AsEvenAsPossible => 4,
    }
}

/// The code of a device kind.
pub open spec fn device_kind_code(k: DeviceKind) -> u32 {
    match k {
        DeviceKind::Virtual => 0,
        DeviceKind::Memory => 1,
        DeviceKind::File => 2,
    }
}

/// Encodes a placement policy as its numeric code.
pub fn encode_segment_allocation_policy(policy: SegmentAllocationPolicy) -> (r: u32)
    ensures
        r == policy_code(policy),
        r <= 4,
{
    match policy {
        SegmentAllocationPolicy::ScatterIfPossible => 0,
        SegmentAllocationPolicy::Scatter => 1,
        SegmentAllocationPolicy::Neutral => 2,
        SegmentAllocationPolicy::Gather => 3,
        SegmentAllocationPolicy::AsEvenAsPossible => 4,
    }
}

/// Decodes a placement policy from its numeric code; an unknown code is rejected.
pub fn decode_segment_allocation_policy(x: u32) -> (r: Result<
    SegmentAllocationPolicy,
    DecodeError,
>)
    ensures
        r matches Ok(p) ==> policy_code(p) == x,
        r is Err <==> x > 4,
        r is Err ==> r == Err::<SegmentAllocationPolicy, DecodeError>(DecodeError::UnknownValue(x)),
{
    match x {
        0 => Ok(SegmentAllocationPolicy::ScatterIfPossible),
        1 => Ok(SegmentAllocationPolicy::Scatter),
        2 => Ok(SegmentAllocationPolicy::Neutral),
        3 => Ok(SegmentAllocationPolicy::Gather),
        4 => Ok(SegmentAllocationPolicy::AsEvenAsPossible),
        _ => Err(DecodeError::UnknownValue(x)),
    }
}

/// Encodes a device kind as its numeric code.
pub fn encode_device_kind(kind: DeviceKind) -> (r: u32)
    ensures
        r == device_kind_code(kind),
        r <= 2,
{
    match kind {
        DeviceKind::Virtual => 0,
        DeviceKind::Memory => 1,
        DeviceKind::File => 2,
    }
}

/// Decodes a device kind from its numeric code; an unknown code is rejected.
pub fn decode_device_kind(x: u32) -> (r: Result<DeviceKind, DecodeError>)
    ensures
        r matches Ok(k) ==> device_kind_code(k) == x,
        r is Err <==> x > 2,
        r is Err ==> r == Err::<DeviceKind, DecodeError>(DecodeError::UnknownValue(x)),
{
    match x {
        0 => Ok(DeviceKind::Virtual),
        1 => Ok(DeviceKind::Memory),
        2 => Ok(DeviceKind::File),
        _ => Err(DecodeError::UnknownValue(x)),
    }
}

/// Decoding a code gives back the value that was encoded.
pub proof fn lemma_codes_round_trip(policy: SegmentAllocationPolicy, kind: DeviceKind)
    ensures
        policy_code(policy) <= 4,
        device_kind_code(kind) <= 2,
        forall|p: SegmentAllocationPolicy| policy_code(p) == policy_code(policy) ==> p == policy,
        forall|k: DeviceKind| device_kind_code(k) == device_kind_code(kind) ==> k == kind,
{
}

/// The effective weight of a device: its capacity for `Auto`, the given units
/// for `Absolute`, and the given share of the cluster total (rounded down, and
/// capped at `u64::MAX`) for `Relative`.
pub open spec fn effective_weight(weight: Weight, capacity: u64, total: u64) -> int {
    match weight {
        Weight::Auto => capacity as int,
        Weight::Absolute(n) => n as int,
        Weight::Relative(ppm) => {
            let share = (total as int) * (ppm as int) / (PARTS_PER_MILLION as int);
            if share > u64::MAX {
                u64::MAX as int
            } else {
                share
            }
        },
    }
}

/// Resolves a device's weight against its capacity and the cluster's total capacity.
pub fn resolve_weight(weight: Weight, device_capacity: u64, cluster_total_capacity: u64) -> (r: u64)
    ensures
        r == effective_weight(weight, device_capacity, cluster_total_capacity),
{
    match weight {
        Weight::Auto => device_capacity,
        Weight::Absolute(n) => n,
        Weight::Relative(ppm) => {
            assert((cluster_total_capacity as int) * (ppm as int) <= (u64::MAX as int) * (
            u32::MAX as int)) by (nonlinear_arith)
                requires
                    cluster_total_capacity <= u64::MAX,
                    ppm <= u32::MAX,
            ;
            let share = (cluster_total_capacity as u128) * (ppm as u128) / (
            PARTS_PER_MILLION as u128);
            if share > u64::MAX as u128 {
                u64::MAX
            } else {
                share as u64
            }
        },
    }
}

/// A device with its effective weight.
#[derive(Debug, Clone, Copy, PartialEq, Eq, Structural)]
pub struct DeviceWeight {
    pub device: u64,
    pub weight: u64,
}

/// Why segments could not be placed.
#[derive(Debug, Clone, Copy, PartialEq, Eq, Structural)]
pub enum AllocationError {
    /// No device has a positive weight, or a strict scatter has fewer such
    /// devices than segments.
    NoEligibleDevice,
}

/// Entry `i` is a device that can take segments: it has a positive weight.
pub open spec fn eligible(devices: Seq<DeviceWeight>, i: int) -> bool {
    0 <= i < devices.len() && devices[i].weight > 0
}

/// Number of devices that can take segments.
pub open spec fn eligible_count(devices: Seq<DeviceWeight>) -> nat
    decreases devices.len(),
{
    if devices.len() == 0 {
        0
    } else {
        eligible_count(devices.drop_last()) + if devices.last().weight > 0 {
            1nat
        } else {
            0nat
        }
    }
}

/// Segments placed on device `id` so far.
pub open spec fn count_of(placed: Seq<u64>, id: u64) -> nat
    decreases placed.len(),
{
    if placed.len() == 0 {
        0
    } else {
        count_of(placed.drop_last(), id) + if placed.last() == id {
            1nat
        } else {
            0nat
        }
    }
}

/// The load that a policy compares, weight-adjusted, for a device holding `c`
/// segments: what it holds, or would hold after one more.
pub open spec fn load(policy: SegmentAllocationPolicy, c: nat) -> int {
    match policy {
        SegmentAllocationPolicy::AsEvenAsPossible => c as int + 1,
        _ => c as int,
    }
}

/// The last tie-break: the heavier device, then the lower device id.
pub open spec fn outranks(a: DeviceWeight, b: DeviceWeight) -> bool {
    a.weight > b.weight || (a.weight == b.weight && a.device < b.device)
}

/// Under `policy`, device `a` holding `ca` segments ranks strictly before `b`
/// holding `cb` on the policy's own measure: never for gather; fewer segments
/// for the scatters; a lower segment count per unit of weight for neutral and
/// as-even-as-possible.
pub open spec fn measure_lt(
    policy: SegmentAllocationPolicy,
    a: DeviceWeight,
    ca: nat,
    b: DeviceWeight,
    cb: nat,
) -> bool {
    match policy {
        SegmentAllocationPolicy::Gather => false,
        SegmentAllocationPolicy::Scatter => ca < cb,
        SegmentAllocationPolicy::ScatterIfPossible => ca < cb,
        _ => load(policy, ca) * b.weight < load(policy, cb) * a.weight,
    }
}

/// The two devices tie on the policy's own measure.
pub open spec fn measure_eq(
    policy: SegmentAllocationPolicy,
    a: DeviceWeight,
    ca: nat,
    b: DeviceWeight,
    cb: nat,
) -> bool {
    match policy {
        SegmentAllocationPolicy::Gather => true,
        SegmentAllocationPolicy::Scatter => ca == cb,
        SegmentAllocationPolicy::ScatterIfPossible => ca == cb,
        _ => load(policy, ca) * b.weight == load(policy, cb) * a.weight,
    }
}

/// Under `policy`, the next segment goes to `a` (holding `ca`) rather than to
/// `b` (holding `cb`).
pub open spec fn prefers(
    policy: SegmentAllocationPolicy,
    a: DeviceWeight,
    ca: nat,
    b: DeviceWeight,
    cb: nat,
) -> bool {
    measure_lt(policy, a, ca, b, cb) || (measure_eq(policy, a, ca, b, cb) && outranks(a, b))
}

/// Entry `i` is where the next segment goes after `placed`: an eligible
/// device that no eligible device is preferred to.
pub open spec fn is_choice(
    policy: SegmentAllocationPolicy,
    devices: Seq<DeviceWeight>,
    placed: Seq<u64>,
    i: int,
) -> bool {
    &&& eligible(devices, i)
    &&& forall|j: int|
        eligible(devices, j) ==> !prefers(
            policy,
            devices[j],
            count_of(placed, devices[j].device),
            devices[i],
            count_of(placed, devices[i].device),
        )
}

/// Segment `s` of `placed` went where the policy sends it after the segments before it.
pub open spec fn chosen_at(
    policy: SegmentAllocationPolicy,
    devices: Seq<DeviceWeight>,
    placed: Seq<u64>,
    s: int,
) -> bool {
    exists|i: int| is_choice(policy, devices, placed.take(s), i) && placed[s] == devices[i].device
}

/// `placed` maps each of `n` segments to a device, one after another, as the
/// policy directs.
pub open spec fn is_placement(
    policy: SegmentAllocationPolicy,
    devices: Seq<DeviceWeight>,
    n: nat,
    placed: Seq<u64>,
) -> bool {
    &&& placed.len() == n
    &&& forall|s: int| 0 <= s < n ==> chosen_at(policy, devices, placed, s)
}

/// Placement is impossible: no device can take segments, or a strict scatter
/// has fewer such devices than segments.
pub open spec fn placement_fails(
    policy: SegmentAllocationPolicy,
    devices: Seq<DeviceWeight>,
    n: nat,
) -> bool {
    eligible_count(devices) == 0 || (policy is Scatter && eligible_count(devices) < n)
}

proof fn lemma_ratio_chain(xa: int, xb: int, xc: int, wa: int, wb: int, wc: int)
    requires
        wa > 0,
        wb > 0,
        wc > 0,
        xa * wb <= xb * wa,
        xb * wc <= xc * wb,
    ensures
        xa * wc <= xc * wa,
        (xa * wb < xb * wa || xb * wc < xc * wb) ==> xa * wc < xc * wa,
{
    assert(xa * wb * wc <= xb * wa * wc) by (nonlinear_arith)
        requires
            xa * wb <= xb * wa,
            wc > 0,
    ;
    assert(xb * wc * wa <= xc * wb * wa) by (nonlinear_arith)
        requires
            xb * wc <= xc * wb,
            wa > 0,
    ;
    assert(xb * wa * wc == xb * wc * wa) by (nonlinear_arith);
    assert(xa * wb * wc == (xa * wc) * wb) by (nonlinear_arith);
    assert(xc * wb * wa == (xc * wa) * wb) by (nonlinear_arith);
    assert(xa * wc <= xc * wa) by (nonlinear_arith)
        requires
            (xa * wc) * wb <= (xc * wa) * wb,
            wb > 0,
    ;
    if xa * wb < xb * wa {
        assert(xa * wb * wc < xb * wa * wc) by (nonlinear_arith)
            requires
                xa * wb < xb * wa,
                wc > 0,
        ;
        assert(xa * wc < xc * wa) by (nonlinear_arith)
            requires
                (xa * wc) * wb < (xc * wa) * wb,
                wb > 0,
        ;
    }
    if xb * wc < xc * wb {
        assert(xb * wc * wa < xc * wb * wa) by (nonlinear_arith)
            requires
                xb * wc < xc * wb,
                wa > 0,
        ;
        assert(xa * wc < xc * wa) by (nonlinear_arith)
            requires
                (xa * wc) * wb < (xc * wa) * wb,
                wb > 0,
        ;
    }
}

proof fn lemma_prefers_order(
    policy: SegmentAllocationPolicy,
    a: DeviceWeight,
    ca: nat,
    b: DeviceWeight,
    cb: nat,
    c: DeviceWeight,
    cc: nat,
)
    requires
        a.weight > 0,
        b.weight > 0,
        c.weight > 0,
    ensures
        !prefers(policy, a, ca, a, ca),
        prefers(policy, a, ca, b, cb) && prefers(policy, b, cb, c, cc) ==> prefers(
            policy,
            a,
            ca,
            c,
            cc,
        ),
        !prefers(policy, a, ca, b, cb) && !prefers(policy, b, cb, a, ca) ==> a.weight == b.weight
            && a.device == b.device,
{
    match policy {
        SegmentAllocationPolicy::Neutral | SegmentAllocationPolicy::AsEvenAsPossible => {
            let xa = load(policy, ca);
            let xb = load(policy, cb);
            let xc = load(policy, cc);
            let (wa, wb, wc) = (a.weight as int, b.weight as int, c.weight as int);
            if xa * wb <= xb * wa && xb * wc <= xc * wb {
                lemma_ratio_chain(xa, xb, xc, wa, wb, wc);
            }
            if xc * wb <= xb * wc && xb * wa <= xa * wb {
                lemma_ratio_chain(xc, xb, xa, wc, wb, wa);
            }
        },
        _ => {},
    }
}

proof fn lemma_count_bounded(placed: Seq<u64>, id: u64)
    ensures
        count_of(placed, id) <= placed.len(),
    decreases placed.len(),
{
    if placed.len() > 0 {
        lemma_count_bounded(placed.drop_last(), id);
    }
}

proof fn lemma_some_eligible(devices: Seq<DeviceWeight>)
    requires
        eligible_count(devices) > 0,
    ensures
        exists|i: int| eligible(devices, i),
    decreases devices.len(),
{
    if devices.last().weight > 0 {
        assert(eligible(devices, devices.len() - 1));
    } else {
        let rest = devices.drop_last();
        lemma_some_eligible(rest);
        let i = choose|i: int| eligible(rest, i);
        assert(eligible(devices, i));
    }
}

/// Decides `prefers` on machine integers.
fn prefers_exec(
    policy: SegmentAllocationPolicy,
    a: &DeviceWeight,
    ca: u64,
    b: &DeviceWeight,
    cb: u64,
) -> (r: bool)
    requires
        ca <= u32::MAX,
        cb <= u32::MAX,
    ensures
        r == prefers(policy, *a, ca as nat, *b, cb as nat),
{
    let (lt, eq) = match policy {
        SegmentAllocationPolicy::Gather => (false, true),
        SegmentAllocationPolicy::Scatter => (ca < cb, ca == cb),
        SegmentAllocationPolicy::ScatterIfPossible => (ca < cb, ca == cb),
        _ => {
            let extra: u64 = match policy {
                SegmentAllocationPolicy::AsEvenAsPossible => 1,
                _ => 0,
            };
            let la = ca + extra;
            let lb = cb + extra;
            assert(la as int == load(policy, ca as nat) && lb as int == load(policy, cb as nat));
            assert((la as int) * (b.weight as int) <= 0x1_0000_0000 * (u64::MAX as int))
                by (nonlinear_arith)
                requires
                    la <= 0x1_0000_0000,
                    b.weight <= u64::MAX,
            ;
            assert((lb as int) * (a.weight as int) <= 0x1_0000_0000 * (u64::MAX as int))
                by (nonlinear_arith)
                requires
                    lb <= 0x1_0000_0000,
                    a.weight <= u64::MAX,
            ;
            let left = (la as u128) * (b.weight as u128);
            let right = (lb as u128) * (a.weight as u128);
            (left < right, left == right)
        },
    };
    lt || (eq && (a.weight > b.weight || (a.weight == b.weight && a.device < b.device)))
}

/// Returns the entry where the next segment goes, given each entry's
/// segment count so far.
fn choose_device(
    policy: SegmentAllocationPolicy,
    devices: &Vec<DeviceWeight>,
    counts: &Vec<u64>,
    Ghost(placed): Ghost<Seq<u64>>,
) -> (r: usize)
    requires
        counts@.len() == devices@.len(),
        placed.len() <= u32::MAX,
        exists|i: int| eligible(devices@, i),
        forall|e: int|
            0 <= e < devices@.len() ==> counts@[e] as nat == count_of(placed, #[trigger] devices@[e].device),
    ensures
        is_choice(policy, devices@, placed, r as int),
{
    let mut best: Option<usize> = None;
    let mut j: usize = 0;
    while j < devices.len()
        invariant
            j <= devices@.len(),
            counts@.len() == devices@.len(),
            placed.len() <= u32::MAX,
            forall|e: int|
                0 <= e < devices@.len() ==> counts@[e] as nat == count_of(placed, #[trigger] devices@[e].device),
            best matches Some(b) ==> eligible(devices@, b as int) && forall|i: int|
                0 <= i < j && eligible(devices@, i) ==> !prefers(
                    policy,
                    devices@[i],
                    count_of(placed, devices@[i].device),
                    devices@[b as int],
                    count_of(placed, devices@[b as int].device),
                ),
            best is None ==> forall|i: int| 0 <= i < j ==> !eligible(devices@, i),
        decreases devices@.len() - j,
    {
        if devices[j].weight > 0 {
            proof {
                lemma_count_bounded(placed, devices@[j as int].device);
            }
            match best {
                None => {
                    proof {
                        lemma_prefers_order(
                            policy,
                            devices@[j as int],
                            counts@[j as int] as nat,
                            devices@[j as int],
                            counts@[j as int] as nat,
                            devices@[j as int],
                            counts@[j as int] as nat,
                        );
                    }
                    best = Some(j);
                },
                Some(b) => {
                    proof {
                        lemma_count_bounded(placed, devices@[b as int].device);
                    }
                    if prefers_exec(policy, &devices[j], counts[j], &devices[b], counts[b]) {
                        proof {
                            let dj = devices@[j as int];
                            let db = devices@[b as int];
                            let cj = count_of(placed, dj.device);
                            let cb = count_of(placed, db.device);
                            assert forall|i: int|
                                0 <= i < j + 1 && eligible(devices@, i) implies !prefers(
                                policy,
                                devices@[i],
                                count_of(placed, devices@[i].device),
                                dj,
                                cj,
                            ) by {
                                lemma_prefers_order(
                                    policy,
                                    devices@[i],
                                    count_of(placed, devices@[i].device),
                                    dj,
                                    cj,
                                    db,
                                    cb,
                                );
                            }
                        }
                        best = Some(j);
                    }
                },
            }
        }
        j = j + 1;
    }
    match best {
        Some(b) => b,
        None => {
            proof {
                let i = choose|i: int| eligible(devices@, i);
                assert(false);
            }
            0
        },
    }
}

proof fn lemma_count_push(placed: Seq<u64>, id: u64, x: u64)
    ensures
        count_of(placed.push(id), x) == count_of(placed, x) + if id == x {
            1nat
        } else {
            0nat
        },
{
    assert(placed.push(id).drop_last() =~= placed);
}

/// Counts the devices that can take segments.
fn count_eligible(devices: &Vec<DeviceWeight>) -> (r: usize)
    ensures
        r == eligible_count(devices@),
{
    let mut n: usize = 0;
    let mut i: usize = 0;
    while i < devices.len()
        invariant
            i <= devices@.len(),
            n == eligible_count(devices@.take(i as int)),
            n <= i,
        decreases devices@.len() - i,
    {
        assert(devices@.take(i + 1).drop_last() =~= devices@.take(i as int));
        if devices[i].weight > 0 {
            n = n + 1;
        }
        i = i + 1;
    }
    assert(devices@.take(i as int) =~= devices@);
    n
}

/// Places `segment_count` segments on `devices`, one after another: each goes
/// to the eligible device that `policy` prefers given the segments placed so
/// far (see `prefers`), with ties going to the heavier device, then to the
/// lower device id. Entry `s` of the result is the device of segment `s`.
pub fn place(
    devices: &Vec<DeviceWeight>,
    policy: SegmentAllocationPolicy,
    segment_count: u32,
) -> (r: Result<Vec<u64>, AllocationError>)
    ensures
        r is Err <==> placement_fails(policy, devices@, segment_count as nat),
        r matches Ok(p) ==> is_placement(policy, devices@, segment_count as nat, p@),
{
    let eligible_n = count_eligible(devices);
    if eligible_n == 0 {
        return Err(AllocationError::NoEligibleDevice);
    }
    if let SegmentAllocationPolicy::Scatter = policy {
        if eligible_n < segment_count as usize {
            return Err(AllocationError::NoEligibleDevice);
        }
    }
    proof {
        lemma_some_eligible(devices@);
    }
    let k = devices.len();
    let mut counts: Vec<u64> = Vec::new();
    let mut e: usize = 0;
    while e < k
        invariant
            e <= k,
            k == devices@.len(),
            counts@.len() == e,
            forall|x: int| 0 <= x < e ==> counts@[x] == 0,
        decreases k - e,
    {
        counts.push(0);
        e = e + 1;
    }
    let mut placed: Vec<u64> = Vec::new();
    let mut s: u32 = 0;
    while s < segment_count
        invariant
            s <= segment_count,
            k == devices@.len(),
            counts@.len() == k,
            placed@.len() == s,
            exists|i: int| eligible(devices@, i),
            forall|x: int|
                0 <= x < k ==> counts@[x] as nat == count_of(placed@, #[trigger] devices@[x].device),
            forall|t: int| 0 <= t < s ==> chosen_at(policy, devices@, placed@, t),
        decreases segment_count - s,
    {
        let best = choose_device(policy, devices, &counts, Ghost(placed@));
        let id = devices[best].device;
        let ghost before = placed@;
        placed.push(id);
        proof {
            assert(placed@.take(s as int) =~= before);
            assert(chosen_at(policy, devices@, placed@, s as int));
            assert forall|t: int| 0 <= t < s implies chosen_at(policy, devices@, placed@, t) by {
                assert(placed@.take(t) =~= before.take(t));
                assert(chosen_at(policy, devices@, before, t));
                assert(placed@[t] == before[t]);
            }
        }
        let mut x: usize = 0;
        while x < k
            invariant
                x <= k,
                k == devices@.len(),
                counts@.len() == k,
                s < segment_count,
                placed@ == before.push(id),
                before.len() == s,
                forall|y: int|
                    0 <= y < x ==> counts@[y] as nat == count_of(placed@, #[trigger] devices@[y].device),
                forall|y: int|
                    x <= y < k ==> counts@[y] as nat == count_of(before, #[trigger] devices@[y].device),
            decreases k - x,
        {
            proof {
                lemma_count_push(before, id, devices@[x as int].device);
                lemma_count_bounded(before, devices@[x as int].device);
            }
            if devices[x].device == id {
                counts.set(x, counts[x] + 1);
            }
            x = x + 1;
        }
        s = s + 1;
    }
    Ok(placed)
}

proof fn lemma_placements_agree_up_to(
    policy: SegmentAllocationPolicy,
    devices: Seq<DeviceWeight>,
    n: nat,
    first: Seq<u64>,
    second: Seq<u64>,
    s: nat,
)
    requires
        is_placement(policy, devices, n, first),
        is_placement(policy, devices, n, second),
        s <= n,
    ensures
        first.take(s as int) == second.take(s as int),
    decreases s,
{
    if s > 0 {
        let t = (s - 1) as int;
        lemma_placements_agree_up_to(policy, devices, n, first, second, (s - 1) as nat);
        assert(chosen_at(policy, devices, first, t));
        assert(chosen_at(policy, devices, second, t));
        let i1 = choose|i: int| is_choice(policy, devices, first.take(t), i) && first[t] == devices[i].device;
        let i2 = choose|i: int| is_choice(policy, devices, second.take(t), i) && second[t] == devices[i].device;
        let placed = first.take(t);
        lemma_prefers_order(
            policy,
            devices[i1],
            count_of(placed, devices[i1].device),
            devices[i2],
            count_of(placed, devices[i2].device),
            devices[i1],
            count_of(placed, devices[i1].device),
        );
        assert(first.take(s as int) =~= first.take(t).push(first[t]));
        assert(second.take(s as int) =~= second.take(t).push(second[t]));
    }
}

/// Placement is reproducible: the policy and the devices determine where every
/// segment goes, so two placements of the same segments are the same.
pub proof fn lemma_placement_deterministic(
    policy: SegmentAllocationPolicy,
    devices: Seq<DeviceWeight>,
    n: nat,
    first: Seq<u64>,
    second: Seq<u64>,
)
    requires
        is_placement(policy, devices, n, first),
        is_placement(policy, devices, n, second),
    ensures
        first == second,
{
    lemma_placements_agree_up_to(policy, devices, n, first, second, n);
    assert(first =~= first.take(n as int));
    assert(second =~= second.take(n as int));
}

/// Gather puts every segment on one device.
pub proof fn lemma_gather_uses_one_device(devices: Seq<DeviceWeight>, n: nat, placed: Seq<u64>)
    requires
        is_placement(SegmentAllocationPolicy::Gather, devices, n, placed),
    ensures
        forall|s: int| 0 <= s < n ==> #[trigger] placed[s] == placed[0],
{
    let policy = SegmentAllocationPolicy::Gather;
    assert forall|s: int| 0 <= s < n implies #[trigger] placed[s] == placed[0] by {
        assert(chosen_at(policy, devices, placed, s));
        assert(chosen_at(policy, devices, placed, 0));
        let i = choose|i: int|
            is_choice(policy, devices, placed.take(s), i) && placed[s] == devices[i].device;
        let i0 = choose|i: int|
            is_choice(policy, devices, placed.take(0), i) && placed[0] == devices[i].device;
        assert(eligible(devices, i0));
        assert(!prefers(policy, devices[i0], count_of(placed.take(s), devices[i0].device), devices[i], count_of(placed.take(s), devices[i].device)));
        assert(!prefers(policy, devices[i], count_of(placed.take(0), devices[i].device), devices[i0], count_of(placed.take(0), devices[i0].device)));
        lemma_prefers_order(policy, devices[i], 0, devices[i0], 0, devices[i], 0);
    }
}

/// The scatter policies spread segments: while some eligible device holds no
/// segment yet, the next segment goes to a device that holds none.
pub proof fn lemma_scatter_spreads(
    policy: SegmentAllocationPolicy,
    devices: Seq<DeviceWeight>,
    n: nat,
    placed: Seq<u64>,
    s: int,
    j: int,
)
    requires
        policy is Scatter || policy is ScatterIfPossible,
        is_placement(policy, devices, n, placed),
        0 <= s < n,
        eligible(devices, j),
        count_of(placed.take(s), devices[j].device) == 0,
    ensures
        count_of(placed.take(s), placed[s]) == 0,
{
    assert(chosen_at(policy, devices, placed, s));
    let i = choose|i: int|
        is_choice(policy, devices, placed.take(s), i) && placed[s] == devices[i].device;
    assert(!prefers(policy, devices[j], 0, devices[i], count_of(placed.take(s), devices[i].device)));
}

} // verus!
