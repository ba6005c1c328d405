//! Bucket layouts and their arithmetic invariants.
use vstd::prelude::*;

verus! {

/// How a bucket keeps the data of each of its segments.
#[derive(Debug, Clone, Copy, PartialEq, Eq, Structural)]
pub enum BucketKind {
    /// One logical copy, no redundancy.
    Metadata,
    /// `tolerable_faults + 1` full replicas of each segment.
    Replicated { segment_count: u32, tolerable_faults: u32 },
    /// `data_fragment_count` data fragments plus `tolerable_faults` parity
    /// fragments for each segment.
    Dispersed { segment_count: u32, tolerable_faults: u32, data_fragment_count: u32 },
}

/// A bucket layout that breaks its arithmetic invariants.
#[derive(Debug, Clone, Copy, PartialEq, Eq, Structural)]
pub enum TopologyError {
    InvalidTopology,
}

/// Whether a layout is sound: a replicated bucket tolerates fewer faults than
/// it has segments; a dispersed bucket has at least one data fragment, and its
/// fragment total fits in 32 bits.
pub open spec fn kind_is_valid(kind: BucketKind) -> bool {
    match kind {
        BucketKind::Metadata => true,
        BucketKind::Replicated { segment_count, tolerable_faults } => tolerable_faults
            < segment_count,
        BucketKind::Dispersed { tolerable_faults, data_fragment_count, .. } => {
            &&& data_fragment_count >= 1
            &&& data_fragment_count + tolerable_faults <= u32::MAX
        },
    }
}

/// Replicas (or fragments) kept of each segment.
pub open spec fn units_per_segment(kind: BucketKind) -> int {
    match kind {
        BucketKind::Metadata => 1,
        BucketKind::Replicated { tolerable_faults, .. } => tolerable_faults + 1,
        BucketKind::Dispersed { tolerable_faults, data_fragment_count, .. } => data_fragment_count
            + tolerable_faults,
    }
}

/// Replicas (or fragments) of a segment that may be lost at once.
pub open spec fn faults_tolerated(kind: BucketKind) -> int {
    match kind {
        BucketKind::Metadata => 0,
        BucketKind::Replicated { tolerable_faults, .. } => tolerable_faults as int,
        BucketKind::Dispersed { tolerable_faults, .. } => tolerable_faults as int,
    }
}

/// Surviving replicas (or fragments) needed to read a segment back.
pub open spec fn units_needed_to_read(kind: BucketKind) -> int {
    match kind {
        BucketKind::Dispersed { data_fragment_count, .. } => data_fragment_count as int,
        _ => 1,
    }
}

/// A validated bucket layout. It is fixed once built.
#[derive(Debug, Clone, Copy)]
pub struct BucketTopology {
    kind: BucketKind,
}

impl View for BucketTopology {
    type V = BucketKind;

    closed spec fn view(&self) -> BucketKind {
        self.kind
    }
}

impl BucketTopology {
    #[verifier::type_invariant]
    spec fn inv(&self) -> bool {
        kind_is_valid(self.kind)
    }

    /// Checks the arithmetic invariants of a layout.
    pub fn validate(kind: &BucketKind) -> (r: Result<(), TopologyError>)
        ensures
            r is Ok <==> kind_is_valid(*kind),
    {
        match kind {
            BucketKind::Metadata => Ok(()),
            BucketKind::Replicated { segment_count, tolerable_faults } => {
                if *tolerable_faults < *segment_count {
                    Ok(())
                } else {
                    Err(TopologyError::InvalidTopology)
                }
            },
            BucketKind::Dispersed { tolerable_faults, data_fragment_count, .. } => {
                if *data_fragment_count >= 1 && *tolerable_faults <= u32::MAX - *data_fragment_count {
                    Ok(())
                } else {
                    Err(TopologyError::InvalidTopology)
                }
            },
        }
    }

    /// Builds the topology of a layout, which must be valid.
    pub fn new(kind: BucketKind) -> (r: Result<BucketTopology, TopologyError>)
        ensures
            r is Ok <==> kind_is_valid(kind),
            r matches Ok(t) ==> t@ == kind,
    {
        match BucketTopology::validate(&kind) {
            Ok(()) => Ok(BucketTopology { kind }),
            Err(e) => Err(e),
        }
    }

    /// The layout.
    pub fn kind(&self) -> (r: BucketKind)
        ensures
            r == self@,
            kind_is_valid(r),
    {
        proof {
            use_type_invariant(self);
        }
        self.kind
    }

    /// Replicas (or fragments) kept of each segment.
    pub fn replica_or_fragment_count(&self) -> (r: u32)
        ensures
            r == units_per_segment(self@),
            r >= 1,
    {
        proof {
            use_type_invariant(self);
        }
        match self.kind {
            BucketKind::Metadata => 1,
            BucketKind::Replicated { tolerable_faults, .. } => tolerable_faults + 1,
            BucketKind::Dispersed { tolerable_faults, data_fragment_count, .. } => data_fragment_count
                + tolerable_faults,
        }
    }

    /// Replicas (or fragments) of a segment that may be lost at once.
    pub fn fault_tolerance(&self) -> (r: u32)
        ensures
            r == faults_tolerated(self@),
    {
        match self.kind {
            BucketKind::Metadata => 0,
            BucketKind::Replicated { tolerable_faults, .. } => tolerable_faults,
            BucketKind::Dispersed { tolerable_faults, .. } => tolerable_faults,
        }
    }

    /// Surviving replicas (or fragments) needed to read a segment back: the
    /// data fragment count of a dispersed bucket, one otherwise.
    pub fn min_units_to_read(&self) -> (r: u32)
        ensures
            r == units_needed_to_read(self@),
            r >= 1,
    {
        proof {
            use_type_invariant(self);
        }
        match self.kind {
            BucketKind::Dispersed { data_fragment_count, .. } => data_fragment_count,
            _ => 1,
        }
    }
}

/// A valid layout loses no more units than it can afford: after losing the
/// tolerated number of replicas (or fragments), enough remain to read.
pub proof fn lemma_tolerated_faults_leave_enough(kind: BucketKind)
    requires
        kind_is_valid(kind),
    ensures
        units_per_segment(kind) - faults_tolerated(kind) >= units_needed_to_read(kind),
        units_per_segment(kind) >= 1,
{
}

/// Validation rejects a replicated bucket that tolerates as many faults as it
/// has segments (or more), and a dispersed bucket without data fragments.
pub proof fn lemma_invalid_layouts_rejected(
    segment_count: u32,
    tolerable_faults: u32,
)
    ensures
        tolerable_faults >= segment_count ==> !kind_is_valid(
            BucketKind::Replicated { segment_count, tolerable_faults },
        ),
        !kind_is_valid(
            BucketKind::Dispersed { segment_count, tolerable_faults, data_fragment_count: 0 },
        ),
{
}

} // verus!
