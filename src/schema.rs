//! The remote procedures of the public object API and their requests.
use crate::expect::Expect;
use crate::object::ObjectVersion;
use crate::time::Milliseconds;
use vstd::prelude::*;

verus! {

/// Identifier of a bucket.
pub type BucketId = String;

/// Identifier of an object.
pub type ObjectId = String;

/// Identifier of a device.
pub type DeviceId = String;

/// A prefix of object ids.
#[derive(Debug, Clone)]
pub struct ObjectPrefix(pub String);

/// Fetches an object.
#[derive(Debug, Clone, Copy)]
pub struct GetObjectRpc;

impl GetObjectRpc {
    /// The procedure's identifier.
    pub const ID: u32 = 0x0009_0000;

    /// The procedure's name.
    pub const NAME: &'static str = "frugalos.object.get";
}

/// Checks whether an object exists, and its version.
#[derive(Debug, Clone, Copy)]
pub struct HeadObjectRpc;

impl HeadObjectRpc {
    /// The procedure's identifier.
    pub const ID: u32 = 0x0009_0001;

    /// The procedure's name.
    pub const NAME: &'static str = "frugalos.object.head";
}

/// Stores an object.
#[derive(Debug, Clone, Copy)]
pub struct PutObjectRpc;

impl PutObjectRpc {
    /// The procedure's identifier.
    pub const ID: u32 = 0x0009_0002;

    /// The procedure's name.
    pub const NAME: &'static str = "frugalos.object.put";
}

/// Deletes an object.
#[derive(Debug, Clone, Copy)]
pub struct DeleteObjectRpc;

impl DeleteObjectRpc {
    /// The procedure's identifier.
    pub const ID: u32 = 0x0009_0003;

    /// The procedure's name.
    pub const NAME: &'static str = "frugalos.object.delete";
}

/// Lists the objects of a segment.
#[derive(Debug, Clone, Copy)]
pub struct ListObjectsRpc;

impl ListObjectsRpc {
    /// The procedure's identifier.
    pub const ID: u32 = 0x0009_0004;

    /// The procedure's name.
    pub const NAME: &'static str = "frugalos.object.list";
}

/// Fetches the latest version in a segment.
#[derive(Debug, Clone, Copy)]
pub struct GetLatestVersionRpc;

impl GetLatestVersionRpc {
    /// The procedure's identifier.
    pub const ID: u32 = 0x0009_0005;

    /// The procedure's name.
    pub const NAME: &'static str = "frugalos.object.latest_version";
}

/// Deletes an object by its version.
#[derive(Debug, Clone, Copy)]
pub struct DeleteObjectByVersionRpc;

impl DeleteObjectByVersionRpc {
    /// The procedure's identifier.
    pub const ID: u32 = 0x0009_0006;

    /// The procedure's name.
    pub const NAME: &'static str = "frugalos.object.delete_by_version";
}

/// Deletes the objects whose versions fall in a range.
#[derive(Debug, Clone, Copy)]
pub struct DeleteObjectsByRangeRpc;

impl DeleteObjectsByRangeRpc {
    /// The procedure's identifier.
    pub const ID: u32 = 0x0009_0007;

    /// The procedure's name.
    pub const NAME: &'static str = "frugalos.object.delete_by_range";
}

/// Deletes the objects whose ids start with a prefix.
#[derive(Debug, Clone, Copy)]
pub struct DeleteObjectsByPrefixRpc;

impl DeleteObjectsByPrefixRpc {
    /// The procedure's identifier.
    pub const ID: u32 = 0x0009_0009;

    /// The procedure's name.
    pub const NAME: &'static str = "frugalos.object.delete_by_prefix";
}

/// Inspects a physical device.
#[derive(Debug, Clone, Copy)]
pub struct InspectPhysicalDeviceRpc;

impl InspectPhysicalDeviceRpc {
    /// The procedure's identifier.
    pub const ID: u32 = 0x000b_0001;

    /// The procedure's name.
    pub const NAME: &'static str = "frugalos.device.inspect_physical_device";
}

/// Stops a process.
#[derive(Debug, Clone, Copy)]
pub struct StopRpc;

impl StopRpc {
    /// The procedure's identifier.
    pub const ID: u32 = 0x000a_0000;

    /// The procedure's name.
    pub const NAME: &'static str = "frugalos.ctrl.stop";
}

/// Takes a snapshot.
#[derive(Debug, Clone, Copy)]
pub struct TakeSnapshotRpc;

impl TakeSnapshotRpc {
    /// The procedure's identifier.
    pub const ID: u32 = 0x000a_0001;

    /// The procedure's name.
    pub const NAME: &'static str = "frugalos.ctrl.take_snapshot";
}

/// A request about one object.
#[derive(Debug, Clone)]
pub struct ObjectRequest {
    pub bucket_id: BucketId,
    pub object_id: ObjectId,
    pub deadline: Milliseconds,
    pub expect: Expect,
}

/// A request about one version in a segment.
#[derive(Debug, Clone)]
pub struct VersionRequest {
    pub bucket_id: BucketId,
    pub segment: u16,
    pub object_version: ObjectVersion,
    pub deadline: Milliseconds,
}

/// A request about the versions of a segment in `start..end`.
#[derive(Debug)]
pub struct RangeRequest {
    pub bucket_id: BucketId,
    pub segment: u16,
    pub targets: std::ops::Range<ObjectVersion>,
    pub deadline: Milliseconds,
}

/// A request about the objects whose ids start with a prefix.
#[derive(Debug, Clone)]
pub struct PrefixRequest {
    pub bucket_id: BucketId,
    pub prefix: ObjectPrefix,
    pub deadline: Milliseconds,
}

/// A request to store an object.
#[derive(Debug, Clone)]
pub struct PutObjectRequest {
    pub bucket_id: BucketId,
    pub object_id: ObjectId,
    pub content: Vec<u8>,
    pub deadline: Milliseconds,
    pub expect: Expect,
}

/// A request about one segment.
#[derive(Debug, Clone)]
pub struct SegmentRequest {
    pub bucket_id: BucketId,
    pub segment: u16,
}

/// A request about one device.
#[derive(Debug, Clone)]
pub struct DeviceRequest {
    pub device_id: DeviceId,
}

impl RangeRequest {
    /// Whether `version` falls in the targeted range.
    pub fn targets_version(&self, version: ObjectVersion) -> (r: bool)
        ensures
            r == (self.targets.start.0 <= version.0 && version.0 < self.targets.end.0),
    {
        self.targets.start.0 <= version.0 && version.0 < self.targets.end.0
    }
}

/// The remote procedures of the API.
#[derive(Debug, Clone, Copy, PartialEq, Eq, Structural)]
pub enum Procedure {
    GetObject,
    HeadObject,
    PutObject,
    DeleteObject,
    ListObjects,
    GetLatestVersion,
    DeleteObjectByVersion,
    DeleteObjectsByRange,
    DeleteObjectsByPrefix,
    InspectPhysicalDevice,
    Stop,
    TakeSnapshot,
}

/// A binding refused because its identifier or its procedure is bound already.
#[derive(Debug, Clone, Copy, PartialEq, Eq, Structural)]
pub struct ProcedureConflict {
    pub id: u32,
    pub procedure: Procedure,
}

/// No two bindings share an identifier or a procedure.
pub open spec fn bindings_unique(entries: Seq<(u32, Procedure)>) -> bool {
    forall|i: int, j: int|
        0 <= i < entries.len() && 0 <= j < entries.len() && i != j ==> entries[i].0 != entries[j].0
            && entries[i].1 != entries[j].1
}

/// `id` is bound to some procedure.
pub open spec fn id_bound(entries: Seq<(u32, Procedure)>, id: u32) -> bool {
    exists|i: int| 0 <= i < entries.len() && entries[i].0 == id
}

/// `procedure` is bound to some identifier.
pub open spec fn procedure_bound(entries: Seq<(u32, Procedure)>, procedure: Procedure) -> bool {
    exists|i: int| 0 <= i < entries.len() && entries[i].1 == procedure
}

/// A mapping between procedure identifiers and procedures, handed to whatever
/// dispatches calls, in place of identifiers fixed at compile time.
#[derive(Debug, Clone)]
pub struct ProcedureTable {
    entries: Vec<(u32, Procedure)>,
}

impl View for ProcedureTable {
    type V = Seq<(u32, Procedure)>;

    closed spec fn view(&self) -> Seq<(u32, Procedure)> {
        self.entries@
    }
}

impl ProcedureTable {
    /// No two bindings share an identifier or a procedure.
    pub open spec fn wf(&self) -> bool {
        bindings_unique(self@)
    }

    /// A table with no bindings.
    pub fn new() -> (r: ProcedureTable)
        ensures
            r@ == Seq::<(u32, Procedure)>::empty(),
            r.wf(),
    {
        ProcedureTable { entries: Vec::new() }
    }

    /// Binds `id` to `procedure`, unless either is bound already.
    pub fn register(&mut self, id: u32, procedure: Procedure) -> (r: Result<(), ProcedureConflict>)
        requires
            old(self).wf(),
        ensures
            final(self).wf(),
            r is Err <==> id_bound(old(self)@, id) || procedure_bound(old(self)@, procedure),
            r is Ok ==> final(self)@ == old(self)@.push((id, procedure)),
            r is Err ==> final(self)@ == old(self)@ && r == Err::<(), ProcedureConflict>(
                ProcedureConflict { id, procedure },
            ),
    {
        let mut i: usize = 0;
        while i < self.entries.len()
            invariant
                i <= self.entries@.len(),
                self.wf(),
                self@ == old(self)@,
                forall|k: int|
                    0 <= k < i ==> self.entries@[k].0 != id && self.entries@[k].1 != procedure,
            decreases self.entries@.len() - i,
        {
            let (bound_id, bound) = self.entries[i];
            if bound_id == id || bound == procedure {
                return Err(ProcedureConflict { id, procedure });
            }
            i = i + 1;
        }
        self.entries.push((id, procedure));
        Ok(())
    }

    /// The procedure bound to `id`, if any.
    pub fn procedure_of(&self, id: u32) -> (r: Option<Procedure>)
        ensures
            r matches Some(p) ==> self@.contains((id, p)),
            r is None <==> !id_bound(self@, id),
    {
        let mut i: usize = 0;
        while i < self.entries.len()
            invariant
                i <= self.entries@.len(),
                forall|k: int| 0 <= k < i ==> self.entries@[k].0 != id,
            decreases self.entries@.len() - i,
        {
            if self.entries[i].0 == id {
                return Some(self.entries[i].1);
            }
            i = i + 1;
        }
        None
    }

    /// The identifier bound to `procedure`, if any.
    pub fn id_of(&self, procedure: Procedure) -> (r: Option<u32>)
        ensures
            r matches Some(id) ==> self@.contains((id, procedure)),
            r is None <==> !procedure_bound(self@, procedure),
    {
        let mut i: usize = 0;
        while i < self.entries.len()
            invariant
                i <= self.entries@.len(),
                forall|k: int| 0 <= k < i ==> self.entries@[k].1 != procedure,
            decreases self.entries@.len() - i,
        {
            if self.entries[i].1 == procedure {
                return Some(self.entries[i].0);
            }
            i = i + 1;
        }
        None
    }

    /// The table of the public API's identifiers.
    pub fn standard() -> (r: ProcedureTable)
        ensures
            r@ == standard_bindings(),
            r.wf(),
    {
        let mut entries: Vec<(u32, Procedure)> = Vec::new();
        entries.push((GetObjectRpc::ID, Procedure::GetObject));
        entries.push((HeadObjectRpc::ID, Procedure::HeadObject));
        entries.push((PutObjectRpc::ID, Procedure::PutObject));
        entries.push((DeleteObjectRpc::ID, Procedure::DeleteObject));
        entries.push((ListObjectsRpc::ID, Procedure::ListObjects));
        entries.push((GetLatestVersionRpc::ID, Procedure::GetLatestVersion));
        entries.push((DeleteObjectByVersionRpc::ID, Procedure::DeleteObjectByVersion));
        entries.push((DeleteObjectsByRangeRpc::ID, Procedure::DeleteObjectsByRange));
        entries.push((DeleteObjectsByPrefixRpc::ID, Procedure::DeleteObjectsByPrefix));
        entries.push((InspectPhysicalDeviceRpc::ID, Procedure::InspectPhysicalDevice));
        entries.push((StopRpc::ID, Procedure::Stop));
        entries.push((TakeSnapshotRpc::ID, Procedure::TakeSnapshot));
        assert(entries@ =~= standard_bindings());
        ProcedureTable { entries }
    }
}

/// The public API's identifiers.
pub open spec fn standard_bindings() -> Seq<(u32, Procedure)> {
    seq![
        (0x0009_0000u32, Procedure::GetObject),
        (0x0009_0001u32, Procedure::HeadObject),
        (0x0009_0002u32, Procedure::PutObject),
        (0x0009_0003u32, Procedure::DeleteObject),
        (0x0009_0004u32, Procedure::ListObjects),
        (0x0009_0005u32, Procedure::GetLatestVersion),
        (0x0009_0006u32, Procedure::DeleteObjectByVersion),
        (0x0009_0007u32, Procedure::DeleteObjectsByRange),
        (0x0009_0009u32, Procedure::DeleteObjectsByPrefix),
        (0x000b_0001u32, Procedure::InspectPhysicalDevice),
        (0x000a_0000u32, Procedure::Stop),
        (0x000a_0001u32, Procedure::TakeSnapshot),
    ]
}

} // verus!
