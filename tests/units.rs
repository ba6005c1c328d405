use libfrugalos::deadline::{decode_deadline, encode_deadline};
use libfrugalos::object::{same_content, ObjectVersion};
use libfrugalos::schema::{
    DeleteObjectsByRangeRpc, GetObjectRpc, Procedure, ProcedureConflict, ProcedureTable,
    RangeRequest, StopRpc,
};
use libfrugalos::time::{Milliseconds, Seconds};

#[test]
fn seconds_to_millis() {
    assert_eq!(Seconds(3).to_millis(), Some(Milliseconds(3000)));
    assert_eq!(Seconds(u64::MAX).to_millis(), None);
    assert_eq!(Milliseconds(2500).to_seconds(), Seconds(2));
    assert_eq!(Milliseconds(999).to_seconds(), Seconds(0));
    assert!(Milliseconds(1).is_positive());
    assert!(!Milliseconds(0).is_positive());
}

#[test]
fn deadline_wire_form_is_millis() {
    assert_eq!(encode_deadline(Milliseconds(1500)), 1500);
    assert_eq!(decode_deadline(1500), Ok(Milliseconds(1500)));
}

#[test]
fn procedure_identifiers() {
    assert_eq!(GetObjectRpc::ID, 0x0009_0000);
    assert_eq!(GetObjectRpc::NAME, "frugalos.object.get");
    assert_eq!(DeleteObjectsByRangeRpc::ID, 0x0009_0007);
    assert_eq!(StopRpc::NAME, "frugalos.ctrl.stop");
}

#[test]
fn range_request_targets() {
    let req = RangeRequest {
        bucket_id: "b".to_owned(),
        segment: 1,
        targets: ObjectVersion(3)..ObjectVersion(6),
        deadline: Milliseconds(100),
    };
    assert!(!req.targets_version(ObjectVersion(2)));
    assert!(req.targets_version(ObjectVersion(3)));
    assert!(req.targets_version(ObjectVersion(5)));
    assert!(!req.targets_version(ObjectVersion(6)));
}

#[test]
fn payload_comparison() {
    assert!(same_content(&vec![1, 2, 3], &vec![1, 2, 3]));
    assert!(!same_content(&vec![1, 2, 3], &vec![1, 2, 4]));
    assert!(!same_content(&vec![1, 2], &vec![1, 2, 3]));
    assert!(same_content(&vec![], &vec![]));
}

#[test]
fn standard_procedure_table() {
    let table = ProcedureTable::standard();
    assert_eq!(table.procedure_of(0x0009_0000), Some(Procedure::GetObject));
    assert_eq!(table.procedure_of(0x0009_0009), Some(Procedure::DeleteObjectsByPrefix));
    assert_eq!(table.procedure_of(0x0009_0008), None);
    assert_eq!(table.id_of(Procedure::TakeSnapshot), Some(0x000a_0001));
    assert_eq!(table.id_of(Procedure::InspectPhysicalDevice), Some(0x000b_0001));
}

#[test]
fn procedure_table_rejects_conflicts() {
    let mut table = ProcedureTable::new();
    assert_eq!(table.register(7, Procedure::Stop), Ok(()));
    assert_eq!(
        table.register(7, Procedure::PutObject),
        Err(ProcedureConflict { id: 7, procedure: Procedure::PutObject })
    );
    assert_eq!(
        table.register(8, Procedure::Stop),
        Err(ProcedureConflict { id: 8, procedure: Procedure::Stop })
    );
    assert_eq!(table.register(8, Procedure::PutObject), Ok(()));
    assert_eq!(table.procedure_of(8), Some(Procedure::PutObject));
    assert_eq!(table.id_of(Procedure::Stop), Some(7));
    assert_eq!(table.id_of(Procedure::GetObject), None);
}
