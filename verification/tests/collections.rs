use garage_door::client::Body;
use garage_door::collection::{
    CollectionGetBody, CollectionGetResponse, CollectionType, DataSet, TorsionDriveResult,
};
use garage_door::molecule::MoleculeGetBody;
use garage_door::procedure::{OptimizationRecord, ProcedureGetBody, Response};
use garage_door::Status;

fn entry(record_id: &str, cmiles: &str) -> TorsionDriveResult {
    TorsionDriveResult::new(
        cmiles.to_string(),
        record_id.to_string(),
        cmiles.to_string(),
        "inchi".to_string(),
    )
}

#[test]
fn collection_type_names() {
    assert_eq!(CollectionType::TorsionDrive.collection_name(), "torsiondrivedataset");
    assert_eq!(CollectionType::Optimization.collection_name(), "optimization");
}

#[test]
fn collection_type_from_str() {
    assert!(matches!(
        CollectionType::from_str(&"TorsionDrive".to_string()),
        Ok(CollectionType::TorsionDrive)
    ));
    assert!(matches!(
        CollectionType::from_str(&"Optimization".to_string()),
        Ok(CollectionType::Optimization)
    ));
    assert_eq!(
        CollectionType::from_str(&"SinglePoint".to_string()),
        Err("SinglePoint".to_string())
    );
}

#[test]
fn collection_body_carries_type_and_name() {
    let body = CollectionGetBody::new(CollectionType::TorsionDrive, "my dataset".to_string());
    assert_eq!(body.data.collection, "torsiondrivedataset");
    assert_eq!(body.data.name, "my dataset");
    assert!(body.meta.included.is_none());
    assert!(body.meta.excluded.is_none());
}

#[test]
fn entry_getters() {
    let e = entry("rec-7", "CCO");
    assert_eq!(e.record_id(), "rec-7");
    assert_eq!(e.cmiles(), "CCO");
    assert_eq!(e.inchi_key(), "inchi");
    assert_eq!(e.name, "CCO");
}

#[test]
fn response_ids_cross_datasets() {
    let response = CollectionGetResponse {
        data: vec![
            DataSet {
                id: "1".to_string(),
                collection: "torsiondrivedataset".to_string(),
                name: "ds1".to_string(),
                records: vec![entry("a", "C"), entry("b", "CC")],
            },
            DataSet {
                id: "2".to_string(),
                collection: "torsiondrivedataset".to_string(),
                name: "ds2".to_string(),
                records: vec![entry("c", "CCC")],
            },
        ],
    };
    assert_eq!(response.ids(), vec!["a".to_string(), "b".to_string(), "c".to_string()]);
    let entries = response.into_entries();
    let ids: Vec<&String> = entries.iter().map(|e| &e.record_id).collect();
    assert_eq!(ids, vec!["a", "b", "c"]);
}

#[test]
fn response_ids_deduplicate_first_wins() {
    // the same record id referenced by two entries is queried once,
    // keeping its position of first appearance
    let response = CollectionGetResponse {
        data: vec![
            DataSet {
                id: "1".to_string(),
                collection: "torsiondrivedataset".to_string(),
                name: "ds1".to_string(),
                records: vec![entry("a", "C"), entry("b", "CC"), entry("a", "C")],
            },
            DataSet {
                id: "2".to_string(),
                collection: "torsiondrivedataset".to_string(),
                name: "ds2".to_string(),
                records: vec![entry("b", "CC"), entry("c", "CCC")],
            },
        ],
    };
    assert_eq!(response.ids(), vec!["a".to_string(), "b".to_string(), "c".to_string()]);
}

#[test]
fn procedure_body_defaults_to_complete() {
    let body = ProcedureGetBody::new(vec!["x".to_string(), "y".to_string()]);
    assert_eq!(body.data.id, vec!["x".to_string(), "y".to_string()]);
    assert!(matches!(body.data.status, Status::Complete));
    assert!(body.meta.limit.is_none());
    assert_eq!(body.meta.skip, 0);
}

#[test]
fn molecule_body_holds_ids() {
    let body = MoleculeGetBody::new(vec!["m1".to_string()]);
    assert_eq!(body.data, vec!["m1".to_string()]);
}

#[test]
fn final_molecules_in_record_order() {
    let response = Response {
        data: vec![
            OptimizationRecord {
                id: "o1".to_string(),
                initial_molecule: String::new(),
                final_molecule: "m1".to_string(),
                status: Status::Complete,
            },
            OptimizationRecord {
                id: "o2".to_string(),
                initial_molecule: String::new(),
                final_molecule: "m2".to_string(),
                status: Status::Complete,
            },
        ],
    };
    assert_eq!(response.final_molecules(), vec!["m1".to_string(), "m2".to_string()]);
    assert_eq!(response.into_final_molecules(), vec!["m1".to_string(), "m2".to_string()]);
}

#[test]
fn status_is_complete() {
    assert!(Status::Complete.is_complete());
    assert!(!Status::Error.is_complete());
}
