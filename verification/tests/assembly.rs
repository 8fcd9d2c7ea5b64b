use garage_door::client::{build_intermediate_map, filter_complete, index_molecules, resolve_molecule_ids};
use garage_door::collection::TorsionDriveResult;
use garage_door::molecule::Molecule;
use garage_door::procedure::{OptimizationRecord, TorsionDriveRecord};
use garage_door::{make_opt_results, make_td_results, ResolveError, Status};

fn entry(record_id: &str, cmiles: &str) -> TorsionDriveResult {
    TorsionDriveResult::new(
        cmiles.to_string(),
        record_id.to_string(),
        cmiles.to_string(),
        format!("{record_id}-inchi"),
    )
}

fn grid_record(id: &str, positions: &[(&str, usize)], history: &[(&str, &[&str])]) -> TorsionDriveRecord {
    TorsionDriveRecord {
        id: id.to_string(),
        initial_molecule: Vec::new(),
        minimum_positions: positions.iter().map(|(l, i)| (l.to_string(), *i)).collect(),
        status: Status::Complete,
        optimization_history: history
            .iter()
            .map(|(l, os)| (l.to_string(), os.iter().map(|o| o.to_string()).collect()))
            .collect(),
    }
}

fn molecule(id: &str, words: &[u64]) -> Molecule {
    Molecule { id: id.to_string(), geometry: words.to_vec() }
}

#[test]
fn geometries_come_in_ascending_label_order() {
    // the grid positions arrive unsorted; the output geometries must
    // follow the integers the labels enclose: -15, 0, 30
    let records = vec![grid_record(
        "td1",
        &[("[30]", 0), ("[-15]", 0), ("[0]", 0)],
        &[("[30]", &["o30"]), ("[-15]", &["o-15"]), ("[0]", &["o0"])],
    )];
    let results = vec![entry("td1", "CC")];
    let molecule_ids = vec![
        (("td1".to_string(), "[30]".to_string()), "m30".to_string()),
        (("td1".to_string(), "[-15]".to_string()), "m-15".to_string()),
        (("td1".to_string(), "[0]".to_string()), "m0".to_string()),
    ];
    let molecules = index_molecules(vec![
        molecule("m30", &[30]),
        molecule("m-15", &[15]),
        molecule("m0", &[0]),
    ]);
    let out = make_td_results(results, records, molecule_ids, molecules).unwrap();
    assert_eq!(out.len(), 1);
    let (id, cmiles, geoms) = &out[0];
    assert_eq!(id, "td1");
    assert_eq!(cmiles, "CC");
    assert_eq!(geoms, &vec![vec![15u64], vec![0u64], vec![30u64]]);
}

#[test]
fn two_grid_records_round_trip() {
    // two grid records, two positions each, through every stage of the
    // multi-stage resolution: the output holds two triples, each with
    // two geometries, labelled from the original entries
    let records = vec![
        grid_record(
            "td1",
            &[("[0]", 0), ("[15]", 1)],
            &[("[0]", &["o1a"]), ("[15]", &["x", "o1b"])],
        ),
        grid_record(
            "td2",
            &[("[0]", 0), ("[15]", 0)],
            &[("[0]", &["o2a"]), ("[15]", &["o2b"])],
        ),
    ];
    let surviving = filter_complete(records);
    let intermediate = build_intermediate_map(&surviving).unwrap();
    assert_eq!(intermediate.len(), 4);

    // the "server" answers the intermediate fetch out of order
    let opt_responses = vec![
        OptimizationRecord {
            id: "o2b".to_string(),
            initial_molecule: String::new(),
            final_molecule: "m2b".to_string(),
            status: Status::Complete,
        },
        OptimizationRecord {
            id: "o1a".to_string(),
            initial_molecule: String::new(),
            final_molecule: "m1a".to_string(),
            status: Status::Complete,
        },
        OptimizationRecord {
            id: "o1b".to_string(),
            initial_molecule: String::new(),
            final_molecule: "m1b".to_string(),
            status: Status::Complete,
        },
        OptimizationRecord {
            id: "o2a".to_string(),
            initial_molecule: String::new(),
            final_molecule: "m2a".to_string(),
            status: Status::Complete,
        },
    ];
    let molecule_ids = resolve_molecule_ids(&intermediate, &opt_responses).unwrap();

    // and the molecule fetch in yet another order
    let molecules = index_molecules(vec![
        molecule("m2a", &[2, 0]),
        molecule("m1b", &[1, 1]),
        molecule("m1a", &[1, 0]),
        molecule("m2b", &[2, 1]),
    ]);
    let results = vec![entry("td1", "CC"), entry("td2", "CO")];

    let mut out = make_td_results(results, surviving, molecule_ids, molecules).unwrap();
    out.sort_by_key(|t| t.0.clone());
    assert_eq!(out.len(), 2);
    assert_eq!(out[0].0, "td1");
    assert_eq!(out[0].1, "CC");
    assert_eq!(out[0].2, vec![vec![1u64, 0], vec![1u64, 1]]);
    assert_eq!(out[1].0, "td2");
    assert_eq!(out[1].1, "CO");
    assert_eq!(out[1].2, vec![vec![2u64, 0], vec![2u64, 1]]);
}

#[test]
fn assembling_fails_on_malformed_label() {
    let records = vec![grid_record("td1", &[("[oops]", 0)], &[("[oops]", &["o1"])])];
    let err = make_td_results(
        vec![entry("td1", "CC")],
        records,
        Vec::new(),
        Vec::new(),
    )
    .unwrap_err();
    assert!(matches!(err, ResolveError::BadGridLabel { .. }));
}

#[test]
fn assembling_fails_on_unclaimed_pair() {
    let records = vec![grid_record("td1", &[("[0]", 0)], &[("[0]", &["o1"])])];
    let err = make_td_results(
        vec![entry("td1", "CC")],
        records,
        Vec::new(),
        Vec::new(),
    )
    .unwrap_err();
    match err {
        ResolveError::MissingMoleculeId { record_id, grid_label } => {
            assert_eq!(record_id, "td1");
            assert_eq!(grid_label, "[0]");
        }
        other => panic!("unexpected error: {other:?}"),
    }
}

#[test]
fn assembling_fails_on_unfetched_molecule() {
    let records = vec![grid_record("td1", &[("[0]", 0)], &[("[0]", &["o1"])])];
    let molecule_ids = vec![(("td1".to_string(), "[0]".to_string()), "m1".to_string())];
    let err = make_td_results(vec![entry("td1", "CC")], records, molecule_ids, Vec::new())
        .unwrap_err();
    match err {
        ResolveError::MissingMolecule { id } => assert_eq!(id, "m1"),
        other => panic!("unexpected error: {other:?}"),
    }
}

#[test]
fn assembling_fails_without_dataset_entry() {
    let records = vec![grid_record("td1", &[("[0]", 0)], &[("[0]", &["o1"])])];
    let molecule_ids = vec![(("td1".to_string(), "[0]".to_string()), "m1".to_string())];
    let molecules = index_molecules(vec![molecule("m1", &[7])]);
    let err = make_td_results(
        vec![entry("someone-else", "CC")],
        records,
        molecule_ids,
        molecules,
    )
    .unwrap_err();
    match err {
        ResolveError::MissingEntry { record_id } => assert_eq!(record_id, "td1"),
        other => panic!("unexpected error: {other:?}"),
    }
}

#[test]
fn duplicate_entries_pick_first_deterministically() {
    // two dataset entries for the same record id with different labels:
    // the first one wins, conflicting labels are never merged
    let records = vec![grid_record("td1", &[("[0]", 0)], &[("[0]", &["o1"])])];
    let molecule_ids = vec![(("td1".to_string(), "[0]".to_string()), "m1".to_string())];
    let molecules = index_molecules(vec![molecule("m1", &[7])]);
    let out = make_td_results(
        vec![entry("td1", "first"), entry("td1", "second")],
        records,
        molecule_ids,
        molecules,
    )
    .unwrap();
    assert_eq!(out[0].1, "first");
}

#[test]
fn three_direct_records_yield_single_geometry_each() {
    let results = vec![entry("opt1", "C"), entry("opt2", "CC"), entry("opt3", "CCC")];
    let molecules = vec![
        molecule("m1", &[1, 2, 3]),
        molecule("m2", &[4, 5, 6]),
        molecule("m3", &[7, 8, 9]),
    ];
    let molecule_ids = vec![
        ("m1".to_string(), "opt1".to_string()),
        ("m2".to_string(), "opt2".to_string()),
        ("m3".to_string(), "opt3".to_string()),
    ];
    let out = make_opt_results(results, molecules, molecule_ids).unwrap();
    assert_eq!(out.len(), 3);
    for (k, (id, cmiles, geoms)) in out.iter().enumerate() {
        assert_eq!(id, &format!("opt{}", k + 1));
        assert_eq!(cmiles.len(), k + 1);
        assert_eq!(geoms.len(), 1);
        assert_eq!(geoms[0].len(), 3);
    }
}

#[test]
fn direct_assembly_fails_on_unclaimed_molecule() {
    let err = make_opt_results(
        vec![entry("opt1", "C")],
        vec![molecule("m-unknown", &[1])],
        Vec::new(),
    )
    .unwrap_err();
    match err {
        ResolveError::MissingMoleculeRecord { molecule_id } => assert_eq!(molecule_id, "m-unknown"),
        other => panic!("unexpected error: {other:?}"),
    }
}
