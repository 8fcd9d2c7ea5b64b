//! Resolution of a named quantum-chemistry dataset into records with
//! geometries.
//!
//! A dataset names a set of records; each record reaches its final
//! geometries through up to two levels of indirection (grid position ->
//! intermediate record -> geometry for torsion drives, or a direct
//! geometry reference for optimizations). This crate holds the logic of
//! that resolution: chunking identifier lists to the server's batch
//! limit, filtering records by completeness, building and consuming the
//! identifier maps that join one stage to the next, and assembling the
//! final (record id, cmiles, geometries) triples. The HTTP transport,
//! the JSON wire formats and the command line live outside the crate
//! and hand plain values in.

use vstd::prelude::*;

pub mod client;
pub mod collection;
pub mod grid;
pub mod molecule;
pub mod procedure;
pub mod table;

verus! {

/// Terminal state of a record on the server. Only complete records take
/// part in resolution; the rest are silently dropped by the
/// completeness filter.
#[derive(Clone, Copy, Debug, PartialEq, Eq, Structural)]
pub enum Status {
    Complete,
    Error,
}

impl Status {
    /// Returns `true` if the status is [`Complete`].
    ///
    /// [`Complete`]: Status::Complete
    #[must_use]
    pub fn is_complete(&self) -> (r: bool)
        ensures
            r == (*self is Complete),
    {
        matches!(self, Status::Complete)
    }
}

/// A fatal condition met while resolving a dataset. Every variant names
/// the identifier that caused it; none is recoverable, the whole run
/// aborts.
#[derive(Debug)]
pub enum ResolveError {
    /// A grid position names a label that the record's history lacks.
    MissingGridLabel { record_id: String, grid_label: String },
    /// A grid position's chosen index falls outside its history entry.
    GridIndexOutOfRange { record_id: String, grid_label: String, index: usize },
    /// Two grid positions resolved to the same intermediate record.
    DuplicateIntermediateId { id: String },
    /// A fetched record's identifier is absent from the map built from
    /// the prior stage.
    UnknownIntermediateId { id: String },
    /// A grid label does not enclose an integer in brackets.
    BadGridLabel { label: String },
    /// No molecule identifier was resolved for this (record, grid
    /// label) pair.
    MissingMoleculeId { record_id: String, grid_label: String },
    /// No molecule with this identifier was fetched.
    MissingMolecule { id: String },
    /// No direct-map entry claims this molecule.
    MissingMoleculeRecord { molecule_id: String },
    /// No dataset entry carries this record identifier.
    MissingEntry { record_id: String },
}

/// The cmiles of the first dataset entry carrying record id `id`.
pub open spec fn cmiles_lookup(results: Seq<collection::TorsionDriveResult>, id: Seq<char>) -> Option<
    String,
>
    decreases results.len(),
{
    if results.len() == 0 {
        None
    } else if results[0].record_id@ == id {
        Some(results[0].attributes.canonical_isomeric_explicit_hydrogen_mapped_smiles)
    } else {
        cmiles_lookup(results.drop_first(), id)
    }
}

/// A cmiles lookup passes over a prefix in which no entry matches.
proof fn lemma_cmiles_skip(results: Seq<collection::TorsionDriveResult>, id: Seq<char>, i: int)
    requires
        0 <= i <= results.len(),
        forall|j: int| 0 <= j < i ==> (#[trigger] results[j]).record_id@ != id,
    ensures
        cmiles_lookup(results, id) == cmiles_lookup(results.skip(i), id),
    decreases i,
{
    if i > 0 {
        lemma_cmiles_skip(results, id, i - 1);
        assert(results.skip(i - 1)[0] == results[i - 1]);
        assert(results.skip(i - 1).drop_first() =~= results.skip(i));
    } else {
        assert(results.skip(0) =~= results);
    }
}

/// The cmiles of the first dataset entry carrying `*id`, if any.
fn find_cmiles<'a>(results: &'a Vec<collection::TorsionDriveResult>, id: &String) -> (r: Option<
    &'a String,
>)
    ensures
        match r {
            Some(c) => cmiles_lookup(results@, id@) == Some(*c),
            None => cmiles_lookup(results@, id@) is None,
        },
{
    let mut i: usize = 0;
    while i < results.len()
        invariant
            0 <= i <= results@.len(),
            forall|j: int| 0 <= j < i ==> (#[trigger] results@[j]).record_id@ != id@,
        decreases results@.len() - i,
    {
        if results[i].record_id == *id {
            proof {
                lemma_cmiles_skip(results@, id@, i as int);
                assert(results@.skip(i as int)[0] == results@[i as int]);
            }
            return Some(&results[i].attributes.canonical_isomeric_explicit_hydrogen_mapped_smiles);
        }
        i += 1;
    }
    proof {
        lemma_cmiles_skip(results@, id@, results@.len() as int);
        assert(results@.skip(results@.len() as int)
            =~= Seq::<collection::TorsionDriveResult>::empty());
    }
    None
}

/// The coordinate words of the molecule a (record, grid label) pair
/// resolves to, through the composite-key map and the molecule table.
pub open spec fn geometry_for(
    molecule_ids: Seq<((String, String), String)>,
    molecules: Seq<(String, molecule::Molecule)>,
    record_id: String,
    label: String,
) -> Option<Seq<u64>> {
    match table::lookup_pair(molecule_ids, record_id@, label@) {
        Some(mol_id) => match table::lookup(molecules, mol_id@) {
            Some(m) => Some(m.geometry@),
            None => None,
        },
        None => None,
    }
}

/// Every lookup the assembler makes for this grid record succeeds: its
/// labels enclose machine-sized integers, every (record, label) pair
/// reaches a fetched molecule, and a dataset entry carries its cmiles.
pub open spec fn td_record_resolvable(
    results: Seq<collection::TorsionDriveResult>,
    molecule_ids: Seq<((String, String), String)>,
    molecules: Seq<(String, molecule::Molecule)>,
    rec: procedure::TorsionDriveRecord,
) -> bool {
    &&& forall|i: int|
        0 <= i < rec.minimum_positions@.len() ==> grid::label_fits(
            (#[trigger] rec.minimum_positions@[i]).0@,
        )
    &&& forall|i: int|
        0 <= i < rec.minimum_positions@.len() ==> geometry_for(
            molecule_ids,
            molecules,
            rec.id,
            (#[trigger] rec.minimum_positions@[i]).0,
        ) is Some
    &&& cmiles_lookup(results, rec.id@) is Some
}

/// One output triple correctly assembled for `rec`: its id, its cmiles
/// from the dataset entries, and its geometries in ascending grid-label
/// order.
pub open spec fn td_entry_ok(
    results: Seq<collection::TorsionDriveResult>,
    molecule_ids: Seq<((String, String), String)>,
    molecules: Seq<(String, molecule::Molecule)>,
    rec: procedure::TorsionDriveRecord,
    entry: (String, String, Vec<Vec<u64>>),
) -> bool {
    &&& entry.0 == rec.id
    &&& cmiles_lookup(results, rec.id@) == Some(entry.1)
    &&& exists|ls: Seq<String>|
        {
            &&& ls.to_multiset() == grid::labels_of(rec.minimum_positions@).to_multiset()
            &&& grid::sorted_labels(ls)
            &&& entry.2@.len() == ls.len()
            &&& forall|j: int|
                0 <= j < ls.len() ==> geometry_for(molecule_ids, molecules, rec.id, ls[j]) == Some(
                    (#[trigger] entry.2@[j])@,
                )
        }
}

/// constructs the final output: one (record_id, cmiles, geometries)
/// triple per grid record, the geometries of each record in ascending
/// order of the integer its grid label encloses. There may be more
/// dataset entries than records; only the entries the records name are
/// read. Any failed lookup is fatal: a missing label, composite key,
/// molecule or entry means the stages disagree, and nothing is
/// silently skipped.
#[verifier::loop_isolation(false)]
pub fn make_td_results(
    results: Vec<collection::TorsionDriveResult>,
    records: Vec<procedure::TorsionDriveRecord>,
    molecule_ids: Vec<((String, String), String)>,
    molecules: Vec<(String, molecule::Molecule)>,
) -> (r: Result<Vec<(String, String, Vec<Vec<u64>>)>, ResolveError>)
    ensures
        r is Ok <==> (forall|k: int|
            0 <= k < records@.len() ==> td_record_resolvable(
                results@,
                molecule_ids@,
                molecules@,
                #[trigger] records@[k],
            )),
        r matches Ok(v) ==> v@.len() == records@.len() && (forall|k: int|
            0 <= k < records@.len() ==> td_entry_ok(
                results@,
                molecule_ids@,
                molecules@,
                #[trigger] records@[k],
                v@[k],
            )),
        r matches Err(e) ==> match e {
            ResolveError::BadGridLabel { label } => !grid::label_fits(label@),
            ResolveError::MissingMoleculeId { record_id, grid_label } => table::lookup_pair(
                molecule_ids@,
                record_id@,
                grid_label@,
            ) is None,
            ResolveError::MissingMolecule { id } => table::lookup(molecules@, id@) is None,
            ResolveError::MissingEntry { record_id } => cmiles_lookup(results@, record_id@)
                is None,
            _ => false,
        },
{
    broadcast use vstd::seq_lib::group_to_multiset_ensures;

    let mut out: Vec<(String, String, Vec<Vec<u64>>)> = Vec::new();
    let mut k: usize = 0;
    while k < records.len()
        invariant
            0 <= k <= records@.len(),
            out@.len() == k,
            forall|t: int|
                0 <= t < k ==> td_record_resolvable(
                    results@,
                    molecule_ids@,
                    molecules@,
                    #[trigger] records@[t],
                ),
            forall|t: int|
                0 <= t < k ==> td_entry_ok(
                    results@,
                    molecule_ids@,
                    molecules@,
                    #[trigger] records@[t],
                    out@[t],
                ),
        decreases records@.len() - k,
    {
        let rec = &records[k];
        let ls = match grid::sorted_grid_labels(&rec.minimum_positions) {
            Ok(ls) => ls,
            Err(e) => {
                return Err(e);
            },
        };
        let mut geoms: Vec<Vec<u64>> = Vec::new();
        let mut j: usize = 0;
        while j < ls.len()
            invariant
                0 <= j <= ls@.len(),
                geoms@.len() == j,
                k < records@.len(),
                ls@.to_multiset() == grid::labels_of(records@[k as int].minimum_positions@)
                    .to_multiset(),
                grid::sorted_labels(ls@),
                forall|t: int|
                    0 <= t < j ==> geometry_for(
                        molecule_ids@,
                        molecules@,
                        records@[k as int].id,
                        ls@[t],
                    ) == Some((#[trigger] geoms@[t])@),
            decreases ls@.len() - j,
        {
            let label = &ls[j];
            let mol_id = match table::get_pair(&molecule_ids, &rec.id, label) {
                Some(mol_id) => mol_id,
                None => {
                    proof {
                        lemma_label_in_positions(ls@, records@[k as int].minimum_positions@, j as int);
                    }
                    return Err(
                        ResolveError::MissingMoleculeId {
                            record_id: rec.id.clone(),
                            grid_label: label.clone(),
                        },
                    );
                },
            };
            let mol = match table::get(&molecules, mol_id) {
                Some(mol) => mol,
                None => {
                    proof {
                        lemma_label_in_positions(ls@, records@[k as int].minimum_positions@, j as int);
                    }
                    return Err(ResolveError::MissingMolecule { id: mol_id.clone() });
                },
            };
            geoms.push(mol.geometry.clone());
            j += 1;
        }
        let cmiles = match find_cmiles(&results, &rec.id) {
            Some(c) => c.clone(),
            None => {
                return Err(ResolveError::MissingEntry { record_id: rec.id.clone() });
            },
        };
        proof {
            assert forall|i: int|
                0 <= i < records@[k as int].minimum_positions@.len() implies {
                &&& grid::label_fits((#[trigger] records@[k as int].minimum_positions@[i]).0@)
                &&& geometry_for(
                    molecule_ids@,
                    molecules@,
                    records@[k as int].id,
                    records@[k as int].minimum_positions@[i].0,
                ) is Some
            } by {
                let label = records@[k as int].minimum_positions@[i].0;
                assert(grid::labels_of(records@[k as int].minimum_positions@)[i] == label);
                assert(grid::labels_of(records@[k as int].minimum_positions@).contains(label));
                assert(ls@.to_multiset().count(label) > 0);
                assert(ls@.contains(label));
                let t = choose|t: int| 0 <= t < ls@.len() && ls@[t] == label;
                assert(grid::label_fits(ls@[t]@));
                assert(geometry_for(molecule_ids@, molecules@, records@[k as int].id, ls@[t])
                    == Some(geoms@[t]@));
            }
        }
        let entry = (rec.id.clone(), cmiles, geoms);
        proof {
            assert(td_entry_ok(
                results@,
                molecule_ids@,
                molecules@,
                records@[k as int],
                entry,
            )) by {
                assert(entry.2@.len() == ls@.len());
                assert(ls@.to_multiset() == grid::labels_of(
                    records@[k as int].minimum_positions@,
                ).to_multiset() && grid::sorted_labels(ls@) && entry.2@.len() == ls@.len() && (
                forall|j: int|
                    0 <= j < ls@.len() ==> geometry_for(
                        molecule_ids@,
                        molecules@,
                        records@[k as int].id,
                        ls@[j],
                    ) == Some((#[trigger] entry.2@[j])@)));
            }
        }
        out.push(entry);
        k += 1;
    }
    Ok(out)
}

/// A label of the sorted list names a grid position of the record it
/// was sorted from.
proof fn lemma_label_in_positions(ls: Seq<String>, positions: Seq<(String, usize)>, j: int)
    requires
        0 <= j < ls.len(),
        ls.to_multiset() == grid::labels_of(positions).to_multiset(),
    ensures
        exists|i: int| 0 <= i < positions.len() && (#[trigger] positions[i]).0 == ls[j],
{
    broadcast use vstd::seq_lib::group_to_multiset_ensures;

    assert(ls.contains(ls[j]));
    assert(grid::labels_of(positions).to_multiset().count(ls[j]) > 0);
    assert(grid::labels_of(positions).contains(ls[j]));
    let i = choose|i: int| 0 <= i < grid::labels_of(positions).len() && grid::labels_of(positions)[i]
        == ls[j];
    assert(positions[i].0 == ls[j]);
}

/// Every lookup the assembler makes for this molecule succeeds: the
/// direct map claims it for a record, and a dataset entry carries that
/// record's cmiles.
pub open spec fn opt_record_resolvable(
    results: Seq<collection::TorsionDriveResult>,
    molecule_ids: Seq<(String, String)>,
    m: molecule::Molecule,
) -> bool {
    match table::lookup(molecule_ids, m.id@) {
        Some(record_id) => cmiles_lookup(results, record_id@) is Some,
        None => false,
    }
}

/// Like [make_td_results] but for the single-stage kind, without the
/// grid bookkeeping: each molecule is claimed by its record through
/// the direct map and yields one (record_id, cmiles, geometries)
/// triple whose geometry list holds exactly that one molecule.
#[verifier::loop_isolation(false)]
pub fn make_opt_results(
    results: Vec<collection::TorsionDriveResult>,
    records: Vec<molecule::Molecule>,
    molecule_ids: Vec<(String, String)>,
) -> (r: Result<Vec<(String, String, Vec<Vec<u64>>)>, ResolveError>)
    ensures
        r is Ok <==> (forall|k: int|
            0 <= k < records@.len() ==> opt_record_resolvable(
                results@,
                molecule_ids@,
                #[trigger] records@[k],
            )),
        r matches Ok(v) ==> v@.len() == records@.len() && (forall|k: int|
            {
                &&& 0 <= k < records@.len() ==> table::lookup(
                    molecule_ids@,
                    (#[trigger] records@[k]).id@,
                ) == Some(v@[k].0)
                &&& 0 <= k < records@.len() ==> cmiles_lookup(results@, v@[k].0@) == Some(v@[k].1)
                &&& 0 <= k < records@.len() ==> v@[k].2@.len() == 1 && v@[k].2@[0]
                    == records@[k].geometry
            }),
        r matches Err(e) ==> match e {
            ResolveError::MissingMoleculeRecord { molecule_id } => table::lookup(
                molecule_ids@,
                molecule_id@,
            ) is None,
            ResolveError::MissingEntry { record_id } => cmiles_lookup(results@, record_id@)
                is None,
            _ => false,
        },
{
    let ghost records0 = records@;
    let mut data = records;
    let mut out: Vec<(String, String, Vec<Vec<u64>>)> = Vec::new();
    while data.len() > 0
        invariant
            out@.len() + data@.len() == records0.len(),
            data@ =~= records0.skip(out@.len() as int),
            forall|t: int|
                0 <= t < out@.len() ==> opt_record_resolvable(
                    results@,
                    molecule_ids@,
                    #[trigger] records0[t],
                ),
            forall|t: int|
                0 <= t < out@.len() ==> table::lookup(molecule_ids@, (#[trigger] records0[t]).id@)
                    == Some(out@[t].0),
            forall|t: int|
                0 <= t < out@.len() ==> cmiles_lookup(results@, (#[trigger] out@[t]).0@) == Some(
                    out@[t].1,
                ),
            forall|t: int|
                0 <= t < out@.len() ==> (#[trigger] out@[t]).2@.len() == 1 && out@[t].2@[0]
                    == records0[t].geometry,
        decreases data@.len(),
    {
        let ghost before = data@;
        let m = data.remove(0);
        proof {
            assert(before[0] == records0[out@.len() as int]);
            assert(before.drop_first() =~= records0.skip(out@.len() + 1 as int));
        }
        let record_id = match table::get(&molecule_ids, &m.id) {
            Some(record_id) => record_id.clone(),
            None => {
                return Err(ResolveError::MissingMoleculeRecord { molecule_id: m.id.clone() });
            },
        };
        let cmiles = match find_cmiles(&results, &record_id) {
            Some(c) => c.clone(),
            None => {
                return Err(ResolveError::MissingEntry { record_id });
            },
        };
        out.push((record_id, cmiles, vec![m.geometry]));
    }
    Ok(out)
}

} // verus!
