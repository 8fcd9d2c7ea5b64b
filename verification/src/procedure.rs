//! Procedure records: torsion drives and the optimizations they point
//! at.
//!
//! A torsion drive record reaches each of its geometries through two
//! maps: `minimum_positions` chooses, per grid label, an index into
//! `optimization_history`'s list of optimization identifiers for that
//! label. The record invariant — every position's label present in the
//! history, every index within range — is the server's to keep; this
//! module checks it and fails loudly where it is broken.

use vstd::prelude::*;

use crate::client::Body;
use crate::table;
use crate::{ResolveError, Status};

verus! {

/// Pagination and filter meta of a procedure request; this pipeline
/// only ever asks for complete records, unpaginated.
pub struct QueryFilter {
    pub included: Option<usize>,
    pub excluded: Option<usize>,
    pub limit: Option<usize>,
    pub skip: usize,
}

/// Payload of a procedure request: which records, by identifier.
pub struct Data {
    pub id: Vec<String>,
    pub task_id: Option<usize>,
    pub procedure: Option<usize>,
    pub program: Option<usize>,
    pub hash_index: Option<usize>,
    pub status: Status,
}

/// Body of the request that fetches a batch of procedure records by
/// identifier.
pub struct ProcedureGetBody {
    pub meta: QueryFilter,
    pub data: Data,
}

impl Body for ProcedureGetBody {
    open spec fn ids_view(&self) -> Seq<String> {
        self.data.id@
    }

    fn new(id: Vec<String>) -> (r: Self)
        ensures
            r.data.status is Complete,
            r.data.task_id is None,
            r.data.procedure is None,
            r.data.program is None,
            r.data.hash_index is None,
            r.meta.included is None,
            r.meta.excluded is None,
            r.meta.limit is None,
            r.meta.skip == 0,
    {
        Self {
            meta: QueryFilter { included: None, excluded: None, limit: None, skip: 0 },
            data: Data {
                id,
                task_id: None,
                procedure: None,
                program: None,
                hash_index: None,
                status: Status::Complete,
            },
        }
    }
}

/// A torsion drive: one record of the multi-stage dataset kind.
pub struct TorsionDriveRecord {
    pub id: String,
    pub initial_molecule: Vec<String>,
    /// Per grid label, the index of the chosen entry in that label's
    /// history.
    pub minimum_positions: Vec<(String, usize)>,
    pub status: Status,
    /// Per grid label, the optimization identifiers recorded for that
    /// grid point, in order.
    pub optimization_history: Vec<(String, Vec<String>)>,
}

impl TorsionDriveRecord {
    /// Position `i` names a label its history has, with an index in
    /// range.
    pub open spec fn position_valid(&self, i: int) -> bool {
        let (label, idx) = self.minimum_positions@[i];
        match table::lookup(self.optimization_history@, label@) {
            Some(hist) => idx < hist@.len(),
            None => false,
        }
    }

    /// Every grid position of the record is valid.
    pub open spec fn positions_valid(&self) -> bool {
        forall|i: int| 0 <= i < self.minimum_positions@.len() ==> self.position_valid(i)
    }

    /// The optimization identifier position `i` chooses (arbitrary
    /// where the position is not valid).
    pub open spec fn position_opt_id(&self, i: int) -> String {
        let (label, idx) = self.minimum_positions@[i];
        table::lookup(self.optimization_history@, label@)->Some_0@[idx as int]
    }

    /// The optimization identifiers of all positions, in position
    /// order.
    pub open spec fn opt_ids(&self) -> Seq<String> {
        Seq::new(self.minimum_positions@.len(), |i: int| self.position_opt_id(i))
    }

    /// The (optimization id, (record id, grid label)) pairs of all
    /// positions, in position order.
    pub open spec fn opt_pairs(&self) -> Seq<(String, (String, String))> {
        Seq::new(
            self.minimum_positions@.len(),
            |i: int| (self.position_opt_id(i), (self.id, self.minimum_positions@[i].0)),
        )
    }

    /// return the optimization_id -> (record_id, grid_id) pairs in
    /// self.optimization_history. the keys are the ids of the
    /// optimization records associated with each point along the
    /// torsion drive. Fails where a position names a label the history
    /// lacks, or an index out of range: that breaks the record
    /// invariant the server owes, and is never skipped.
    #[verifier::loop_isolation(false)]
    pub fn optimizations(&self) -> (r: Result<Vec<(String, (String, String))>, ResolveError>)
        ensures
            r is Ok <==> self.positions_valid(),
            r matches Ok(v) ==> v@ == self.opt_pairs(),
            r matches Err(e) ==> match e {
                ResolveError::MissingGridLabel { record_id, grid_label } => {
                    &&& record_id == self.id
                    &&& table::lookup(self.optimization_history@, grid_label@) is None
                    &&& crate::grid::labels_of(self.minimum_positions@).contains(grid_label)
                },
                ResolveError::GridIndexOutOfRange { record_id, grid_label, index } => {
                    &&& record_id == self.id
                    &&& match table::lookup(self.optimization_history@, grid_label@) {
                        Some(hist) => index >= hist@.len(),
                        None => false,
                    }
                    &&& self.minimum_positions@.contains((grid_label, index))
                },
                _ => false,
            },
    {
        let mut out: Vec<(String, (String, String))> = Vec::new();
        let mut i: usize = 0;
        while i < self.minimum_positions.len()
            invariant
                0 <= i <= self.minimum_positions@.len(),
                out@.len() == i,
                forall|j: int| 0 <= j < i ==> self.position_valid(j),
                forall|j: int| 0 <= j < i ==> out@[j] == self.opt_pairs()[j],
            decreases self.minimum_positions@.len() - i,
        {
            let label = &self.minimum_positions[i].0;
            let idx = self.minimum_positions[i].1;
            match table::get(&self.optimization_history, label) {
                None => {
                    proof {
                        assert(crate::grid::labels_of(self.minimum_positions@)[i as int]
                            == self.minimum_positions@[i as int].0);
                        assert(!self.position_valid(i as int));
                        assert(!self.positions_valid());
                    }
                    return Err(
                        ResolveError::MissingGridLabel {
                            record_id: self.id.clone(),
                            grid_label: label.clone(),
                        },
                    );
                },
                Some(hist) => {
                    if idx >= hist.len() {
                        proof {
                            assert(self.minimum_positions@[i as int] == (
                            self.minimum_positions@[i as int].0,
                            self.minimum_positions@[i as int].1,
                            ));
                            assert(!self.position_valid(i as int));
                            assert(!self.positions_valid());
                        }
                        return Err(
                            ResolveError::GridIndexOutOfRange {
                                record_id: self.id.clone(),
                                grid_label: label.clone(),
                                index: idx,
                            },
                        );
                    }
                    out.push((hist[idx].clone(), (self.id.clone(), label.clone())));
                },
            }
            i += 1;
        }
        Ok(out)
    }
}

/// An optimization: the single-stage record kind, pointing straight at
/// its final molecule.
pub struct OptimizationRecord {
    pub id: String,
    pub initial_molecule: String,
    pub final_molecule: String,
    pub status: Status,
}

/// Response to a procedure or molecule request: the records the server
/// returned for the requested identifiers.
pub struct Response<T> {
    pub data: Vec<T>,
}

impl Response<TorsionDriveRecord> {
    /// The optimization identifiers chosen by every record's grid
    /// positions, record by record. Fails on the first record whose
    /// positions break the record invariant.
    #[verifier::loop_isolation(false)]
    pub fn optimization_ids(&self) -> (r: Result<Vec<String>, ResolveError>)
        ensures
            r is Ok <==> (forall|i: int|
                0 <= i < self.data@.len() ==> (#[trigger] self.data@[i]).positions_valid()),
            r matches Ok(v) ==> v@ == self.data@.map_values(
                |rec: TorsionDriveRecord| rec.opt_ids(),
            ).flatten(),
    {
        broadcast use Seq::lemma_flatten_push;

        let mut out: Vec<String> = Vec::new();
        let mut i: usize = 0;
        while i < self.data.len()
            invariant
                0 <= i <= self.data@.len(),
                forall|j: int| 0 <= j < i ==> (#[trigger] self.data@[j]).positions_valid(),
                out@ == self.data@.take(i as int).map_values(
                    |rec: TorsionDriveRecord| rec.opt_ids(),
                ).flatten(),
            decreases self.data@.len() - i,
        {
            let rec = &self.data[i];
            let pairs = match rec.optimizations() {
                Ok(pairs) => pairs,
                Err(e) => {
                    return Err(e);
                },
            };
            let mut k: usize = 0;
            while k < pairs.len()
                invariant
                    0 <= k <= pairs@.len(),
                    pairs@ == self.data@[i as int].opt_pairs(),
                    i < self.data@.len(),
                    out@ == self.data@.take(i as int).map_values(
                        |rec: TorsionDriveRecord| rec.opt_ids(),
                    ).flatten() + self.data@[i as int].opt_ids().take(k as int),
                decreases pairs@.len() - k,
            {
                proof {
                    assert(self.data@[i as int].opt_ids().take(k + 1 as int)
                        =~= self.data@[i as int].opt_ids().take(k as int).push(
                        self.data@[i as int].opt_ids()[k as int],
                    ));
                }
                out.push(pairs[k].0.clone());
                k += 1;
            }
            proof {
                let f = |rec: TorsionDriveRecord| rec.opt_ids();
                assert(self.data@.take(i + 1 as int).map_values(f) =~= self.data@.take(
                    i as int,
                ).map_values(f).push(self.data@[i as int].opt_ids()));
                assert(self.data@[i as int].opt_ids().take(
                    self.data@[i as int].opt_ids().len() as int,
                ) =~= self.data@[i as int].opt_ids());
            }
            i += 1;
        }
        proof {
            assert(self.data@.take(self.data@.len() as int) =~= self.data@);
        }
        Ok(out)
    }
}

impl Response<OptimizationRecord> {
    /// The final molecule identifier of every record, in record order,
    /// consuming the response.
    #[verifier::loop_isolation(false)]
    pub fn into_final_molecules(self) -> (r: Vec<String>)
        ensures
            r@ == self.data@.map_values(|rec: OptimizationRecord| rec.final_molecule),
    {
        let Response { data: mut data } = self;
        let ghost data0 = data@;
        let mut out: Vec<String> = Vec::new();
        while data.len() > 0
            invariant
                out@.len() + data@.len() == data0.len(),
                data@ =~= data0.skip(out@.len() as int),
                forall|j: int| 0 <= j < out@.len() ==> out@[j] == data0[j].final_molecule,
            decreases data@.len(),
        {
            let ghost before = data@;
            let rec = data.remove(0);
            proof {
                assert(before[0] == data0[out@.len() as int]);
                assert(before.drop_first() =~= data0.skip(out@.len() + 1 as int));
            }
            out.push(rec.final_molecule);
        }
        proof {
            assert(out@ =~= data0.map_values(|rec: OptimizationRecord| rec.final_molecule));
        }
        out
    }

    /// The final molecule identifier of every record, in record order.
    #[verifier::loop_isolation(false)]
    pub fn final_molecules(&self) -> (r: Vec<String>)
        ensures
            r@ == self.data@.map_values(|rec: OptimizationRecord| rec.final_molecule),
    {
        let mut out: Vec<String> = Vec::new();
        let mut i: usize = 0;
        while i < self.data.len()
            invariant
                0 <= i <= self.data@.len(),
                out@.len() == i,
                forall|j: int| 0 <= j < i ==> out@[j] == self.data@[j].final_molecule,
            decreases self.data@.len() - i,
        {
            out.push(self.data[i].final_molecule.clone());
            i += 1;
        }
        proof {
            assert(out@ =~= self.data@.map_values(|rec: OptimizationRecord| rec.final_molecule));
        }
        out
    }
}

} // verus!
