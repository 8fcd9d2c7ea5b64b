//! Dataset collections.
//!
//! A collection request names a dataset by kind and name; the response
//! carries the dataset's entries, each tying a record identifier to
//! its canonical structure string (cmiles) and InChIKey.

use vstd::prelude::*;

use crate::table;

verus! {

/// Which kind of dataset a request names.
#[derive(Clone, Copy, Debug, PartialEq, Eq, Structural)]
pub enum CollectionType {
    TorsionDrive,
    Optimization,
}

impl CollectionType {
    /// The collection name the server knows this kind by.
    pub fn collection_name(&self) -> (r: String)
        ensures
            *self is TorsionDrive ==> r@ == "torsiondrivedataset"@,
            *self is Optimization ==> r@ == "optimization"@,
    {
        match self {
            CollectionType::TorsionDrive => "torsiondrivedataset".to_owned(),
            CollectionType::Optimization => "optimization".to_owned(),
        }
    }

    /// Reads a kind from its user-facing name; an unmatched name comes
    /// back unchanged as the error.
    pub fn from_str(s: &String) -> (r: Result<CollectionType, String>)
        ensures
            r is Ok <==> (s@ == "TorsionDrive"@ || s@ == "Optimization"@),
            r == Ok::<CollectionType, String>(CollectionType::TorsionDrive) <==> s@
                == "TorsionDrive"@,
            r == Ok::<CollectionType, String>(CollectionType::Optimization) <==> s@
                == "Optimization"@,
            r matches Err(e) ==> e@ == s@,
    {
        proof {
            reveal_strlit("TorsionDrive");
            reveal_strlit("Optimization");
            assert("TorsionDrive"@ != "Optimization"@) by {
                assert("TorsionDrive"@[0] == 'T');
                assert("Optimization"@[0] == 'O');
            }
        }
        if *s == "TorsionDrive".to_owned() {
            Ok(CollectionType::TorsionDrive)
        } else if *s == "Optimization".to_owned() {
            Ok(CollectionType::Optimization)
        } else {
            Err(s.clone())
        }
    }
}

/// Pagination filter of a collection request; this pipeline never
/// restricts one.
pub struct QueryFilter {
    pub included: Option<bool>,
    pub excluded: Option<bool>,
}

/// Payload of a collection request: which collection, by name.
pub struct Data {
    pub collection: String,
    pub name: String,
}

/// Body of the request that fetches a named dataset.
pub struct CollectionGetBody {
    pub meta: QueryFilter,
    pub data: Data,
}

impl CollectionGetBody {
    /// Construct a new [CollectionGetBody] with `collection_type` and `name`.
    pub fn new(collection_type: CollectionType, name: String) -> (r: Self)
        ensures
            r.meta.included is None,
            r.meta.excluded is None,
            collection_type is TorsionDrive ==> r.data.collection@ == "torsiondrivedataset"@,
            collection_type is Optimization ==> r.data.collection@ == "optimization"@,
            r.data.name == name,
    {
        Self {
            meta: QueryFilter { included: None, excluded: None },
            data: Data { collection: collection_type.collection_name(), name },
        }
    }
}

/// A dataset entry's label fields.
pub struct Attributes {
    pub canonical_isomeric_explicit_hydrogen_mapped_smiles: String,
    pub inchi_key: String,
}

/// One dataset entry: a record identifier and the labels of the
/// molecule it was measured on.
pub struct TorsionDriveResult {
    pub name: String,
    pub attributes: Attributes,
    /// The single record the entry's object map points at.
    pub record_id: String,
}

impl TorsionDriveResult {
    pub fn new(name: String, record_id: String, cmiles: String, inchi_key: String) -> (r: Self)
        ensures
            r.name == name,
            r.record_id == record_id,
            r.attributes.canonical_isomeric_explicit_hydrogen_mapped_smiles == cmiles,
            r.attributes.inchi_key == inchi_key,
    {
        Self {
            name,
            attributes: Attributes {
                canonical_isomeric_explicit_hydrogen_mapped_smiles: cmiles,
                inchi_key,
            },
            record_id,
        }
    }

    /// return the record's id
    pub fn record_id(&self) -> (r: &String)
        ensures
            r == self.record_id,
    {
        &self.record_id
    }

    pub fn cmiles(&self) -> (r: &String)
        ensures
            r == self.attributes.canonical_isomeric_explicit_hydrogen_mapped_smiles,
    {
        &self.attributes.canonical_isomeric_explicit_hydrogen_mapped_smiles
    }

    pub fn inchi_key(&self) -> (r: &String)
        ensures
            r == self.attributes.inchi_key,
    {
        &self.attributes.inchi_key
    }
}

/// the important fields in a [CollectionGetResponse]
pub struct DataSet {
    pub id: String,
    pub collection: String,
    pub name: String,
    pub records: Vec<TorsionDriveResult>,
}

/// Response to a collection request: the datasets the server returned
/// for the requested name (in practice one).
pub struct CollectionGetResponse {
    pub data: Vec<DataSet>,
}

/// All entries of a response, dataset by dataset.
pub open spec fn entries_of(ds: Seq<DataSet>) -> Seq<TorsionDriveResult> {
    ds.map_values(|d: DataSet| d.records@).flatten()
}

impl CollectionGetResponse {
    /// All entries of the response, dataset by dataset.
    pub open spec fn all_entries(&self) -> Seq<TorsionDriveResult> {
        entries_of(self.data@)
    }

    /// The record identifiers the entries reference, in order of first
    /// appearance.
    pub open spec fn entry_ids(&self) -> Seq<String> {
        self.all_entries().map_values(|t: TorsionDriveResult| t.record_id)
    }

    /// The distinct record identifiers the entries reference, each
    /// once, in order of first appearance: a duplicated identifier
    /// keeps its first occurrence, deterministically.
    #[verifier::loop_isolation(false)]
    pub fn ids(&self) -> (r: Vec<String>)
        ensures
            r@ == table::first_occurrences(self.entry_ids()),
            table::distinct_contents(r@),
            forall|c: Seq<char>|
                table::contains_str(r@, c) <==> table::contains_str(self.entry_ids(), c),
    {
        broadcast use Seq::lemma_flatten_push;

        let mut r: Vec<String> = Vec::new();
        let mut di: usize = 0;
        while di < self.data.len()
            invariant
                0 <= di <= self.data@.len(),
                r@ == table::first_occurrences(
                    entries_of(self.data@.take(di as int)).map_values(
                        |t: TorsionDriveResult| t.record_id,
                    ),
                ),
            decreases self.data@.len() - di,
        {
            let ds = &self.data[di];
            let mut ri: usize = 0;
            while ri < ds.records.len()
                invariant
                    0 <= ri <= ds.records@.len(),
                    r@ == table::first_occurrences(
                        (entries_of(self.data@.take(di as int)) + ds.records@.take(
                            ri as int,
                        )).map_values(|t: TorsionDriveResult| t.record_id),
                    ),
                decreases ds.records@.len() - ri,
            {
                let ghost f = |t: TorsionDriveResult| t.record_id;
                let ghost pids = (entries_of(self.data@.take(di as int)) + ds.records@.take(
                    ri as int,
                )).map_values(f);
                proof {
                    let post = entries_of(self.data@.take(di as int)) + ds.records@.take(
                        ri + 1 as int,
                    );
                    assert(post =~= (entries_of(self.data@.take(di as int)) + ds.records@.take(
                        ri as int,
                    )).push(ds.records@[ri as int]));
                    assert(post.map_values(f) =~= pids.push(ds.records@[ri as int].record_id));
                    assert(pids.push(ds.records@[ri as int].record_id).drop_last() =~= pids);
                    table::lemma_first_occurrences(pids);
                }
                let id = &ds.records[ri].record_id;
                if !table::has_str(&r, id) {
                    r.push(id.clone());
                }
                ri += 1;
            }
            proof {
                let m = |d: DataSet| d.records@;
                assert(self.data@.take(di + 1 as int).map_values(m) =~= self.data@.take(
                    di as int,
                ).map_values(m).push(ds.records@));
                assert(entries_of(self.data@.take(di + 1 as int)) =~= entries_of(
                    self.data@.take(di as int),
                ) + ds.records@);
                assert(ds.records@.take(ds.records@.len() as int) =~= ds.records@);
            }
            di += 1;
        }
        proof {
            assert(self.data@.take(self.data@.len() as int) =~= self.data@);
            table::lemma_first_occurrences(self.entry_ids());
        }
        r
    }

    /// The entries of the response, dataset by dataset, as one vector.
    #[verifier::loop_isolation(false)]
    pub fn into_entries(self) -> (r: Vec<TorsionDriveResult>)
        ensures
            r@ == entries_of(self.data@),
    {
        let CollectionGetResponse { data: mut data } = self;
        let ghost total = entries_of(data@);
        let mut r: Vec<TorsionDriveResult> = Vec::new();
        while data.len() > 0
            invariant
                total == r@ + entries_of(data@),
            decreases data@.len(),
        {
            let ghost data_before = data@;
            let mut ds = data.remove(0);
            proof {
                let m = |d: DataSet| d.records@;
                assert(data_before.map_values(m)[0] == ds.records@);
                assert(data_before.map_values(m).drop_first() =~= data@.map_values(m));
                assert(entries_of(data_before) =~= ds.records@ + entries_of(data@));
            }
            let ghost rest = entries_of(data@);
            while ds.records.len() > 0
                invariant
                    total == r@ + ds.records@ + rest,
                decreases ds.records@.len(),
            {
                let ghost recs_before = ds.records@;
                let e = ds.records.remove(0);
                proof {
                    assert(recs_before =~= seq![e] + ds.records@);
                    assert(r@.push(e) + ds.records@ + rest =~= r@ + recs_before + rest);
                }
                r.push(e);
            }
            proof {
                assert(r@ + ds.records@ + rest =~= r@ + rest);
            }
        }
        proof {
            assert(entries_of(data@) =~= Seq::<TorsionDriveResult>::empty()) by {
                assert(data@.map_values(|d: DataSet| d.records@) =~= Seq::<
                    Seq<TorsionDriveResult>,
                >::empty());
            }
            assert(r@ + entries_of(data@) =~= r@);
        }
        r
    }
}

} // verus!
