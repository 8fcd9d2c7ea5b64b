//! Molecules: the final geometries of the resolution.

use vstd::prelude::*;

use crate::client::Body;

verus! {

/// A molecule as the server returns it: an identifier and one
/// conformer's coordinates.
pub struct Molecule {
    pub id: String,
    /// Flattened Cartesian coordinates, three words per atom. Each
    /// word carries one coordinate as an opaque 64-bit pattern that
    /// the caller encodes and decodes; the resolution logic never
    /// reads them.
    pub geometry: Vec<u64>,
}

/// Body of the request that fetches a batch of molecules by
/// identifier.
pub struct MoleculeGetBody {
    pub data: Vec<String>,
}

impl Body for MoleculeGetBody {
    open spec fn ids_view(&self) -> Seq<String> {
        self.data@
    }

    fn new(ids: Vec<String>) -> (r: Self) {
        Self { data: ids }
    }
}

} // verus!
