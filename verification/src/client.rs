//! The client-side stages of dataset resolution.
//!
//! The transport lives outside this crate; what stands here is every
//! decision the client makes between requests: how identifier lists
//! are cut into legally-sized chunks, which records survive the
//! completeness filter, and how each stage's results are joined to the
//! identifiers of the next.

use vstd::prelude::*;

use crate::molecule::Molecule;
use crate::procedure::{OptimizationRecord, TorsionDriveRecord};
use crate::table;
use crate::ResolveError;

verus! {

/// Server metadata: the one field the pipeline reads is the number of
/// identifiers a single batched request may carry.
pub struct Information {
    pub query_limit: usize,
}

/// A request body built from a batch of identifiers. The body carries
/// exactly the identifiers it was built from: what the chunker cut is
/// what the request asks for.
pub trait Body: Sized {
    /// The identifiers this body asks for.
    spec fn ids_view(&self) -> Seq<String>;

    fn new(ids: Vec<String>) -> (r: Self)
        ensures
            r.ids_view() == ids@,
    ;
}

/// The flattened contents of a sequence of chunks.
pub open spec fn chunk_contents(chunks: Seq<Vec<String>>) -> Seq<String> {
    chunks.map_values(|c: Vec<String>| c@).flatten()
}

/// Every chunk but the last holds exactly `size` identifiers.
pub open spec fn full_but_last(chunks: Seq<Vec<String>>, size: int) -> bool {
    forall|k: int| 0 <= k < chunks.len() - 1 ==> (#[trigger] chunks[k])@.len() == size
}

/// A sequence of full chunks flattens to exactly `len * size`
/// identifiers.
proof fn lemma_flatten_len_full(chunks: Seq<Vec<String>>, size: int)
    requires
        size > 0,
        forall|k: int| 0 <= k < chunks.len() ==> (#[trigger] chunks[k])@.len() == size,
    ensures
        chunk_contents(chunks).len() == chunks.len() * size,
    decreases chunks.len(),
{
    broadcast use Seq::lemma_flatten_push;

    if chunks.len() == 0 {
        assert(chunks.map_values(|c: Vec<String>| c@) =~= Seq::<Seq<String>>::empty());
    } else {
        let pre = chunks.drop_last();
        lemma_flatten_len_full(pre, size);
        assert(chunks.map_values(|c: Vec<String>| c@) =~= pre.map_values(
            |c: Vec<String>| c@,
        ).push(chunks.last()@));
        assert((chunks.len() - 1) * size + size == chunks.len() * size) by (nonlinear_arith);
    }
}

/// How many chunks a list of `len` identifiers makes at chunk size
/// `size`: enough to hold them all, none of them empty.
proof fn lemma_chunk_count(len: int, size: int, n: int)
    requires
        size > 0,
        n >= 0,
        len <= n * size,
        (n - 1) * size < len,
    ensures
        n == (len + size - 1) / size,
{
    let r = len + size - 1 - n * size;
    assert(0 <= r < size) by (nonlinear_arith)
        requires
            size > 0,
            len <= n * size,
            (n - 1) * size < len,
            r == len + size - 1 - n * size,
    ;
    vstd::arithmetic::div_mod::lemma_fundamental_div_mod_converse(len + size - 1, size, n, r);
}

/// Cuts `ids` into consecutive chunks of at most `chunk_size`
/// identifiers: exactly ceil(len / chunk_size) chunks, none empty, all
/// but the last full, together carrying every identifier once, in
/// order. An empty list makes no chunks at all.
#[verifier::loop_isolation(false)]
pub fn chunk_ids(ids: &Vec<String>, chunk_size: usize) -> (r: Vec<Vec<String>>)
    requires
        chunk_size > 0,
    ensures
        chunk_contents(r@) == ids@,
        forall|k: int| 0 <= k < r@.len() ==> 0 < (#[trigger] r@[k])@.len() <= chunk_size,
        full_but_last(r@, chunk_size as int),
        r@.len() == (ids@.len() + chunk_size - 1) as int / chunk_size as int,
        ids@.len() == 0 ==> r@.len() == 0,
{
    broadcast use Seq::lemma_flatten_push;

    let mut r: Vec<Vec<String>> = Vec::new();
    let mut i: usize = 0;
    while i < ids.len()
        invariant
            0 <= i <= ids@.len(),
            chunk_contents(r@) == ids@.take(i as int),
            forall|k: int| 0 <= k < r@.len() ==> 0 < (#[trigger] r@[k])@.len() <= chunk_size,
            forall|k: int| 0 <= k < r@.len() - 1 ==> (#[trigger] r@[k])@.len() == chunk_size,
            i < ids@.len() ==> (forall|k: int|
                0 <= k < r@.len() ==> (#[trigger] r@[k])@.len() == chunk_size),
        decreases ids@.len() - i,
    {
        let take_n = if ids.len() - i < chunk_size {
            ids.len() - i
        } else {
            chunk_size
        };
        let mut chunk: Vec<String> = Vec::new();
        let mut j: usize = 0;
        while j < take_n
            invariant
                0 <= j <= take_n,
                i + take_n <= ids@.len(),
                chunk@ == ids@.subrange(i as int, i + j as int),
            decreases take_n - j,
        {
            proof {
                assert(ids@.subrange(i as int, i + j + 1 as int) =~= ids@.subrange(
                    i as int,
                    i + j as int,
                ).push(ids@[i + j as int]));
            }
            chunk.push(ids[i + j].clone());
            j += 1;
        }
        proof {
            let ghost old_r = r@;
            assert(r@.push(chunk).map_values(|c: Vec<String>| c@) =~= r@.map_values(
                |c: Vec<String>| c@,
            ).push(chunk@));
            assert(ids@.take(i as int) + ids@.subrange(i as int, i + take_n as int) =~= ids@.take(
                i + take_n as int,
            ));
        }
        r.push(chunk);
        i += take_n;
    }
    proof {
        assert(ids@.take(ids@.len() as int) =~= ids@);
        let n = r@.len() as int;
        let len = ids@.len() as int;
        let size = chunk_size as int;
        if n == 0 {
            assert(r@.map_values(|c: Vec<String>| c@) =~= Seq::<Seq<String>>::empty());
            assert(chunk_contents(r@) =~= Seq::<String>::empty());
            assert(len == 0);
            assert(0 * size == 0) by (nonlinear_arith);
            vstd::arithmetic::div_mod::lemma_fundamental_div_mod_converse(
                len + size - 1,
                size,
                0,
                size - 1,
            );
        } else {
            lemma_flatten_len_full(r@.drop_last(), size);
            assert(r@.map_values(|c: Vec<String>| c@) =~= r@.drop_last().map_values(
                |c: Vec<String>| c@,
            ).push(r@.last()@));
            assert(len == (n - 1) * size + r@.last()@.len());
            assert(len <= n * size && (n - 1) * size < len) by (nonlinear_arith)
                requires
                    size > 0,
                    0 < r@.last()@.len() <= size,
                    len == (n - 1) * size + r@.last()@.len(),
            ;
            lemma_chunk_count(len, size, n);
        }
    }
    r
}

/// The responses of one stage's chunked requests, flattened into a
/// single list in arrival order. No cross-chunk deduplication is
/// performed: what the chunks brought is what the next stage sees.
#[verifier::loop_isolation(false)]
pub fn flatten_responses<T>(responses: Vec<Vec<T>>) -> (r: Vec<T>)
    ensures
        r@ == responses@.map_values(|v: Vec<T>| v@).flatten(),
{
    broadcast use Seq::lemma_flatten_push;

    let ghost resp0 = responses@;
    let mut data = responses;
    let mut out: Vec<T> = Vec::new();
    while data.len() > 0
        invariant
            data@.len() <= resp0.len(),
            resp0.map_values(|v: Vec<T>| v@).flatten() =~= out@ + data@.map_values(
                |v: Vec<T>| v@,
            ).flatten(),
        decreases data@.len(),
    {
        let ghost before = data@;
        let mut chunk = data.remove(0);
        proof {
            let m = |v: Vec<T>| v@;
            assert(before.map_values(m)[0] == chunk@);
            assert(before.map_values(m).drop_first() =~= data@.map_values(m));
            assert(before.map_values(m).flatten() =~= chunk@ + data@.map_values(m).flatten());
        }
        let ghost rest = data@.map_values(|v: Vec<T>| v@).flatten();
        while chunk.len() > 0
            invariant
                resp0.map_values(|v: Vec<T>| v@).flatten() =~= out@ + chunk@ + rest,
            decreases chunk@.len(),
        {
            let ghost cb = chunk@;
            let x = chunk.remove(0);
            proof {
                assert(cb =~= seq![x] + chunk@);
                assert(out@.push(x) + chunk@ =~= out@ + cb);
            }
            out.push(x);
        }
        proof {
            assert(out@ + chunk@ + rest =~= out@ + rest);
        }
    }
    proof {
        assert(data@.map_values(|v: Vec<T>| v@) =~= Seq::<Seq<T>>::empty());
        assert(out@ + data@.map_values(|v: Vec<T>| v@).flatten() =~= out@);
    }
    out
}

/// A sequence whose elements all pass the filter passes through it
/// unchanged.
proof fn lemma_filter_all_kept<A>(s: Seq<A>, pred: spec_fn(A) -> bool)
    requires
        forall|i: int| 0 <= i < s.len() ==> pred(#[trigger] s[i]),
    ensures
        s.filter(pred) == s,
    decreases s.len(),
{
    reveal_with_fuel(Seq::filter, 2);
    if s.len() > 0 {
        lemma_filter_all_kept(s.drop_last(), pred);
        assert(s.filter(pred) =~= s);
    } else {
        assert(s.filter(pred) =~= s);
    }
}

/// Law: filtering is idempotent — a second pass of the same filter
/// keeps exactly what the first pass kept.
pub proof fn lemma_filter_idempotent<A>(s: Seq<A>, pred: spec_fn(A) -> bool)
    ensures
        s.filter(pred).filter(pred) == s.filter(pred),
{
    broadcast use Seq::lemma_filter_pred;

    lemma_filter_all_kept(s.filter(pred), pred);
}

/// The completeness filter on grid records.
pub open spec fn complete_torsion_drives(records: Seq<TorsionDriveRecord>) -> Seq<
    TorsionDriveRecord,
> {
    records.filter(|rec: TorsionDriveRecord| rec.status is Complete)
}

/// The completeness filter on optimization records.
pub open spec fn complete_optimizations(records: Seq<OptimizationRecord>) -> Seq<
    OptimizationRecord,
> {
    records.filter(|rec: OptimizationRecord| rec.status is Complete)
}

/// Law: the completeness filter on grid records is idempotent.
pub proof fn lemma_complete_torsion_drives_idempotent(records: Seq<TorsionDriveRecord>)
    ensures
        complete_torsion_drives(complete_torsion_drives(records)) == complete_torsion_drives(
            records,
        ),
{
    lemma_filter_idempotent(records, |rec: TorsionDriveRecord| rec.status is Complete);
}

/// Law: the completeness filter on optimization records is idempotent.
pub proof fn lemma_complete_optimizations_idempotent(records: Seq<OptimizationRecord>)
    ensures
        complete_optimizations(complete_optimizations(records)) == complete_optimizations(records),
{
    lemma_filter_idempotent(records, |rec: OptimizationRecord| rec.status is Complete);
}

/// The grid records that survive the completeness filter, in order.
/// Records in any other status are dropped silently: their absence is
/// not an error.
#[verifier::loop_isolation(false)]
pub fn filter_complete(records: Vec<TorsionDriveRecord>) -> (r: Vec<TorsionDriveRecord>)
    ensures
        r@ == complete_torsion_drives(records@),
{
    broadcast use Seq::filter_distributes_over_add;

    let ghost records0 = records@;
    let ghost pred = |rec: TorsionDriveRecord| rec.status is Complete;
    let mut data = records;
    let mut out: Vec<TorsionDriveRecord> = Vec::new();
    while data.len() > 0
        invariant
            data@.len() <= records0.len(),
            data@ =~= records0.skip(records0.len() - data@.len()),
            out@ == records0.take(records0.len() - data@.len()).filter(pred),
        decreases data@.len(),
    {
        let ghost i = records0.len() - data@.len();
        let ghost before = data@;
        let rec = data.remove(0);
        proof {
            assert(before[0] == records0[i]);
            assert(before.drop_first() =~= records0.skip(i + 1));
            reveal_with_fuel(Seq::filter, 2);
            assert(seq![records0[i]].filter(pred) =~= if pred(records0[i]) {
                seq![records0[i]]
            } else {
                Seq::<TorsionDriveRecord>::empty()
            });
            assert(records0.take(i + 1) =~= records0.take(i) + seq![records0[i]]);
            assert(records0.take(i + 1).filter(pred) =~= records0.take(i).filter(pred) + seq![
                records0[i],
            ].filter(pred));
        }
        if rec.status.is_complete() {
            proof {
                assert(out@.push(rec) =~= records0.take(i + 1).filter(pred));
            }
            out.push(rec);
        } else {
            proof {
                assert(out@ =~= records0.take(i + 1).filter(pred));
            }
        }
    }
    proof {
        assert(records0.take(records0.len() as int) =~= records0);
    }
    out
}

/// The optimization records that survive the completeness filter, in
/// order. Records in any other status are dropped silently.
#[verifier::loop_isolation(false)]
pub fn filter_complete_optimizations(records: Vec<OptimizationRecord>) -> (r: Vec<
    OptimizationRecord,
>)
    ensures
        r@ == complete_optimizations(records@),
{
    broadcast use Seq::filter_distributes_over_add;

    let ghost records0 = records@;
    let ghost pred = |rec: OptimizationRecord| rec.status is Complete;
    let mut data = records;
    let mut out: Vec<OptimizationRecord> = Vec::new();
    while data.len() > 0
        invariant
            data@.len() <= records0.len(),
            data@ =~= records0.skip(records0.len() - data@.len()),
            out@ == records0.take(records0.len() - data@.len()).filter(pred),
        decreases data@.len(),
    {
        let ghost i = records0.len() - data@.len();
        let ghost before = data@;
        let rec = data.remove(0);
        proof {
            assert(before[0] == records0[i]);
            assert(before.drop_first() =~= records0.skip(i + 1));
            reveal_with_fuel(Seq::filter, 2);
            assert(seq![records0[i]].filter(pred) =~= if pred(records0[i]) {
                seq![records0[i]]
            } else {
                Seq::<OptimizationRecord>::empty()
            });
            assert(records0.take(i + 1) =~= records0.take(i) + seq![records0[i]]);
            assert(records0.take(i + 1).filter(pred) =~= records0.take(i).filter(pred) + seq![
                records0[i],
            ].filter(pred));
        }
        if rec.status.is_complete() {
            proof {
                assert(out@.push(rec) =~= records0.take(i + 1).filter(pred));
            }
            out.push(rec);
        } else {
            proof {
                assert(out@ =~= records0.take(i + 1).filter(pred));
            }
        }
    }
    proof {
        assert(records0.take(records0.len() as int) =~= records0);
    }
    out
}

/// All (optimization id, (record id, grid label)) pairs of all
/// records, record by record.
pub open spec fn all_opt_pairs(records: Seq<TorsionDriveRecord>) -> Seq<
    (String, (String, String)),
> {
    records.map_values(|rec: TorsionDriveRecord| rec.opt_pairs()).flatten()
}

/// No two pairs share an optimization id.
pub open spec fn distinct_keys(ps: Seq<(String, (String, String))>) -> bool {
    forall|i: int, j: int|
        0 <= i < j < ps.len() ==> (#[trigger] ps[i]).0@ != (#[trigger] ps[j]).0@
}

/// The map from each chosen optimization id to its (record id, grid
/// label) composite key, over all records. Fails where a record's
/// positions break the record invariant, and where two positions
/// resolve to the same optimization id — a key must name one position,
/// so a shared id could not be joined back unambiguously.
#[verifier::loop_isolation(false)]
pub fn build_intermediate_map(records: &Vec<TorsionDriveRecord>) -> (r: Result<
    Vec<(String, (String, String))>,
    ResolveError,
>)
    ensures
        r is Ok <==> (forall|i: int|
            0 <= i < records@.len() ==> (#[trigger] records@[i]).positions_valid())
            && distinct_keys(all_opt_pairs(records@)),
        r matches Ok(v) ==> v@ == all_opt_pairs(records@),
        r matches Err(e) ==> match e {
            ResolveError::MissingGridLabel { .. } => exists|i: int|
                0 <= i < records@.len() && !(#[trigger] records@[i]).positions_valid(),
            ResolveError::GridIndexOutOfRange { .. } => exists|i: int|
                0 <= i < records@.len() && !(#[trigger] records@[i]).positions_valid(),
            ResolveError::DuplicateIntermediateId { id } => !distinct_keys(all_opt_pairs(records@))
                && (exists|i: int|
                0 <= i < all_opt_pairs(records@).len() && (#[trigger] all_opt_pairs(
                    records@,
                )[i]).0 == id),
            _ => false,
        },
{
    broadcast use Seq::lemma_flatten_push;

    let mut pairs: Vec<(String, (String, String))> = Vec::new();
    let mut i: usize = 0;
    while i < records.len()
        invariant
            0 <= i <= records@.len(),
            forall|j: int| 0 <= j < i ==> (#[trigger] records@[j]).positions_valid(),
            pairs@ == all_opt_pairs(records@.take(i as int)),
        decreases records@.len() - i,
    {
        let rec = &records[i];
        let mut ps = match rec.optimizations() {
            Ok(ps) => ps,
            Err(e) => {
                return Err(e);
            },
        };
        let ghost target = pairs@ + ps@;
        proof {
            let f = |rec: TorsionDriveRecord| rec.opt_pairs();
            assert(records@.take(i + 1 as int).map_values(f) =~= records@.take(
                i as int,
            ).map_values(f).push(records@[i as int].opt_pairs()));
            assert(all_opt_pairs(records@.take(i + 1 as int)) =~= target);
        }
        while ps.len() > 0
            invariant
                pairs@ + ps@ =~= target,
            decreases ps@.len(),
        {
            let ghost before = ps@;
            let p = ps.remove(0);
            proof {
                assert(before =~= seq![p] + ps@);
                assert(pairs@.push(p) + ps@ =~= pairs@ + before);
            }
            pairs.push(p);
        }
        proof {
            assert(pairs@ + ps@ =~= pairs@);
        }
        i += 1;
    }
    proof {
        assert(records@.take(records@.len() as int) =~= records@);
    }
    let ghost pairs0 = pairs@;
    let mut data = pairs;
    let mut out: Vec<(String, (String, String))> = Vec::new();
    while data.len() > 0
        invariant
            out@.len() + data@.len() == pairs0.len(),
            out@ =~= pairs0.take(out@.len() as int),
            data@ =~= pairs0.skip(out@.len() as int),
            distinct_keys(out@),
        decreases data@.len(),
    {
        let ghost g = out@.len() as int;
        let ghost before = data@;
        let p = data.remove(0);
        proof {
            assert(before[0] == pairs0[g]);
            assert(before.drop_first() =~= pairs0.skip(g + 1));
        }
        match table::get(&out, &p.0) {
            Some(_) => {
                proof {
                    table::lemma_lookup_none(out@, p.0@);
                    let j = choose|j: int| 0 <= j < out@.len() && (#[trigger] out@[j]).0@ == p.0@;
                    assert(pairs0[j].0@ == pairs0[g].0@);
                    assert(!distinct_keys(pairs0));
                    assert(pairs0[g].0 == p.0);
                }
                return Err(ResolveError::DuplicateIntermediateId { id: p.0 });
            },
            None => {
                proof {
                    table::lemma_lookup_none(out@, p.0@);
                    assert(out@.push(p) =~= pairs0.take(g + 1));
                }
                out.push(p);
            },
        }
    }
    proof {
        assert(pairs0.take(pairs0.len() as int) =~= pairs0);
    }
    Ok(out)
}

/// The composite-key → molecule-id map of the second stage: each
/// fetched optimization record claims the (record id, grid label)
/// pair that chose it and hands it its final molecule. A record whose
/// identifier no pair of `intermediate` carries — or that arrives a
/// second time, after its pair was already claimed — is fatal: it
/// means the join is inconsistent, not that a record may be dropped.
#[verifier::loop_isolation(false)]
pub fn resolve_molecule_ids(
    intermediate: &Vec<(String, (String, String))>,
    responses: &Vec<OptimizationRecord>,
) -> (r: Result<Vec<((String, String), String)>, ResolveError>)
    ensures
        r is Ok <==> (forall|i: int|
            0 <= i < responses@.len() ==> table::lookup(
                intermediate@,
                (#[trigger] responses@[i]).id@,
            ) is Some) && (forall|i: int, j: int|
            0 <= i < j < responses@.len() ==> (#[trigger] responses@[i]).id@ != (
            #[trigger] responses@[j]).id@),
        r matches Ok(v) ==> v@.len() == responses@.len() && (forall|i: int|
            0 <= i < v@.len() ==> #[trigger] v@[i] == (
            table::lookup(intermediate@, responses@[i].id@)->Some_0,
            responses@[i].final_molecule,
            )),
        r matches Err(e) ==> (e matches ResolveError::UnknownIntermediateId { id } && exists|i: int|
            {
                &&& 0 <= i < responses@.len()
                &&& (#[trigger] responses@[i]).id == id
                &&& (table::lookup(intermediate@, id@) is None || exists|j: int|
                    0 <= j < i && (#[trigger] responses@[j]).id@ == id@)
            }),
{
    let mut seen: Vec<String> = Vec::new();
    let mut out: Vec<((String, String), String)> = Vec::new();
    let mut i: usize = 0;
    while i < responses.len()
        invariant
            0 <= i <= responses@.len(),
            out@.len() == i,
            seen@.len() == i,
            forall|j: int| 0 <= j < i ==> #[trigger] seen@[j] == responses@[j].id,
            forall|a: int, b: int|
                0 <= a < b < i ==> (#[trigger] responses@[a]).id@ != (#[trigger] responses@[b]).id@,
            forall|j: int|
                0 <= j < i ==> table::lookup(intermediate@, (#[trigger] responses@[j]).id@)
                    is Some,
            forall|j: int|
                0 <= j < i ==> #[trigger] out@[j] == (
                table::lookup(intermediate@, responses@[j].id@)->Some_0,
                responses@[j].final_molecule,
                ),
        decreases responses@.len() - i,
    {
        let rec = &responses[i];
        if table::has_str(&seen, &rec.id) {
            proof {
                let j = choose|j: int| 0 <= j < seen@.len() && (#[trigger] seen@[j])@ == rec.id@;
                assert(responses@[j].id@ == responses@[i as int].id@);
            }
            return Err(ResolveError::UnknownIntermediateId { id: rec.id.clone() });
        }
        match table::get(intermediate, &rec.id) {
            None => {
                return Err(ResolveError::UnknownIntermediateId { id: rec.id.clone() });
            },
            Some(ck) => {
                proof {
                    let ghost cur = responses@[i as int].id@;
                    assert forall|a: int|
                        0 <= a < i implies (#[trigger] responses@[a]).id@ != cur by {
                        assert(seen@[a] == responses@[a].id);
                    }
                }
                out.push(((ck.0.clone(), ck.1.clone()), rec.final_molecule.clone()));
                seen.push(rec.id.clone());
            },
        }
        i += 1;
    }
    Ok(out)
}

/// Molecules keyed by their own identifier, in arrival order; a
/// duplicated identifier keeps both entries, and lookups take the
/// first.
#[verifier::loop_isolation(false)]
pub fn index_molecules(molecules: Vec<Molecule>) -> (r: Vec<(String, Molecule)>)
    ensures
        r@.len() == molecules@.len(),
        forall|i: int|
            0 <= i < molecules@.len() ==> #[trigger] r@[i] == (
            molecules@[i].id,
            molecules@[i],
            ),
{
    let ghost mols0 = molecules@;
    let mut data = molecules;
    let mut out: Vec<(String, Molecule)> = Vec::new();
    while data.len() > 0
        invariant
            out@.len() + data@.len() == mols0.len(),
            data@ =~= mols0.skip(out@.len() as int),
            forall|j: int| 0 <= j < out@.len() ==> #[trigger] out@[j] == (mols0[j].id, mols0[j]),
        decreases data@.len(),
    {
        let ghost before = data@;
        let m = data.remove(0);
        proof {
            assert(before[0] == mols0[out@.len() as int]);
            assert(before.drop_first() =~= mols0.skip(out@.len() + 1 as int));
        }
        let id = m.id.clone();
        out.push((id, m));
    }
    out
}

/// The direct map of the single-stage kind: each record's final
/// molecule identifier, keyed back to the record that owns it.
#[verifier::loop_isolation(false)]
pub fn build_direct_map(records: &Vec<OptimizationRecord>) -> (r: Vec<(String, String)>)
    ensures
        r@.len() == records@.len(),
        forall|i: int|
            0 <= i < records@.len() ==> #[trigger] r@[i] == (
            records@[i].final_molecule,
            records@[i].id,
            ),
{
    let mut out: Vec<(String, String)> = Vec::new();
    let mut i: usize = 0;
    while i < records.len()
        invariant
            0 <= i <= records@.len(),
            out@.len() == i,
            forall|j: int|
                0 <= j < i ==> #[trigger] out@[j] == (
                records@[j].final_molecule,
                records@[j].id,
                ),
        decreases records@.len() - i,
    {
        out.push((records[i].final_molecule.clone(), records[i].id.clone()));
        i += 1;
    }
    out
}

} // verus!
