//! The two phases of a search: the request that resolves a query into
//! records, the chunked requests that enrich them, and the merge of what
//! the chunks returned.

use vstd::prelude::*;
use crate::models::indicator::Indicator;
use crate::text::{decimal, push_decimal};

verus! {

/// How many records one enrichment request asks for.
pub const CHUNK_SIZE: usize = 20;

/// A query parameter as texts: its key and its value.
pub type ParamText = (Seq<char>, Seq<char>);

/// The texts of a list of query parameters.
pub open spec fn param_texts(params: Seq<(String, String)>) -> Seq<ParamText> {
    Seq::new(params.len(), |i: int| (params[i].0@, params[i].1@))
}

/// The filter that matches every record whose summary contains `query`.
pub open spec fn summary_filter(query: Seq<char>) -> Seq<char> {
    "summary like \"%"@ + query + "%\""@
}

/// The parameters of the request that resolves `query`: the filter, the
/// window of at most 100 records from the start, oldest first, and no
/// nested fields.
pub open spec fn resolve_params(query: Seq<char>) -> Seq<ParamText> {
    seq![
        ("tql"@, summary_filter(query)),
        ("resultStart"@, "0"@),
        ("resultLimit"@, "100"@),
        ("sorting"@, "dateAdded ASC"@),
    ]
}

/// The ids joined by commas, in decimal.
pub open spec fn id_list(ids: Seq<i64>) -> Seq<char>
    decreases ids.len(),
{
    if ids.len() == 0 {
        Seq::empty()
    } else if ids.len() == 1 {
        decimal(ids[0] as int)
    } else {
        id_list(ids.drop_last()) + ","@ + decimal(ids.last() as int)
    }
}

/// The filter that matches exactly the records with the given ids.
pub open spec fn id_filter(ids: Seq<i64>) -> Seq<char> {
    "id in ("@ + id_list(ids) + ")"@
}

/// The parameters of the request that enriches the records with the given
/// ids: the filter, the limit, the order, and the three nested fields.
pub open spec fn detail_params(ids: Seq<i64>) -> Seq<ParamText> {
    seq![
        ("tql"@, id_filter(ids)),
        ("resultLimit"@, "100"@),
        ("sorting"@, "dateAdded ASC"@),
        ("fields"@, "tags"@),
        ("fields"@, "associatedGroups"@),
        ("fields"@, "associatedIndicators"@),
    ]
}

/// The ids of the records, in order.
pub open spec fn ids_of(records: Seq<Indicator>) -> Seq<i64> {
    Seq::new(records.len(), |i: int| records[i].id)
}

fn param(key: &str, value: String) -> (r: (String, String))
    ensures
        r.0@ == key@,
        r.1@ == value@,
{
    (key.to_owned(), value)
}

/// Builds the parameters of the request that resolves `query`.
pub fn build_resolve_params(query: &str) -> (r: Vec<(String, String)>)
    ensures
        param_texts(r@) == resolve_params(query@),
{
    let mut tql = "summary like \"%".to_owned();
    tql.append(query);
    tql.append("%\"");
    let mut params: Vec<(String, String)> = Vec::new();
    params.push(param("tql", tql));
    params.push(param("resultStart", "0".to_owned()));
    params.push(param("resultLimit", "100".to_owned()));
    params.push(param("sorting", "dateAdded ASC".to_owned()));
    assert(param_texts(params@) =~= resolve_params(query@));
    params
}

/// Builds the filter that matches exactly the records of `chunk`.
pub fn build_id_filter(chunk: &[Indicator]) -> (r: String)
    ensures
        r@ == id_filter(ids_of(chunk@)),
{
    let mut list = String::new();
    let ghost ids = ids_of(chunk@);
    let mut i: usize = 0;
    assert(ids.take(0) =~= Seq::<i64>::empty());
    while i < chunk.len()
        invariant
            i <= chunk.len(),
            ids == ids_of(chunk@),
            list@ == id_list(ids.take(i as int)),
        decreases chunk.len() - i,
    {
        proof {
            assert(ids.take(i + 1).drop_last() =~= ids.take(i as int));
            assert(ids.take(i + 1).last() == chunk@[i as int].id);
        }
        if i > 0 {
            list.append(",");
        }
        push_decimal(&mut list, chunk[i].id);
        proof {
            if i == 0 {
                assert(list@ =~= decimal(chunk@[0].id as int));
                assert(ids.take(1)[0] == chunk@[0].id);
            }
        }
        i += 1;
    }
    assert(ids.take(chunk.len() as int) =~= ids);
    let mut filter = "id in (".to_owned();
    filter.append(list.as_str());
    filter.append(")");
    filter
}

/// Builds the parameters of the request that enriches the records of
/// `chunk`.
pub fn build_detail_params(chunk: &[Indicator]) -> (r: Vec<(String, String)>)
    ensures
        param_texts(r@) == detail_params(ids_of(chunk@)),
{
    let mut params: Vec<(String, String)> = Vec::new();
    params.push(param("tql", build_id_filter(chunk)));
    params.push(param("resultLimit", "100".to_owned()));
    params.push(param("sorting", "dateAdded ASC".to_owned()));
    params.push(param("fields", "tags".to_owned()));
    params.push(param("fields", "associatedGroups".to_owned()));
    params.push(param("fields", "associatedIndicators".to_owned()));
    assert(param_texts(params@) =~= detail_params(ids_of(chunk@)));
    params
}

/// How many chunks of `size` records hold `n` records.
pub open spec fn chunk_count(n: nat, size: nat) -> nat {
    ((n + size - 1) / size as int) as nat
}

/// The `k`-th chunk of `records`: `size` records from position `k * size`,
/// or as many as are left.
pub open spec fn chunk_at(records: Seq<Indicator>, size: nat, k: int) -> Seq<Indicator> {
    let from = k * size;
    let to = if from + size <= records.len() { from + size } else { records.len() as int };
    records.subrange(from, to)
}

/// `chunks` is `records` cut into consecutive chunks of `size`, the last
/// one possibly shorter and none empty.
pub open spec fn is_chunking_of(chunks: Seq<Vec<Indicator>>, records: Seq<Indicator>, size: nat) -> bool {
    &&& chunks.len() == chunk_count(records.len(), size)
    &&& forall|k: int| 0 <= k < chunks.len() ==> (#[trigger] chunks[k])@ == chunk_at(records, size, k)
}

/// Cuts `records` into consecutive chunks of `size` records; the last chunk
/// holds what is left.
pub fn split_chunks(records: Vec<Indicator>, size: usize) -> (r: Vec<Vec<Indicator>>)
    requires
        size > 0,
    ensures
        is_chunking_of(r@, records@, size as nat),
{
    let mut chunks: Vec<Vec<Indicator>> = Vec::new();
    let mut current: Vec<Indicator> = Vec::new();
    let ghost mut seen: Seq<Indicator> = Seq::empty();
    assert(chunks@.len() * size == 0) by (nonlinear_arith)
        requires
            chunks@.len() == 0,
    ;
    for ind in it: records
        invariant
            size > 0,
            it.seq() == records@,
            seen == it.seq().take(it.index() as int),
            current@.len() <= size,
            seen.len() > 0 ==> current@.len() > 0,
            seen.len() == chunks@.len() * size + current@.len(),
            forall|k: int| 0 <= k < chunks@.len() ==> (#[trigger] chunks@[k])@ == seen.subrange(k * size, k * size + size),
            current@ == seen.subrange(chunks@.len() * size, seen.len() as int),
    {
        let ghost before = seen;
        let ghost old_chunks = chunks@;
        proof {
            seen = seen.push(ind);
            assert(seen =~= it.seq().take(it.index() + 1));
        }
        if current.len() == size {
            chunks.push(current);
            current = Vec::new();
            proof {
                assert((old_chunks.len() + 1) * size == old_chunks.len() * size + size) by (nonlinear_arith);
            }
        }
        current.push(ind);
        proof {
            assert forall|k: int| 0 <= k < chunks@.len() implies (#[trigger] chunks@[k])@ == seen.subrange(k * size, k * size + size) by {
                assert(k * size + size <= before.len()) by (nonlinear_arith)
                    requires 0 <= k < chunks@.len(), chunks@.len() * size <= before.len(), size > 0;
                if k < old_chunks.len() {
                    assert(chunks@[k]@ == before.subrange(k * size, k * size + size));
                } else {
                    assert(chunks@[k]@ == before.subrange(k * size, before.len() as int));
                }
                assert(before.subrange(k * size, k * size + size) =~= seen.subrange(k * size, k * size + size));
            }
            assert(current@ =~= seen.subrange(chunks@.len() * size, seen.len() as int));
        }
    }
    let ghost full = chunks@.len();
    if current.len() > 0 {
        chunks.push(current);
    }
    proof {
        assert(seen =~= records@);
        let n = records@.len();
        let c = chunks@.len();
        lemma_chunk_count(n, size as nat, full as nat);
        assert forall|k: int| 0 <= k < chunks@.len() implies (#[trigger] chunks@[k])@ == chunk_at(records@, size as nat, k) by {
            if k < full {
                assert(k * size + size <= full * size) by (nonlinear_arith)
                    requires 0 <= k < full, size > 0;
            } else {
                assert(chunks@[k]@ == seen.subrange(full * size, n as int));
            }
        }
    }
    chunks
}

/// With `full` complete chunks and a rest of at most `size` records, not
/// empty unless there is no record at all, the chunks are `full` or one more.
pub proof fn lemma_chunk_count(n: nat, size: nat, full: nat)
    requires
        size > 0,
        full * size <= n <= full * size + size,
        n > 0 ==> n > full * size,
    ensures
        chunk_count(n, size) == if n > full * size { full + 1 } else { full },
{
    let rest = n - full * size;
    if rest > 0 {
        assert((full + 1) * size == full * size + size) by (nonlinear_arith);
        vstd::arithmetic::div_mod::lemma_fundamental_div_mod_converse(
            (n + size - 1) as int,
            size as int,
            (full + 1) as int,
            (rest - 1) as int,
        );
    } else {
        assert(full * size == 0);
        assert(full == 0) by (nonlinear_arith)
            requires full * size == 0, size > 0;
        vstd::arithmetic::div_mod::lemma_fundamental_div_mod_converse(
            (n + size - 1) as int,
            size as int,
            0,
            (size - 1) as int,
        );
    }
}

/// One enrichment request: the records of a chunk as the first phase found
/// them, and the parameters of the request that asks for their details.
#[derive(Debug, Clone)]
pub struct ChunkRequest {
    pub basic: Vec<Indicator>,
    pub params: Vec<(String, String)>,
}

/// `plan` enriches `records`: its chunks are `records` cut into chunks of
/// [`CHUNK_SIZE`], and each request asks for exactly the ids of its chunk.
pub open spec fn is_enrichment_plan(plan: Seq<ChunkRequest>, records: Seq<Indicator>) -> bool {
    &&& plan.len() == chunk_count(records.len(), CHUNK_SIZE as nat)
    &&& forall|k: int|
        0 <= k < plan.len() ==> {
            &&& (#[trigger] plan[k]).basic@ == chunk_at(records, CHUNK_SIZE as nat, k)
            &&& param_texts(plan[k].params@) == detail_params(ids_of(plan[k].basic@))
        }
}

/// Plans the enrichment of `records`: one request per chunk of
/// [`CHUNK_SIZE`] records, in the order of the records.
pub fn plan_enrichment(records: Vec<Indicator>) -> (r: Vec<ChunkRequest>)
    ensures
        is_enrichment_plan(r@, records@),
{
    let chunks = split_chunks(records, CHUNK_SIZE);
    let mut plan: Vec<ChunkRequest> = Vec::new();
    for chunk in it: chunks
        invariant
            it.seq() == chunks@,
            plan@.len() == it.index(),
            forall|k: int|
                0 <= k < plan@.len() ==> {
                    &&& (#[trigger] plan@[k]).basic == chunks@[k]
                    &&& param_texts(plan@[k].params@) == detail_params(ids_of(plan@[k].basic@))
                },
    {
        let params = build_detail_params(chunk.as_slice());
        plan.push(ChunkRequest { basic: chunk, params });
    }
    plan
}

/// What a chunk contributes: the detailed records where its request
/// succeeded, the records it was made of where the request failed.
pub open spec fn chunk_outcome(basic: Vec<Indicator>, detailed: Option<Vec<Indicator>>) -> Vec<Indicator> {
    match detailed {
        Some(records) => records,
        None => basic,
    }
}

/// Settles one chunk: `detailed` holds the records that the enrichment
/// request returned, or nothing where it failed; a failed request falls
/// back to `basic`, the chunk's records as the first phase found them.
pub fn resolve_chunk(basic: Vec<Indicator>, detailed: Option<Vec<Indicator>>) -> (r: Vec<Indicator>)
    ensures
        r == chunk_outcome(basic, detailed),
{
    match detailed {
        Some(records) => records,
        None => basic,
    }
}

/// The outcomes of the chunks, one after the other in the order of the
/// chunks; a chunk without an outcome contributes nothing.
pub open spec fn merged(outcomes: Seq<Option<Vec<Indicator>>>) -> Seq<Indicator>
    decreases outcomes.len(),
{
    if outcomes.len() == 0 {
        Seq::empty()
    } else {
        merged(outcomes.drop_last()) + match outcomes.last() {
            Some(records) => records@,
            None => Seq::empty(),
        }
    }
}

/// Concatenates the outcomes of the chunks in the order of the chunks.
/// A chunk whose task did not finish has no outcome and is left out.
pub fn merge_chunks(outcomes: Vec<Option<Vec<Indicator>>>) -> (r: Vec<Indicator>)
    ensures
        r@ == merged(outcomes@),
{
    let mut all: Vec<Indicator> = Vec::new();
    let ghost mut seen: Seq<Option<Vec<Indicator>>> = Seq::empty();
    for outcome in it: outcomes
        invariant
            it.seq() == outcomes@,
            seen == it.seq().take(it.index() as int),
            all@ == merged(seen),
    {
        proof {
            assert(seen.push(outcome).drop_last() =~= seen);
            seen = seen.push(outcome);
            assert(seen =~= it.seq().take(it.index() + 1));
        }
        match outcome {
            Some(mut records) => {
                all.append(&mut records);
            },
            None => {},
        }
        assert(all@ =~= merged(seen));
    }
    assert(seen =~= outcomes@);
    all
}

/// Merging two runs of outcomes one after the other merges each and joins
/// the results.
pub proof fn lemma_merged_concat(a: Seq<Option<Vec<Indicator>>>, b: Seq<Option<Vec<Indicator>>>)
    ensures
        merged(a + b) == merged(a) + merged(b),
    decreases b.len(),
{
    if b.len() == 0 {
        assert(a + b =~= a);
        assert(merged(a) + merged(b) =~= merged(a));
    } else {
        lemma_merged_concat(a, b.drop_last());
        assert((a + b).drop_last() =~= a + b.drop_last());
        assert((a + b).last() == b.last());
        let tail = match b.last() {
            Some(records) => records@,
            None => Seq::empty(),
        };
        assert((merged(a) + merged(b.drop_last())) + tail =~= merged(a) + (merged(b.drop_last()) + tail));
    }
}

/// The first record of a chunk lies within the records, and the chunk
/// holds `size` records or what is left of them.
pub proof fn lemma_chunk_bounds(n: nat, size: nat, k: int)
    requires
        size > 0,
        0 <= k < chunk_count(n, size),
    ensures
        k * size < n,
        (k + 1) * size == k * size + size,
        k + 1 < chunk_count(n, size) ==> k * size + size < n,
{
    let x = (n + size - 1) as int;
    let c = chunk_count(n, size) as int;
    vstd::arithmetic::div_mod::lemma_fundamental_div_mod(x, size as int);
    vstd::arithmetic::div_mod::lemma_mod_bound(x, size as int);
    assert(x == size * c + x % (size as int));
    assert(size * c == c * size) by (nonlinear_arith);
    assert((k + 1) * size == k * size + size) by (nonlinear_arith);
    assert((k + 1) * size <= c * size) by (nonlinear_arith)
        requires
            k + 1 <= c,
            size > 0,
    ;
    if k + 1 < c {
        assert((k + 2) * size <= c * size) by (nonlinear_arith)
            requires
                k + 2 <= c,
                size > 0,
        ;
        assert((k + 2) * size == k * size + size + size) by (nonlinear_arith);
    }
}

/// Where every chunk has an outcome with as many records as the chunk, the
/// outcomes of the first `k` chunks hold as many records as these chunks.
proof fn lemma_merged_prefix_len(
    chunks: Seq<Vec<Indicator>>,
    records: Seq<Indicator>,
    size: nat,
    outcomes: Seq<Option<Vec<Indicator>>>,
    k: int,
)
    requires
        size > 0,
        is_chunking_of(chunks, records, size),
        outcomes.len() == chunks.len(),
        forall|i: int|
            0 <= i < chunks.len() ==> (#[trigger] outcomes[i]) is Some && outcomes[i]->0@.len()
                == chunks[i]@.len(),
        0 <= k <= chunks.len(),
    ensures
        merged(outcomes.take(k)).len() == if k * size <= records.len() {
            k * size
        } else {
            records.len() as int
        },
    decreases k,
{
    if k == 0 {
        assert(outcomes.take(0) =~= Seq::empty());
        assert(0 * size == 0) by (nonlinear_arith);
    } else {
        lemma_merged_prefix_len(chunks, records, size, outcomes, k - 1);
        lemma_chunk_bounds(records.len(), size, k - 1);
        assert(outcomes.take(k).drop_last() =~= outcomes.take(k - 1));
        assert(outcomes.take(k).last() == outcomes[k - 1]);
        assert(chunks[k - 1]@ == chunk_at(records, size, k - 1));
        assert((k - 1 + 1) * size == k * size);
    }
}

/// A failed request costs no record: where every chunk has an outcome with
/// as many records as the chunk, the merged list is as long as the list
/// that was cut into chunks, and a chunk that fell back to its own records
/// shows them at its own place.
pub proof fn lemma_fallback_keeps_records(
    chunks: Seq<Vec<Indicator>>,
    records: Seq<Indicator>,
    size: nat,
    outcomes: Seq<Option<Vec<Indicator>>>,
    k: int,
)
    requires
        size > 0,
        is_chunking_of(chunks, records, size),
        outcomes.len() == chunks.len(),
        forall|i: int|
            0 <= i < chunks.len() ==> (#[trigger] outcomes[i]) is Some && outcomes[i]->0@.len()
                == chunks[i]@.len(),
        0 <= k < chunks.len(),
        outcomes[k] == Some(chunk_outcome(chunks[k], None)),
    ensures
        merged(outcomes).len() == records.len(),
        k * size + chunks[k]@.len() <= records.len(),
        merged(outcomes).subrange(k * size, k * size + chunks[k]@.len()) == chunks[k]@,
        records.subrange(k * size, k * size + chunks[k]@.len()) == chunks[k]@,
{
    let c = chunks.len() as int;
    lemma_merged_prefix_len(chunks, records, size, outcomes, c);
    assert(outcomes.take(c) =~= outcomes);
    lemma_chunk_bounds(records.len(), size, c - 1);
    assert((c - 1 + 1) * size == c * size);
    vstd::arithmetic::div_mod::lemma_fundamental_div_mod((records.len() + size - 1) as int, size as int);
    vstd::arithmetic::div_mod::lemma_mod_bound((records.len() + size - 1) as int, size as int);
    assert(size * c == c * size) by (nonlinear_arith);
    assert(c * size >= records.len());
    lemma_merged_prefix_len(chunks, records, size, outcomes, k);
    lemma_merged_prefix_len(chunks, records, size, outcomes, k + 1);
    lemma_chunk_bounds(records.len(), size, k);
    let head = outcomes.take(k + 1);
    let tail = outcomes.skip(k + 1);
    assert(outcomes =~= head + tail);
    lemma_merged_concat(head, tail);
    assert(head.drop_last() =~= outcomes.take(k));
    assert(head.last() == outcomes[k]);
    assert(chunks[k]@ == chunk_at(records, size, k));
    assert(merged(outcomes).subrange(k * size, k * size + chunks[k]@.len()) =~= chunks[k]@);
}

/// The outcomes of chunks whose requests all failed: each chunk with its
/// own records.
pub open spec fn all_fallen_back(chunks: Seq<Vec<Indicator>>) -> Seq<Option<Vec<Indicator>>> {
    Seq::new(chunks.len(), |k: int| Some(chunk_outcome(chunks[k], None)))
}

proof fn lemma_fallback_prefix(
    chunks: Seq<Vec<Indicator>>,
    records: Seq<Indicator>,
    size: nat,
    k: int,
)
    requires
        size > 0,
        is_chunking_of(chunks, records, size),
        0 <= k <= chunks.len(),
    ensures
        merged(all_fallen_back(chunks).take(k)) == records.subrange(
            0,
            if k * size <= records.len() {
                k * size
            } else {
                records.len() as int
            },
        ),
    decreases k,
{
    let outcomes = all_fallen_back(chunks);
    if k == 0 {
        assert(outcomes.take(0) =~= Seq::empty());
        assert(0 * size == 0) by (nonlinear_arith);
        assert(merged(outcomes.take(0)) =~= records.subrange(0, 0));
    } else {
        lemma_fallback_prefix(chunks, records, size, k - 1);
        lemma_chunk_bounds(records.len(), size, k - 1);
        assert(outcomes.take(k).drop_last() =~= outcomes.take(k - 1));
        assert(outcomes.take(k).last() == outcomes[k - 1]);
        assert(chunks[k - 1]@ == chunk_at(records, size, k - 1));
        assert((k - 1 + 1) * size == k * size);
        let to = if k * size <= records.len() { k * size } else { records.len() as int };
        assert(merged(outcomes.take(k)) =~= records.subrange(0, to));
    }
}

/// Where the request of every chunk failed, the merged list is the list
/// that was cut into chunks: the same records in the same order.
pub proof fn lemma_fallback_of_every_chunk_restores_records(
    chunks: Seq<Vec<Indicator>>,
    records: Seq<Indicator>,
    size: nat,
)
    requires
        size > 0,
        is_chunking_of(chunks, records, size),
    ensures
        merged(all_fallen_back(chunks)) == records,
{
    let outcomes = all_fallen_back(chunks);
    let c = chunks.len() as int;
    lemma_fallback_prefix(chunks, records, size, c);
    assert(outcomes.take(c) =~= outcomes);
    vstd::arithmetic::div_mod::lemma_fundamental_div_mod((records.len() + size - 1) as int, size as int);
    vstd::arithmetic::div_mod::lemma_mod_bound((records.len() + size - 1) as int, size as int);
    assert(size * c == c * size) by (nonlinear_arith);
    assert(c * size >= records.len());
    assert(records.subrange(0, records.len() as int) =~= records);
}

} // verus!
