//! The work of the pool: each worker checks the endpoints of its chunk in
//! order, and between them the workers check every endpoint once.

use vstd::prelude::*;
use vstd::arithmetic::div_mod::*;
use crate::config::CheckConfig;
use crate::outcome::{AttemptOutcome, CheckResult};
use crate::partition::{chunk_count, chunk_start, chunk_width, chunks_of, concat, lemma_chunk_count,
    lemma_chunk_width, lemma_chunks_cover, partition};
use crate::retry::{check_website, is_check_of, probe_accepts};

verus! {

/// The work of one worker: checks the endpoints of `chunk` one after the
/// other, in the order of the chunk, and returns their records in that
/// order.
pub fn run_worker<P: Fn(&str, u64) -> AttemptOutcome>(
    chunk: &Vec<String>,
    config: &CheckConfig,
    probe: &P,
) -> (results: Vec<CheckResult>)
    requires
        forall|i: int|
            0 <= i < chunk.len() ==> probe_accepts(
                probe,
                #[trigger] chunk[i]@,
                config.timeout() as u64,
            ),
    ensures
        results.len() == chunk.len(),
        forall|i: int|
            0 <= i < chunk.len() ==> is_check_of(
                #[trigger] results[i]@,
                chunk[i]@,
                config.timeout() as u64,
                config.retries(),
                probe,
            ),
{
    let timeout_secs = config.timeout_secs();
    let max_retries = config.max_retries();
    let mut results: Vec<CheckResult> = Vec::new();
    let mut i: usize = 0;
    while i < chunk.len()
        invariant
            i <= chunk.len(),
            results.len() == i,
            timeout_secs == config.timeout(),
            max_retries == config.retries(),
            forall|j: int|
                0 <= j < chunk.len() ==> probe_accepts(probe, #[trigger] chunk[j]@, timeout_secs),
            forall|j: int|
                0 <= j < i ==> is_check_of(
                    #[trigger] results[j]@,
                    chunk[j]@,
                    timeout_secs,
                    max_retries as nat,
                    probe,
                ),
        decreases chunk.len() - i,
    {
        let url = chunk[i].as_str();
        assert(probe_accepts(probe, chunk[i as int]@, timeout_secs));
        let status = check_website(url, timeout_secs, max_retries, probe);
        results.push(status);
        i += 1;
    }
    results
}

/// Checks every endpoint with the workers of `config`, one worker after
/// the other on the calling thread: the list is split into chunks, each
/// chunk is run as a worker runs it, and the records are returned in the
/// order of the list, one for each endpoint.
///
/// Workers that run side by side hand in the same records, chunk by chunk
/// in this order and interleaved between the chunks.
pub fn run_in_turn<P: Fn(&str, u64) -> AttemptOutcome>(
    endpoints: &Vec<String>,
    config: &CheckConfig,
    probe: &P,
) -> (results: Vec<CheckResult>)
    requires
        forall|i: int|
            0 <= i < endpoints.len() ==> probe_accepts(
                probe,
                #[trigger] endpoints[i]@,
                config.timeout() as u64,
            ),
    ensures
        results.len() == endpoints.len(),
        forall|i: int|
            0 <= i < endpoints.len() ==> is_check_of(
                #[trigger] results[i]@,
                endpoints[i]@,
                config.timeout() as u64,
                config.retries(),
                probe,
            ),
{
    let chunks = partition(endpoints, config);
    let workers = config.worker_count();
    let timeout = config.timeout_secs();
    let ghost retries = config.retries();
    let ghost all = endpoints.deep_view();
    let ghost len = endpoints.len() as nat;
    let ghost width = chunk_width(len, workers as nat);
    proof {
        lemma_chunk_width(len, workers as nat);
        if len > 0 {
            lemma_chunk_count(len, width);
        }
        assert(chunks.deep_view().len() == chunks.len());
        assert(0 * width == 0);
    }
    let mut results: Vec<CheckResult> = Vec::new();
    let mut k: usize = 0;
    while k < chunks.len()
        invariant
            k <= chunks.len(),
            len == endpoints.len(),
            all == endpoints.deep_view(),
            all.len() == len,
            timeout == config.timeout(),
            retries == config.retries(),
            len > 0 ==> width >= 1,
            chunks.len() == chunk_count(len, width),
            chunks.deep_view() == Seq::new(
                chunk_count(len, width),
                |j: int| crate::partition::chunk_at(all, width, j),
            ),
            len > 0 ==> chunks.len() * width >= len,
            results.len() == chunk_start(len, width, k as int),
            forall|i: int|
                0 <= i < endpoints.len() ==> probe_accepts(
                    probe,
                    #[trigger] endpoints[i]@,
                    timeout,
                ),
            forall|i: int|
                0 <= i < results.len() ==> is_check_of(
                    #[trigger] results[i]@,
                    endpoints[i]@,
                    timeout,
                    retries,
                    probe,
                ),
        decreases chunks.len() - k,
    {
        let chunk = &chunks[k];
        let ghost from = chunk_start(len, width, k as int);
        let ghost to = chunk_start(len, width, k + 1);
        proof {
            assert(k * width >= 0) by (nonlinear_arith)
                requires
                    k >= 0,
                    width >= 0,
            ;
            assert((k + 1) * width == k * width + width) by (nonlinear_arith);
            assert(0 <= from <= to <= len);
            assert(chunks.deep_view()[k as int] == chunk.deep_view());
            assert(chunk.deep_view() == all.subrange(from, to));
            assert(chunk.len() == chunk.deep_view().len());
            assert forall|i: int| 0 <= i < chunk.len() implies #[trigger] chunk[i]@ == endpoints[from
                + i]@ by {
                assert(chunk.deep_view()[i] == chunk[i]@);
                assert(all.subrange(from, to)[i] == all[from + i]);
                assert(all[from + i] == endpoints[from + i]@);
            }
            assert forall|i: int| 0 <= i < chunk.len() implies probe_accepts(
                probe,
                #[trigger] chunk[i]@,
                timeout,
            ) by {
                assert(probe_accepts(probe, endpoints[from + i]@, timeout));
            }
        }
        let mut chunk_results = run_worker(chunk, config, probe);
        let ghost before = results@;
        let ghost added = chunk_results@;
        results.append(&mut chunk_results);
        proof {
            assert(results@ == before + added);
            assert forall|i: int| 0 <= i < results.len() implies is_check_of(
                #[trigger] results[i]@,
                endpoints[i]@,
                timeout,
                retries,
                probe,
            ) by {
                if i < before.len() {
                    assert(results[i] == before[i]);
                } else {
                    assert(results[i] == added[i - from]);
                    assert(chunk[i - from]@ == endpoints[i]@);
                }
            }
        }
        k += 1;
    }
    proof {
        if len > 0 {
            assert(chunk_start(len, width, k as int) == len);
        } else {
            assert(chunk_start(len, width, k as int) == 0);
        }
    }
    results
}

/// Whatever the number of workers and the order in which their records
/// arrive, the records are one for each endpoint: when worker `k` hands in
/// records for the endpoints of chunk `k`, and `received` holds what the
/// workers handed in, in any order, then `received` has as many entries as
/// there are endpoints and holds each endpoint as often as the list does.
pub proof fn lemma_every_endpoint_checked_once(
    endpoints: Seq<Seq<char>>,
    workers: nat,
    per_worker: Seq<Seq<Seq<char>>>,
    received: Seq<Seq<char>>,
)
    requires
        workers >= 1,
        per_worker == chunks_of(endpoints, workers),
        received.to_multiset() == concat(per_worker).to_multiset(),
    ensures
        per_worker.len() <= workers,
        received.len() == endpoints.len(),
        received.to_multiset() == endpoints.to_multiset(),
        forall|url: Seq<char>| received.contains(url) <==> endpoints.contains(url),
        endpoints.no_duplicates() ==> received.no_duplicates(),
{
    lemma_chunks_cover(endpoints, workers);
    crate::partition::lemma_chunk_shape(endpoints, workers);
    received.to_multiset_ensures();
    endpoints.to_multiset_ensures();
    assert forall|url: Seq<char>| received.contains(url) <==> endpoints.contains(url) by {
        assert(received.to_multiset().count(url) == endpoints.to_multiset().count(url));
    }
    if endpoints.no_duplicates() {
        endpoints.lemma_multiset_has_no_duplicates();
        received.lemma_multiset_has_no_duplicates_conv();
    }
}

} // verus!
