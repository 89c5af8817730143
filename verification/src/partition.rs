//! Splitting the list of endpoints into contiguous chunks, one for each
//! worker that will run.

use vstd::prelude::*;
use vstd::arithmetic::div_mod::*;
use vstd::arithmetic::mul::*;
use crate::config::CheckConfig;

verus! {

/// The width of a chunk when `len` endpoints are shared among `workers`
/// workers: `len / workers`, rounded up.
pub open spec fn chunk_width(len: nat, workers: nat) -> nat
    recommends
        workers >= 1,
{
    if len % workers == 0 {
        len / workers
    } else {
        len / workers + 1
    }
}

/// The number of chunks that `len` endpoints make at `width` endpoints to a
/// chunk: `len / width`, rounded up, and none for an empty list.
pub open spec fn chunk_count(len: nat, width: nat) -> nat {
    if len == 0 || width == 0 {
        0
    } else if len % width == 0 {
        len / width
    } else {
        len / width + 1
    }
}

/// Where chunk `k` starts in a list of `len` endpoints.
pub open spec fn chunk_start(len: nat, width: nat, k: int) -> int {
    if k * width <= len {
        k * width
    } else {
        len as int
    }
}

/// Chunk `k` of `endpoints` at `width` endpoints to a chunk.
pub open spec fn chunk_at<T>(endpoints: Seq<T>, width: nat, k: int) -> Seq<T> {
    endpoints.subrange(
        chunk_start(endpoints.len(), width, k),
        chunk_start(endpoints.len(), width, k + 1),
    )
}

/// The chunks of `endpoints` for `workers` workers, in order.
pub open spec fn chunks_of<T>(endpoints: Seq<T>, workers: nat) -> Seq<Seq<T>>
    recommends
        workers >= 1,
{
    let width = chunk_width(endpoints.len(), workers);
    Seq::new(chunk_count(endpoints.len(), width), |k: int| chunk_at(endpoints, width, k))
}

/// Rounding `len / workers` up gives a width of at least one for a list
/// that is not empty, and `workers` chunks of that width hold the list.
pub proof fn lemma_chunk_width(len: nat, workers: nat)
    requires
        workers >= 1,
    ensures
        len > 0 ==> chunk_width(len, workers) >= 1,
        len == 0 ==> chunk_width(len, workers) == 0,
        chunk_width(len, workers) * workers >= len,
        chunk_width(len, workers) <= len,
        workers > len && len > 0 ==> chunk_width(len, workers) == 1,
{
    let q = len / workers;
    let r = len % workers;
    lemma_fundamental_div_mod(len as int, workers as int);
    lemma_mod_bound(len as int, workers as int);
    lemma_div_pos_is_pos(len as int, workers as int);
    assert(len == workers * q + r);
    assert((q + 1) * workers == q * workers + workers) by (nonlinear_arith);
    assert(workers * q == q * workers) by (nonlinear_arith);
    if q >= 1 {
        assert(q * workers >= q) by (nonlinear_arith)
            requires
                q >= 1,
                workers >= 1,
        ;
    }
    if workers > len {
        lemma_basic_div(len as int, workers as int);
    }
}

/// The facts about the number of chunks: it is the least number of chunks
/// of the given width that hold the list.
pub proof fn lemma_chunk_count(len: nat, width: nat)
    requires
        width >= 1,
    ensures
        chunk_count(len, width) * width >= len,
        len > 0 ==> (chunk_count(len, width) - 1) * width < len,
        len > 0 ==> chunk_count(len, width) >= 1,
        chunk_count(len, width) <= len,
{
    let q = len / width;
    let r = len % width;
    lemma_fundamental_div_mod(len as int, width as int);
    lemma_mod_bound(len as int, width as int);
    lemma_div_pos_is_pos(len as int, width as int);
    assert(len == width * q + r);
    assert((q + 1) * width == q * width + width) by (nonlinear_arith);
    assert((q - 1) * width == q * width - width) by (nonlinear_arith);
    assert(width * q == q * width) by (nonlinear_arith);
    assert(q * width >= q) by (nonlinear_arith)
        requires
            q >= 0,
            width >= 1,
    ;
    if q == 0 {
        assert(width * q == 0);
    }
}

/// The chunks of a list, laid end to end, starting with chunk `from`.
pub open spec fn concat_from<T>(chunks: Seq<Seq<T>>, from: int) -> Seq<T>
    decreases chunks.len() - from,
{
    if from < 0 || from >= chunks.len() {
        Seq::empty()
    } else {
        chunks[from] + concat_from(chunks, from + 1)
    }
}

/// All the chunks laid end to end.
pub open spec fn concat<T>(chunks: Seq<Seq<T>>) -> Seq<T> {
    concat_from(chunks, 0)
}

/// From chunk `from` on, the chunks laid end to end are the rest of the
/// list.
proof fn lemma_tail_covers<T>(endpoints: Seq<T>, workers: nat, from: int)
    requires
        workers >= 1,
        0 <= from <= chunks_of(endpoints, workers).len(),
    ensures
        concat_from(chunks_of(endpoints, workers), from) == endpoints.subrange(
            chunk_start(endpoints.len(), chunk_width(endpoints.len(), workers), from),
            endpoints.len() as int,
        ),
    decreases chunks_of(endpoints, workers).len() - from,
{
    let len = endpoints.len();
    let width = chunk_width(len, workers);
    let chunks = chunks_of(endpoints, workers);
    let count = chunk_count(len, width);
    lemma_chunk_width(len, workers);
    if len == 0 {
        assert(concat_from(chunks, from) == endpoints.subrange(0, 0));
    } else {
        lemma_chunk_count(len, width);
        if from == count {
            assert(from * width >= len);
            assert(concat_from(chunks, from) == endpoints.subrange(len as int, len as int));
        } else {
            lemma_tail_covers(endpoints, workers, from + 1);
            assert(from * width <= (count - 1) * width) by (nonlinear_arith)
                requires
                    from <= count - 1,
                    width >= 0,
            ;
            assert(from * width >= 0) by (nonlinear_arith)
                requires
                    from >= 0,
                    width >= 0,
            ;
            assert((from + 1) * width == from * width + width) by (nonlinear_arith);
            let a = chunk_start(len, width, from);
            let b = chunk_start(len, width, from + 1);
            assert(0 <= a <= b <= len);
            assert(chunks[from] == endpoints.subrange(a, b));
            assert(endpoints.subrange(a, b) + endpoints.subrange(b, len as int)
                == endpoints.subrange(a, len as int));
        }
    }
}

/// The chunks are a partition of the list: laid end to end in order they
/// are the list itself, so every endpoint is in exactly one chunk, once.
pub proof fn lemma_chunks_cover<T>(endpoints: Seq<T>, workers: nat)
    requires
        workers >= 1,
    ensures
        concat(chunks_of(endpoints, workers)) == endpoints,
{
    lemma_tail_covers(endpoints, workers, 0);
    assert(0 * chunk_width(endpoints.len(), workers) == 0);
    assert(endpoints.subrange(0, endpoints.len() as int) == endpoints);
}

/// The shape of the chunks: no more chunks than workers, none of them
/// empty, every chunk but the last of the full width and the last no wider.
pub proof fn lemma_chunk_shape<T>(endpoints: Seq<T>, workers: nat)
    requires
        workers >= 1,
    ensures
        chunks_of(endpoints, workers).len() <= workers,
        chunks_of(endpoints, workers).len() <= endpoints.len(),
        forall|k: int|
            0 <= k < chunks_of(endpoints, workers).len() ==> 1 <= (#[trigger] chunks_of(
                endpoints,
                workers,
            )[k]).len() <= chunk_width(endpoints.len(), workers),
        forall|k: int|
            0 <= k < chunks_of(endpoints, workers).len() - 1 ==> (#[trigger] chunks_of(
                endpoints,
                workers,
            )[k]).len() == chunk_width(endpoints.len(), workers),
{
    let len = endpoints.len();
    let width = chunk_width(len, workers);
    let count = chunk_count(len, width);
    let chunks = chunks_of(endpoints, workers);
    lemma_chunk_width(len, workers);
    if len > 0 {
        lemma_chunk_count(len, width);
        assert(count <= workers) by (nonlinear_arith)
            requires
                (count - 1) * width < len,
                width * workers >= len,
                width >= 1,
                workers >= 1,
                count >= 1,
        ;
        assert forall|k: int| 0 <= k < count implies 1 <= (#[trigger] chunks[k]).len() <= width
            && (k < count - 1 ==> chunks[k].len() == width) by {
            assert(k * width <= (count - 1) * width) by (nonlinear_arith)
                requires
                    k <= count - 1,
                    width >= 0,
            ;
            assert(k * width >= 0) by (nonlinear_arith)
                requires
                    k >= 0,
                    width >= 0,
            ;
            assert((k + 1) * width == k * width + width) by (nonlinear_arith);
            if k < count - 1 {
                assert((k + 1) * width <= (count - 1) * width) by (nonlinear_arith)
                    requires
                        k + 1 <= count - 1,
                        width >= 0,
                ;
            }
        }
    }
}

/// An empty list makes no chunks, whatever the number of workers.
pub proof fn lemma_no_endpoints_no_chunks<T>(endpoints: Seq<T>, workers: nat)
    requires
        workers >= 1,
        endpoints.len() == 0,
    ensures
        chunks_of(endpoints, workers).len() == 0,
        concat(chunks_of(endpoints, workers)).len() == 0,
{
}

/// With more workers than endpoints every endpoint is a chunk of its own:
/// there are as many chunks as endpoints, not as workers.
pub proof fn lemma_more_workers_than_endpoints<T>(endpoints: Seq<T>, workers: nat)
    requires
        workers > endpoints.len(),
    ensures
        chunks_of(endpoints, workers).len() == endpoints.len(),
        forall|k: int|
            0 <= k < endpoints.len() ==> #[trigger] chunks_of(endpoints, workers)[k] == seq![
                endpoints[k],
            ],
{
    let len = endpoints.len();
    lemma_chunk_width(len, workers);
    if len > 0 {
        lemma_chunk_count(len, 1);
        assert(len % 1 == 0 && len / 1 == len) by {
            lemma_fundamental_div_mod(len as int, 1);
            lemma_mod_bound(len as int, 1);
        }
        assert forall|k: int| 0 <= k < len implies #[trigger] chunks_of(endpoints, workers)[k]
            == seq![endpoints[k]] by {
            assert(endpoints.subrange(k, k + 1) == seq![endpoints[k]]);
        }
    }
}

/// Splits `endpoints` into the chunks that the workers of `config` will
/// run: as equal as can be, in the order of the list, none of them empty.
pub fn partition(endpoints: &Vec<String>, config: &CheckConfig) -> (chunks: Vec<Vec<String>>)
    ensures
        chunks.deep_view() == chunks_of(endpoints.deep_view(), config.workers()),
{
    let len = endpoints.len();
    let workers = config.worker_count();
    let mut chunks: Vec<Vec<String>> = Vec::new();
    let ghost all = endpoints.deep_view();
    let ghost expected = chunks_of(all, workers as nat);
    proof {
        lemma_chunk_width(len as nat, workers as nat);
    }
    if len == 0 {
        assert(chunks.deep_view() == expected);
        return chunks;
    }
    let width = if len % workers == 0 {
        len / workers
    } else {
        len / workers + 1
    };
    proof {
        lemma_chunk_count(len as nat, width as nat);
        assert(chunks.len() * width == 0) by (nonlinear_arith)
            requires
                chunks.len() == 0,
        ;
    }
    let mut start: usize = 0;
    while start < len
        invariant
            workers >= 1,
            len == endpoints.len(),
            all == endpoints.deep_view(),
            all.len() == len,
            width == chunk_width(len as nat, workers as nat),
            width >= 1,
            expected == chunks_of(all, workers as nat),
            expected.len() == chunk_count(len as nat, width as nat),
            (expected.len() - 1) * width < len,
            expected.len() * width >= len,
            chunks.len() <= expected.len(),
            start == chunk_start(len as nat, width as nat, chunks.len() as int),
            chunks.len() < expected.len() ==> start == chunks.len() * width,
            chunks.deep_view() == expected.take(chunks.len() as int),
        decreases len - start,
    {
        let ghost k = chunks.len() as int;
        proof {
            if k == expected.len() {
                assert(k * width >= len);
            }
            assert(k < expected.len());
            assert((k + 1) * width == k * width + width) by (nonlinear_arith);
        }
        let end = if len - start > width {
            start + width
        } else {
            len
        };
        assert(end == chunk_start(len as nat, width as nat, k + 1));
        let mut chunk: Vec<String> = Vec::new();
        let mut i: usize = start;
        while i < end
            invariant
                start <= i <= end <= len,
                len == endpoints.len(),
                all == endpoints.deep_view(),
                chunk.deep_view() == all.subrange(start as int, i as int),
            decreases end - i,
        {
            chunk.push(endpoints[i].clone());
            proof {
                assert(chunk.deep_view() == all.subrange(start as int, i as int).push(all[i as int]));
            }
            i += 1;
        }
        proof {
            assert(chunk.deep_view() == expected[k]);
            if k + 1 < expected.len() {
                assert((k + 1) * width <= (expected.len() - 1) * width) by (nonlinear_arith)
                    requires
                        k + 1 <= expected.len() - 1,
                        width >= 0,
                ;
            }
        }
        chunks.push(chunk);
        proof {
            assert(chunks.deep_view() == expected.take(k).push(expected[k]));
            assert(expected.take(k + 1) == expected.take(k).push(expected[k]));
        }
        start = end;
    }
    proof {
        let k = chunks.len() as int;
        if k < expected.len() {
            assert(k * width <= (expected.len() - 1) * width) by (nonlinear_arith)
                requires
                    k <= expected.len() - 1,
                    width >= 0,
            ;
        }
        assert(expected.take(k) == expected);
    }
    chunks
}

} // verus!
