//! The partitioner: splits an ordered domain `[0, N)` into one contiguous
//! chunk per worker, optionally after a random permutation that decorrelates
//! a chunk's cost from its position.
//!
//! Every chunk but the last holds `N / W` items; the last also takes the
//! remainder `N % W`.

use rand::seq::SliceRandom;
use vstd::prelude::*;

verus! {

/// Why a batch was rejected before any worker was started.
#[derive(Clone, Copy, Debug, PartialEq, Eq, Structural)]
pub enum ConfigError {
    /// No worker was asked for.
    ZeroWorkers,
    /// The domain is not the ordered range `[0, N)`.
    MalformedDomain,
    /// The unsynchronized strategy was asked for without opting in to it.
    UnsoundStrategy,
    /// A bounded bridge was asked for with more room than it can have.
    CapacityTooLarge,
}

/// The ordered domain `[0, n)`.
pub open spec fn range_seq(n: int) -> Seq<usize> {
    Seq::new(n as nat, |i: int| i as usize)
}

/// Index in the domain at which chunk `i` of `w` begins.
pub open spec fn chunk_start(n: int, w: int, i: int) -> int {
    i * (n / w)
}

/// Index in the domain just past the end of chunk `i` of `w`.
pub open spec fn chunk_end(n: int, w: int, i: int) -> int {
    if i == w - 1 {
        n
    } else {
        (i + 1) * (n / w)
    }
}

/// Number of items in chunk `i` of `w`.
pub open spec fn chunk_len(n: int, w: int, i: int) -> int {
    if i == w - 1 {
        n / w + n % w
    } else {
        n / w
    }
}

/// The contents of each chunk, as sequences.
pub open spec fn views(chunks: Seq<Vec<usize>>) -> Seq<Seq<usize>> {
    Seq::new(chunks.len(), |i: int| chunks[i]@)
}

/// `chunks` cuts `items` into `w` contiguous pieces at the chunk boundaries.
pub open spec fn is_split_of(chunks: Seq<Seq<usize>>, items: Seq<usize>, w: int) -> bool {
    &&& chunks.len() == w
    &&& forall|i: int|
        0 <= i < w ==> #[trigger] chunks[i] == items.subrange(
            chunk_start(items.len() as int, w, i),
            chunk_end(items.len() as int, w, i),
        )
}

/// Sum of the lengths of the chunks.
pub open spec fn total_len(chunks: Seq<Seq<usize>>) -> int
    decreases chunks.len(),
{
    if chunks.len() == 0 {
        0
    } else {
        total_len(chunks.drop_last()) + chunks.last().len()
    }
}

/// The chunk boundaries are ordered and lie inside the domain, and the
/// distance between them is the chunk's length.
pub proof fn lemma_chunk_bounds(n: int, w: int, i: int)
    requires
        0 <= n,
        1 <= w,
        0 <= i < w,
    ensures
        0 <= chunk_start(n, w, i) <= chunk_end(n, w, i) <= n,
        chunk_end(n, w, i) - chunk_start(n, w, i) == chunk_len(n, w, i),
        i + 1 < w ==> chunk_start(n, w, i + 1) == chunk_end(n, w, i),
        0 <= n / w,
        0 <= n % w < w,
{
    let q = n / w;
    let r = n % w;
    assert(n == w * q + r && 0 <= r < w) by {
        vstd::arithmetic::div_mod::lemma_fundamental_div_mod(n, w);
        vstd::arithmetic::div_mod::lemma_mod_bound(n, w);
    }
    assert(0 <= q) by {
        vstd::arithmetic::div_mod::lemma_div_pos_is_pos(n, w);
    }
    assert(0 <= i * q) by (nonlinear_arith)
        requires
            0 <= i,
            0 <= q,
    ;
    assert((i + 1) * q == i * q + q) by (nonlinear_arith);
    assert((i + 1) * q <= w * q) by (nonlinear_arith)
        requires
            i + 1 <= w,
            0 <= q,
    ;
    if i == w - 1 {
        assert(i * q == w * q - q) by (nonlinear_arith)
            requires
                i == w - 1,
        ;
    }
}

/// Tells whether `items` is the ordered range `[0, N)`.
pub fn is_domain(items: &Vec<usize>) -> (ok: bool)
    ensures
        ok == (items@ == range_seq(items@.len() as int)),
{
    let mut i: usize = 0;
    while i < items.len()
        invariant
            i <= items@.len(),
            forall|k: int| 0 <= k < i ==> items@[k] == k as usize,
        decreases items@.len() - i,
    {
        if items[i] != i {
            assert(range_seq(items@.len() as int)[i as int] == i);
            return false;
        }
        i = i + 1;
    }
    assert(items@ =~= range_seq(items@.len() as int));
    true
}

/// Builds the ordered domain `[0, domain_size)`.
pub fn domain(domain_size: usize) -> (items: Vec<usize>)
    ensures
        items@ == range_seq(domain_size as int),
{
    let mut items: Vec<usize> = Vec::new();
    let mut i: usize = 0;
    while i < domain_size
        invariant
            i <= domain_size,
            items@ == range_seq(i as int),
        decreases domain_size - i,
    {
        items.push(i);
        i = i + 1;
        assert(items@ =~= range_seq(i as int));
    }
    items
}

/// Copies `items[start..end]` into a vector of its own.
fn copy_range(items: &Vec<usize>, start: usize, end: usize) -> (chunk: Vec<usize>)
    requires
        start <= end <= items@.len(),
    ensures
        chunk@ == items@.subrange(start as int, end as int),
{
    let mut chunk: Vec<usize> = Vec::new();
    let mut k: usize = start;
    while k < end
        invariant
            start <= k <= end <= items@.len(),
            chunk@ == items@.subrange(start as int, k as int),
        decreases end - k,
    {
        chunk.push(items[k]);
        k = k + 1;
        assert(chunk@ =~= items@.subrange(start as int, k as int));
    }
    chunk
}

/// Cuts `items` into `worker_count` contiguous chunks, in order. Every chunk
/// but the last has `len / worker_count` items; the last takes the rest.
pub fn split(items: &Vec<usize>, worker_count: usize) -> (chunks: Vec<Vec<usize>>)
    requires
        worker_count >= 1,
    ensures
        is_split_of(views(chunks@), items@, worker_count as int),
{
    let n: usize = items.len();
    let size: usize = n / worker_count;
    let mut chunks: Vec<Vec<usize>> = Vec::new();
    let mut i: usize = 0;
    let mut start: usize = 0;
    while i < worker_count
        invariant
            1 <= worker_count,
            n == items@.len(),
            size == n / worker_count,
            i <= worker_count,
            chunks@.len() == i,
            i < worker_count ==> start == chunk_start(n as int, worker_count as int, i as int),
            forall|k: int|
                0 <= k < i ==> (#[trigger] chunks@[k])@ == items@.subrange(
                    chunk_start(n as int, worker_count as int, k),
                    chunk_end(n as int, worker_count as int, k),
                ),
        decreases worker_count - i,
    {
        proof {
            lemma_chunk_bounds(n as int, worker_count as int, i as int);
        }
        let end: usize = if i == worker_count - 1 {
            n
        } else {
            start + size
        };
        assert(end == chunk_end(n as int, worker_count as int, i as int)) by (nonlinear_arith)
            requires
                start == i * (n / worker_count),
                size == n / worker_count,
                end == if i == worker_count - 1 {
                    n as int
                } else {
                    start + size
                },
        ;
        let chunk = copy_range(items, start, end);
        chunks.push(chunk);
        start = end;
        i = i + 1;
    }
    assert(views(chunks@).len() == worker_count);
    assert forall|k: int| 0 <= k < worker_count implies #[trigger] views(chunks@)[k]
        == items@.subrange(
        chunk_start(items@.len() as int, worker_count as int, k),
        chunk_end(items@.len() as int, worker_count as int, k),
    ) by {
        assert(views(chunks@)[k] == chunks@[k]@);
    }
    chunks
}

/// Permutes `items` in place with `rand::seq::SliceRandom::shuffle`, driven
/// by the thread-local generator `rand::thread_rng()`. The outside routine
/// only ever swaps two positions, so whatever the generator yields, the
/// result holds the same items the same number of times.
#[verifier::external_body]
fn shuffle_in_place(items: &mut Vec<usize>)
    ensures
        final(items)@.to_multiset() == old(items)@.to_multiset(),
{
    items.shuffle(&mut rand::thread_rng());
}

/// Gives back a random permutation of `items`.
pub fn shuffled(items: &Vec<usize>) -> (arranged: Vec<usize>)
    ensures
        arranged@.to_multiset() == items@.to_multiset(),
        arranged@.len() == items@.len(),
{
    let mut arranged = copy_range(items, 0, items.len());
    assert(arranged@ =~= items@);
    shuffle_in_place(&mut arranged);
    proof {
        vstd::seq_lib::to_multiset_len(arranged@);
        vstd::seq_lib::to_multiset_len(items@);
    }
    arranged
}

/// End of the first `k` chunks of `w`, as an index in the domain.
pub open spec fn prefix_end(n: int, w: int, k: int) -> int {
    if k == 0 {
        0
    } else {
        chunk_end(n, w, k - 1)
    }
}

/// The first `k` chunks of a split, put end to end, are the domain up to the
/// end of chunk `k - 1`.
proof fn lemma_split_prefix(chunks: Seq<Seq<usize>>, items: Seq<usize>, w: int, k: int)
    requires
        1 <= w,
        is_split_of(chunks, items, w),
        0 <= k <= w,
    ensures
        0 <= prefix_end(items.len() as int, w, k) <= items.len(),
        chunks.take(k).flatten() == items.subrange(0, prefix_end(items.len() as int, w, k)),
        total_len(chunks.take(k)) == prefix_end(items.len() as int, w, k),
    decreases k,
{
    let n = items.len() as int;
    if k == 0 {
        assert(chunks.take(0).flatten() =~= items.subrange(0, 0));
    } else {
        lemma_split_prefix(chunks, items, w, k - 1);
        lemma_chunk_bounds(n, w, k - 1);
        if k - 1 > 0 {
            lemma_chunk_bounds(n, w, k - 2);
        }
        let before = chunks.take(k - 1);
        let piece = chunks[k - 1];
        assert(prefix_end(n, w, k - 1) == chunk_start(n, w, k - 1));
        assert(chunks.take(k) =~= before.push(piece));
        assert(chunks.take(k).drop_last() =~= before);
        before.lemma_flatten_push(piece);
        assert(items.subrange(0, chunk_start(n, w, k - 1)) + items.subrange(
            chunk_start(n, w, k - 1),
            chunk_end(n, w, k - 1),
        ) =~= items.subrange(0, chunk_end(n, w, k - 1)));
    }
}

/// A split covers its domain exactly: the chunks put end to end are the
/// domain again, their lengths add up to its length, and each chunk has the
/// length that its position gives it.
pub proof fn lemma_split_covers(chunks: Seq<Seq<usize>>, items: Seq<usize>, w: int)
    requires
        1 <= w,
        is_split_of(chunks, items, w),
    ensures
        chunks.flatten() == items,
        total_len(chunks) == items.len(),
        forall|i: int| 0 <= i < w ==> (#[trigger] chunks[i]).len() == chunk_len(items.len() as int, w, i),
{
    let n = items.len() as int;
    lemma_split_prefix(chunks, items, w, w);
    assert(chunks.take(w) =~= chunks);
    assert(items.subrange(0, n) =~= items);
    assert forall|i: int| 0 <= i < w implies (#[trigger] chunks[i]).len() == chunk_len(n, w, i) by {
        lemma_chunk_bounds(n, w, i);
    }
}

/// The gap between the longest and the shortest chunk of a split is the
/// remainder of the division, for two workers or more.
pub proof fn lemma_split_spread(chunks: Seq<Seq<usize>>, items: Seq<usize>, w: int, i: int)
    requires
        2 <= w,
        is_split_of(chunks, items, w),
        0 <= i < w,
    ensures
        chunks[0].len() <= chunks[i].len() <= chunks[w - 1].len(),
        chunks[w - 1].len() - chunks[0].len() == items.len() % (w as nat),
{
    lemma_split_covers(chunks, items, w);
    lemma_chunk_bounds(items.len() as int, w, i);
}

/// No chunk of a split is empty unless there are more workers than items.
pub proof fn lemma_split_nonempty(chunks: Seq<Seq<usize>>, items: Seq<usize>, w: int, i: int)
    requires
        1 <= w <= items.len(),
        is_split_of(chunks, items, w),
        0 <= i < w,
    ensures
        chunks[i].len() >= 1,
{
    let n = items.len() as int;
    lemma_split_covers(chunks, items, w);
    lemma_chunk_bounds(n, w, i);
    assert(n / w >= 1) by (nonlinear_arith)
        requires
            1 <= w <= n,
    ;
}

/// `chunks` is what the partitioner gives for the domain `items` and `w`
/// workers: one chunk per worker, each of the length that its position gives
/// it, together holding every item of the domain exactly once; in domain
/// order unless the domain was shuffled first.
pub open spec fn is_partition_of(
    chunks: Seq<Seq<usize>>,
    items: Seq<usize>,
    w: int,
    shuffle: bool,
) -> bool {
    &&& chunks.len() == w
    &&& forall|i: int|
        0 <= i < w ==> (#[trigger] chunks[i]).len() == chunk_len(items.len() as int, w, i)
    &&& chunks.flatten().to_multiset() == items.to_multiset()
    &&& !shuffle ==> is_split_of(chunks, items, w)
}

/// The lengths of the chunks add up to the length of what they hold put end
/// to end.
proof fn lemma_total_len(chunks: Seq<Seq<usize>>)
    ensures
        total_len(chunks) == chunks.flatten().len(),
    decreases chunks.len(),
{
    if chunks.len() > 0 {
        lemma_total_len(chunks.drop_last());
        assert(chunks =~= chunks.drop_last().push(chunks.last()));
        chunks.drop_last().lemma_flatten_push(chunks.last());
    }
}

/// The chunk lengths of a partition add up to the size of the domain,
/// shuffled or not.
pub proof fn lemma_partition_covers(
    chunks: Seq<Seq<usize>>,
    items: Seq<usize>,
    w: int,
    shuffle: bool,
)
    requires
        1 <= w,
        is_partition_of(chunks, items, w, shuffle),
    ensures
        total_len(chunks) == items.len(),
{
    lemma_total_len(chunks);
    vstd::seq_lib::to_multiset_len(chunks.flatten());
    vstd::seq_lib::to_multiset_len(items);
}

/// The chunks of a partition differ in length by at most one whenever the
/// division of the domain among the workers leaves a remainder of at most
/// one. A larger remainder all goes to the last chunk.
pub proof fn lemma_partition_balanced(
    chunks: Seq<Seq<usize>>,
    items: Seq<usize>,
    w: int,
    shuffle: bool,
    i: int,
    j: int,
)
    requires
        1 <= w,
        is_partition_of(chunks, items, w, shuffle),
        items.len() % (w as nat) <= 1,
        0 <= i < w,
        0 <= j < w,
    ensures
        chunks[i].len() - chunks[j].len() <= 1,
{
    lemma_chunk_bounds(items.len() as int, w, i);
}

/// Splits the domain into one chunk per worker. With `shuffle` the domain is
/// randomly permuted before it is cut. Rejects a request for no workers, and
/// a domain that is not the ordered range `[0, N)`.
pub fn partition(domain: &Vec<usize>, worker_count: usize, shuffle: bool) -> (outcome: Result<
    Vec<Vec<usize>>,
    ConfigError,
>)
    ensures
        worker_count == 0 ==> outcome == Err::<Vec<Vec<usize>>, ConfigError>(
            ConfigError::ZeroWorkers,
        ),
        worker_count > 0 && domain@ != range_seq(domain@.len() as int) ==> outcome == Err::<
            Vec<Vec<usize>>,
            ConfigError,
        >(ConfigError::MalformedDomain),
        worker_count > 0 && domain@ == range_seq(domain@.len() as int) ==> outcome is Ok
            && is_partition_of(views(outcome->Ok_0@), domain@, worker_count as int, shuffle),
{
    if worker_count == 0 {
        return Err(ConfigError::ZeroWorkers);
    }
    if !is_domain(domain) {
        return Err(ConfigError::MalformedDomain);
    }
    if shuffle {
        let arranged = shuffled(domain);
        let chunks = split(&arranged, worker_count);
        proof {
            lemma_split_covers(views(chunks@), arranged@, worker_count as int);
        }
        Ok(chunks)
    } else {
        let chunks = split(domain, worker_count);
        proof {
            lemma_split_covers(views(chunks@), domain@, worker_count as int);
        }
        Ok(chunks)
    }
}

} // verus!
