//! Splitting a closed interval of block heights into contiguous chunks, one
//! per worker.

use vstd::arithmetic::div_mod::{
    lemma_div_is_ordered, lemma_div_multiples_vanish, lemma_div_plus_one, lemma_div_pos_is_pos,
    lemma_fundamental_div_mod, lemma_mod_pos_bound,
};
use vstd::arithmetic::mul::{
    lemma_mul_inequality, lemma_mul_is_commutative, lemma_mul_is_distributive_add,
    lemma_mul_is_distributive_add_other_way,
};
use vstd::prelude::*;

verus! {

/// Height of a block; the chain is the source of truth, we only observe it.
pub type BlockHeight = u128;

/// An inclusive, non-empty interval of block heights handed to one worker.
#[derive(Clone, Copy, Debug, PartialEq, Eq, Structural)]
pub struct ScanRange {
    pub start: BlockHeight,
    pub end: BlockHeight,
}

impl ScanRange {
    /// A range is well formed when it holds at least one block.
    pub open spec fn wf(&self) -> bool {
        self.start <= self.end
    }

    /// Whether block `h` lies in the range.
    pub open spec fn contains(&self, h: int) -> bool {
        self.start <= h <= self.end
    }

    /// Number of blocks in the range.
    pub open spec fn width(&self) -> int {
        self.end - self.start + 1
    }

    /// Builds the range `[start, end]`, or nothing when it would be empty.
    pub fn new(start: BlockHeight, end: BlockHeight) -> (r: Option<ScanRange>)
        ensures
            start <= end ==> r == Some(ScanRange { start, end }),
            start > end ==> r.is_none(),
    {
        if start <= end {
            Some(ScanRange { start, end })
        } else {
            None
        }
    }

    /// Whether block `h` lies in the range.
    pub fn holds(&self, h: BlockHeight) -> (b: bool)
        ensures
            b == self.contains(h as int),
    {
        self.start <= h && h <= self.end
    }
}

/// `n / d` rounded up, for `n >= 0` and `d >= 1`.
pub open spec fn ceil_div(n: int, d: int) -> int {
    (n + d - 1) / d
}

/// Number of blocks in `[first, last]`.
pub open spec fn span(first: int, last: int) -> int {
    last - first + 1
}

/// Blocks per worker: the span divided by the budget, rounded up, and never
/// less than one.
pub open spec fn chunk_width(first: int, last: int, budget: int) -> int {
    let c = ceil_div(span(first, last), budget);
    if c < 1 {
        1
    } else {
        c
    }
}

/// First block of the `k`-th chunk.
pub open spec fn chunk_start(first: int, last: int, budget: int, k: int) -> int {
    first + k * chunk_width(first, last, budget)
}

/// Last block of the `k`-th chunk, clipped to `last`.
pub open spec fn chunk_end(first: int, last: int, budget: int, k: int) -> int {
    let e = first + (k + 1) * chunk_width(first, last, budget) - 1;
    if e < last {
        e
    } else {
        last
    }
}

/// How many chunks start at or before `last`.
pub open spec fn chunk_count(first: int, last: int, budget: int) -> int {
    (last - first) / chunk_width(first, last, budget) + 1
}

/// The ranges that cover `[first, last]` with the given worker budget, in
/// ascending order.
pub open spec fn partition_spec(first: BlockHeight, last: BlockHeight, budget: u128) -> Seq<
    ScanRange,
> {
    Seq::new(
        chunk_count(first as int, last as int, budget as int) as nat,
        |k: int|
            ScanRange {
                start: chunk_start(first as int, last as int, budget as int, k) as u128,
                end: chunk_end(first as int, last as int, budget as int, k) as u128,
            },
    )
}

/// Whether some range of `ranges` holds block `h`.
pub open spec fn in_some_range(ranges: Seq<ScanRange>, h: int) -> bool {
    exists|i: int| 0 <= i < ranges.len() && (#[trigger] ranges[i]).contains(h)
}

/// The blocks that lie in some range of `ranges` are exactly those of
/// `[first, last]`.
pub open spec fn covers(ranges: Seq<ScanRange>, first: int, last: int) -> bool {
    forall|h: int| #[trigger] in_some_range(ranges, h) <==> first <= h <= last
}

/// No block lies in two different ranges.
pub open spec fn disjoint(ranges: Seq<ScanRange>) -> bool {
    forall|i: int, j: int, h: int|
        0 <= i < ranges.len() && 0 <= j < ranges.len() && i != j ==> !(#[trigger] ranges[i].contains(h)
            && #[trigger] ranges[j].contains(h))
}

/// Ranges come in strictly ascending order of their first block.
pub open spec fn ascending(ranges: Seq<ScanRange>) -> bool {
    forall|i: int, j: int|
        0 <= i < j < ranges.len() ==> (#[trigger] ranges[i]).start < (#[trigger] ranges[j]).start
}

/// Each range is non-empty and the next one starts right after it.
pub open spec fn contiguous(ranges: Seq<ScanRange>) -> bool {
    &&& forall|i: int| 0 <= i < ranges.len() ==> (#[trigger] ranges[i]).wf()
    &&& forall|i: int|
        0 <= i < ranges.len() - 1 ==> (#[trigger] ranges[i]).end + 1 == ranges[i + 1].start
}

/// The chunk width is `(last - first) / budget + 1`: at least one block, and
/// wide enough for `budget` chunks to reach past `last`.
pub proof fn lemma_chunk_width(first: int, last: int, budget: int)
    requires
        first <= last,
        budget >= 1,
    ensures
        chunk_width(first, last, budget) == (last - first) / budget + 1,
        chunk_width(first, last, budget) >= 1,
        chunk_width(first, last, budget) == ceil_div(span(first, last), budget),
        budget * chunk_width(first, last, budget) >= span(first, last),
{
    let d = last - first;
    lemma_div_plus_one(d, budget);
    lemma_div_pos_is_pos(d, budget);
    assert(span(first, last) + budget - 1 == budget + d);
    lemma_fundamental_div_mod(d, budget);
    lemma_mod_pos_bound(d, budget);
    lemma_mul_is_distributive_add(budget, d / budget, 1);
}

/// Chunk `k` exists exactly when its first block does not exceed `last`.
pub proof fn lemma_chunk_exists(first: int, last: int, budget: int, k: int)
    requires
        first <= last,
        budget >= 1,
        0 <= k,
    ensures
        k < chunk_count(first, last, budget) <==> chunk_start(first, last, budget, k) <= last,
{
    lemma_chunk_width(first, last, budget);
    let c = chunk_width(first, last, budget);
    let d = last - first;
    lemma_fundamental_div_mod(d, c);
    lemma_mod_pos_bound(d, c);
    lemma_mul_is_commutative(c, d / c);
    if k * c <= d {
        lemma_div_is_ordered(k * c, d, c);
        lemma_div_multiples_vanish(k, c);
        lemma_mul_is_commutative(c, k);
    }
    if k <= d / c {
        lemma_mul_inequality(k, d / c, c);
    }
}

/// Where chunk `k` lies: inside `[first, last]`, non-empty, followed at once
/// by chunk `k + 1` if there is one, and ending at `last` if there is none.
pub proof fn lemma_chunk_at(first: int, last: int, budget: int, k: int)
    requires
        first <= last,
        budget >= 1,
        0 <= k < chunk_count(first, last, budget),
    ensures
        first <= chunk_start(first, last, budget, k) <= chunk_end(first, last, budget, k) <= last,
        chunk_end(first, last, budget, k) - chunk_start(first, last, budget, k) + 1 <= chunk_width(
            first,
            last,
            budget,
        ),
        k + 1 < chunk_count(first, last, budget) ==> chunk_end(first, last, budget, k) + 1
            == chunk_start(first, last, budget, k + 1),
        k + 1 < chunk_count(first, last, budget) ==> chunk_end(first, last, budget, k)
            - chunk_start(first, last, budget, k) + 1 == chunk_width(first, last, budget),
        k + 1 == chunk_count(first, last, budget) ==> chunk_end(first, last, budget, k) == last,
{
    lemma_chunk_width(first, last, budget);
    let c = chunk_width(first, last, budget);
    lemma_chunk_exists(first, last, budget, k);
    lemma_chunk_exists(first, last, budget, k + 1);
    lemma_mul_is_distributive_add_other_way(c, k, 1);
    lemma_mul_inequality(0, k, c);
}

/// Chunks do not overlap: an earlier chunk ends before a later one starts.
pub proof fn lemma_chunk_order(first: int, last: int, budget: int, i: int, j: int)
    requires
        first <= last,
        budget >= 1,
        0 <= i < j,
    ensures
        chunk_start(first, last, budget, i) < chunk_start(first, last, budget, j),
        chunk_end(first, last, budget, i) < chunk_start(first, last, budget, j),
{
    lemma_chunk_width(first, last, budget);
    let c = chunk_width(first, last, budget);
    lemma_mul_inequality(i + 1, j, c);
    lemma_mul_is_distributive_add_other_way(c, i, 1);
}

/// The partition is never empty and never longer than the worker budget,
/// and the chunk width it uses is at least one block.
pub proof fn lemma_partition_count(first: BlockHeight, last: BlockHeight, budget: u128)
    requires
        first <= last,
        budget >= 1,
    ensures
        1 <= partition_spec(first, last, budget).len() <= budget,
        ceil_div(span(first as int, last as int), budget as int) >= 1,
{
    let (f, l, b) = (first as int, last as int, budget as int);
    lemma_chunk_width(f, l, b);
    let c = chunk_width(f, l, b);
    lemma_div_pos_is_pos(l - f, c);
    lemma_chunk_exists(f, l, b, b);
    lemma_mul_is_commutative(b, c);
}

/// The ranges of the partition are non-empty, follow one another without a
/// gap, start at `first` and end at `last`.
pub proof fn lemma_partition_contiguous(first: BlockHeight, last: BlockHeight, budget: u128)
    requires
        first <= last,
        budget >= 1,
    ensures
        contiguous(partition_spec(first, last, budget)),
        partition_spec(first, last, budget).first().start == first,
        partition_spec(first, last, budget).last().end == last,
        forall|i: int|
            0 <= i < partition_spec(first, last, budget).len() - 1 ==> (#[trigger] partition_spec(
                first,
                last,
                budget,
            )[i]).width() == chunk_width(first as int, last as int, budget as int),
{
    let (f, l, b) = (first as int, last as int, budget as int);
    let p = partition_spec(first, last, budget);
    lemma_partition_count(first, last, budget);
    assert forall|i: int| 0 <= i < p.len() implies (#[trigger] p[i]).wf() && (i < p.len() - 1
        ==> p[i].end + 1 == p[i + 1].start && p[i].width() == chunk_width(f, l, b)) by {
        lemma_chunk_at(f, l, b, i);
        if i < p.len() - 1 {
            lemma_chunk_at(f, l, b, i + 1);
        }
    }
    lemma_chunk_at(f, l, b, 0);
    lemma_chunk_at(f, l, b, p.len() - 1);
}

/// The union of the ranges of the partition is exactly `[first, last]`, no
/// two of them share a block, and they come in ascending order.
pub proof fn lemma_partition_covers(first: BlockHeight, last: BlockHeight, budget: u128)
    requires
        first <= last,
        budget >= 1,
    ensures
        covers(partition_spec(first, last, budget), first as int, last as int),
        disjoint(partition_spec(first, last, budget)),
        ascending(partition_spec(first, last, budget)),
{
    let (f, l, b) = (first as int, last as int, budget as int);
    let p = partition_spec(first, last, budget);
    lemma_chunk_width(f, l, b);
    let c = chunk_width(f, l, b);
    assert forall|h: int| #[trigger] in_some_range(p, h) <==> f <= h <= l by {
        if in_some_range(p, h) {
            let i = choose|i: int| 0 <= i < p.len() && (#[trigger] p[i]).contains(h);
            lemma_chunk_at(f, l, b, i);
        }
        if f <= h <= l {
            let i = (h - f) / c;
            lemma_fundamental_div_mod(h - f, c);
            lemma_mod_pos_bound(h - f, c);
            lemma_div_pos_is_pos(h - f, c);
            lemma_mul_is_commutative(c, i);
            lemma_mul_is_distributive_add_other_way(c, i, 1);
            lemma_chunk_exists(f, l, b, i);
            lemma_chunk_at(f, l, b, i);
            assert(p[i].contains(h));
        }
    }
    assert forall|i: int, j: int, h: int|
        0 <= i < p.len() && 0 <= j < p.len() && i != j implies !(#[trigger] p[i].contains(h)
        && #[trigger] p[j].contains(h)) by {
        lemma_chunk_at(f, l, b, i);
        lemma_chunk_at(f, l, b, j);
        if i < j {
            lemma_chunk_order(f, l, b, i, j);
        } else {
            lemma_chunk_order(f, l, b, j, i);
        }
    }
    assert forall|i: int, j: int| 0 <= i < j < p.len() implies (#[trigger] p[i]).start < (
    #[trigger] p[j]).start by {
        lemma_chunk_at(f, l, b, i);
        lemma_chunk_at(f, l, b, j);
        lemma_chunk_order(f, l, b, i, j);
    }
}

/// Splits `[first, last]` into at most `worker_budget` contiguous ranges of
/// equal width (the last one may be shorter), in ascending order.
pub fn partition(first: BlockHeight, last: BlockHeight, worker_budget: u128) -> (ranges: Vec<
    ScanRange,
>)
    requires
        first <= last,
        worker_budget >= 1,
    ensures
        ranges@ == partition_spec(first, last, worker_budget),
        1 <= ranges.len() <= worker_budget,
        covers(ranges@, first as int, last as int),
        disjoint(ranges@),
        ascending(ranges@),
        contiguous(ranges@),
{
    let ghost f = first as int;
    let ghost l = last as int;
    let ghost b = worker_budget as int;
    let ghost c = chunk_width(f, l, b);
    proof {
        lemma_chunk_width(f, l, b);
        lemma_partition_count(first, last, worker_budget);
        lemma_partition_contiguous(first, last, worker_budget);
        lemma_partition_covers(first, last, worker_budget);
        lemma_chunk_exists(f, l, b, 0);
    }
    // One less than the chunk width, which itself may not fit the integer type.
    let step: u128 = (last - first) / worker_budget;
    let mut ranges: Vec<ScanRange> = Vec::new();
    let mut start: u128 = first;
    let mut done = false;
    while !done
        invariant
            first <= last,
            worker_budget >= 1,
            f == first,
            l == last,
            b == worker_budget,
            c == chunk_width(f, l, b),
            c == step + 1,
            !done ==> ranges.len() < chunk_count(f, l, b),
            !done ==> start == chunk_start(f, l, b, ranges.len() as int),
            done ==> ranges.len() == chunk_count(f, l, b),
            forall|i: int| 0 <= i < ranges.len() ==> #[trigger] ranges[i] == partition_spec(first, last, worker_budget)[i],
        decreases chunk_count(f, l, b) - ranges.len() + (if done { 0int } else { 1int }),
    {
        let ghost k = ranges.len() as int;
        proof {
            lemma_chunk_at(f, l, b, k);
            lemma_chunk_exists(f, l, b, k + 1);
            lemma_mul_is_distributive_add_other_way(c, k, 1);
        }
        let end: u128 = if last - start > step {
            start + step
        } else {
            last
        };
        ranges.push(ScanRange { start, end });
        if end == last {
            done = true;
        } else {
            start = end + 1;
        }
    }
    assert(ranges@ =~= partition_spec(first, last, worker_budget));
    ranges
}

} // verus!
