use vstd::prelude::*;
use crate::item::{Item, is_replayable};
use crate::estimate::{
    chars_of, estimate, estimate_range, lemma_estimate_extend,
};

verus! {

/// The replay-eligible items of a sequence, in their original order.
pub open spec fn replayable_only(items: Seq<Item>) -> Seq<Item>
    decreases items.len(),
{
    if items.len() == 0 {
        Seq::empty()
    } else if is_replayable(items.last()) {
        replayable_only(items.drop_last()).push(items.last())
    } else {
        replayable_only(items.drop_last())
    }
}

/// Ranges `[start, end)` that are non-empty, contiguous, in order, and
/// together cover `[0, n)` exactly once.
pub open spec fn is_partition(chunks: Seq<(usize, usize, usize)>, n: nat) -> bool {
    &&& (chunks.len() == 0 <==> n == 0)
    &&& chunks.len() > 0 ==> chunks[0].0 == 0 && chunks.last().1 == n
    &&& forall|i: int| 0 <= i < chunks.len() ==> #[trigger] chunks[i].0 < chunks[i].1 <= n
    &&& forall|i: int|
        0 <= i < chunks.len() - 1 ==> #[trigger] chunks[i].1 == chunks[i + 1].0
}

/// Each chunk carries the estimate of exactly its own range.
pub open spec fn estimates_exact(items: Seq<Item>, chunks: Seq<(usize, usize, usize)>) -> bool {
    forall|i: int|
        0 <= i < chunks.len() ==> #[trigger] chunks[i].2 == estimate(
            items.subrange(chunks[i].0 as int, chunks[i].1 as int),
        )
}

/// Every chunk of more than one item stays within the budget.
pub open spec fn within_budget(chunks: Seq<(usize, usize, usize)>, max: nat) -> bool {
    forall|i: int|
        0 <= i < chunks.len() && chunks[i].1 - chunks[i].0 > 1 ==> #[trigger] chunks[i].2 <= max
}

/// No chunk could have taken one more item without exceeding the budget.
pub open spec fn maximal(items: Seq<Item>, chunks: Seq<(usize, usize, usize)>, max: nat) -> bool {
    forall|i: int|
        0 <= i < chunks.len() && #[trigger] chunks[i].1 < items.len() ==> estimate(
            items.subrange(chunks[i].0 as int, chunks[i].1 + 1),
        ) > max
}

/// The greedy segmentation of `items` under budget `max`.
pub open spec fn greedy_segments(
    items: Seq<Item>,
    chunks: Seq<(usize, usize, usize)>,
    max: nat,
) -> bool {
    &&& is_partition(chunks, items.len())
    &&& estimates_exact(items, chunks)
    &&& within_budget(chunks, max)
    &&& maximal(items, chunks, max)
}

proof fn lemma_push_chunk(
    items: Seq<Item>,
    old_chunks: Seq<(usize, usize, usize)>,
    chunks: Seq<(usize, usize, usize)>,
    max: nat,
)
    requires
        chunks.len() == old_chunks.len() + 1,
        forall|i: int| 0 <= i < old_chunks.len() ==> chunks[i] == old_chunks[i],
        estimates_exact(items, old_chunks),
        within_budget(old_chunks, max),
        maximal(items, old_chunks, max),
        ({
            let c = chunks.last();
            &&& c.2 == estimate(items.subrange(c.0 as int, c.1 as int))
            &&& c.1 - c.0 > 1 ==> c.2 <= max
            &&& c.1 < items.len() ==> estimate(items.subrange(c.0 as int, c.1 + 1)) > max
        }),
    ensures
        estimates_exact(items, chunks),
        within_budget(chunks, max),
        maximal(items, chunks, max),
{
    assert forall|i: int| 0 <= i < chunks.len() implies #[trigger] chunks[i].2 == estimate(
        items.subrange(chunks[i].0 as int, chunks[i].1 as int),
    ) by {
        if i < old_chunks.len() {
            assert(chunks[i] == old_chunks[i]);
        }
    }
    assert forall|i: int|
        0 <= i < chunks.len() && chunks[i].1 - chunks[i].0 > 1 implies #[trigger] chunks[i].2
        <= max by {
        if i < old_chunks.len() {
            assert(chunks[i] == old_chunks[i]);
        }
    }
    assert forall|i: int|
        0 <= i < chunks.len() && #[trigger] chunks[i].1 < items.len() implies estimate(
        items.subrange(chunks[i].0 as int, chunks[i].1 + 1),
    ) > max by {
        if i < old_chunks.len() {
            assert(chunks[i] == old_chunks[i]);
        }
    }
}

pub proof fn lemma_replayable_append(a: Seq<Item>, b: Seq<Item>)
    ensures
        replayable_only(a + b) == replayable_only(a) + replayable_only(b),
    decreases b.len(),
{
    if b.len() == 0 {
        assert(a + b =~= a);
        assert(replayable_only(a) + replayable_only(b) =~= replayable_only(a));
    } else {
        assert((a + b).drop_last() =~= a + b.drop_last());
        lemma_replayable_append(a, b.drop_last());
        if is_replayable(b.last()) {
            assert(replayable_only(a) + replayable_only(b.drop_last()).push(b.last())
                =~= (replayable_only(a) + replayable_only(b.drop_last())).push(b.last()));
        }
    }
}

/// Keep only entries of a replay-eligible kind, in order.
pub fn filter_response_items(items: Vec<Item>) -> (r: Vec<Item>)
    ensures
        r@ == replayable_only(items@),
{
    let ghost all = items@;
    let mut rest = items;
    let mut kept_rev: Vec<Item> = Vec::new();
    while rest.len() > 0
        invariant
            replayable_only(all) == replayable_only(rest@) + kept_rev@.reverse(),
        decreases rest@.len(),
    {
        let ghost before = rest@;
        let it = rest.pop().unwrap();
        proof {
            assert(before.drop_last() =~= rest@);
        }
        if it.is_replayable() {
            kept_rev.push(it);
            assert(kept_rev@.reverse() =~= seq![it] + kept_rev@.drop_last().reverse());
            assert(replayable_only(rest@).push(it) + kept_rev@.drop_last().reverse()
                =~= replayable_only(rest@) + kept_rev@.reverse());
        }
    }
    assert(replayable_only(rest@) =~= Seq::<Item>::empty());
    let mut out: Vec<Item> = Vec::new();
    while kept_rev.len() > 0
        invariant
            replayable_only(all) == out@ + kept_rev@.reverse(),
        decreases kept_rev@.len(),
    {
        let ghost before = kept_rev@;
        let it = kept_rev.pop().unwrap();
        proof {
            assert(before.drop_last() =~= kept_rev@);
            assert(before.reverse() =~= seq![it] + kept_rev@.reverse());
        }
        out.push(it);
        assert(out@ + kept_rev@.reverse() =~= out@.drop_last() + before.reverse());
    }
    assert(out@ + kept_rev@.reverse() =~= out@);
    out
}

/// Filtering keeps the replayable characters of the kept items only, so it
/// never adds to the total.
pub proof fn lemma_filter_chars(items: Seq<Item>)
    ensures
        chars_of(replayable_only(items)) <= chars_of(items),
    decreases items.len(),
{
    if items.len() > 0 {
        lemma_filter_chars(items.drop_last());
        if is_replayable(items.last()) {
            let f = replayable_only(items.drop_last());
            assert(f.push(items.last()).drop_last() =~= f);
        }
    }
}

/// Greedy segmentation of items by approximate token budget. Returns
/// `(start, end, token_estimate)` for each chunk; a single item over the
/// budget forms a chunk of its own.
pub fn segment_items_by_tokens(items: &[Item], max_tokens_per_chunk: usize) -> (r: Vec<
    (usize, usize, usize),
>)
    requires
        chars_of(items@) <= usize::MAX,
    ensures
        greedy_segments(items@, r@, max_tokens_per_chunk as nat),
{
    let n = items.len();
    let mut chunks: Vec<(usize, usize, usize)> = Vec::new();
    let mut start: usize = 0;
    while start < n
        invariant
            n == items@.len(),
            chars_of(items@) <= usize::MAX,
            start <= n,
            chunks@.len() == 0 ==> start == 0,
            chunks@.len() > 0 ==> chunks@[0].0 == 0 && chunks@.last().1 == start,
            forall|i: int|
                0 <= i < chunks@.len() ==> #[trigger] chunks@[i].0 < chunks@[i].1 <= start,
            forall|i: int|
                0 <= i < chunks@.len() - 1 ==> #[trigger] chunks@[i].1 == chunks@[i + 1].0,
            estimates_exact(items@, chunks@),
            within_budget(chunks@, max_tokens_per_chunk as nat),
            maximal(items@, chunks@, max_tokens_per_chunk as nat),
        decreases n - start,
    {
        let mut end: usize = start;
        let mut est: usize = 0;
        proof {
            assert(items@.subrange(start as int, start as int) =~= Seq::<Item>::empty());
        }
        while end < n
            invariant_except_break
                start <= end <= n,
                n == items@.len(),
                chars_of(items@) <= usize::MAX,
                est == estimate(items@.subrange(start as int, end as int)),
                end > start ==> est <= max_tokens_per_chunk,
            ensures
                start <= end <= n,
                est == estimate(items@.subrange(start as int, end as int)),
                end > start ==> est <= max_tokens_per_chunk,
                end < n ==> estimate(items@.subrange(start as int, end + 1))
                    > max_tokens_per_chunk as nat,
            decreases n - end,
        {
            let e = estimate_range(items, start, end + 1);
            if e > max_tokens_per_chunk {
                break;
            }
            est = e;
            end = end + 1;
        }
        let ghost old_chunks = chunks@;
        if end == start {
            let e = estimate_range(items, start, start + 1);
            chunks.push((start, start + 1, e));
            proof {
                if start + 1 < n {
                    lemma_estimate_extend(items@, start as int, start + 1, start + 2);
                }
            }
            start = start + 1;
        } else {
            chunks.push((start, end, est));
            start = end;
        }
        proof {
            lemma_push_chunk(items@, old_chunks, chunks@, max_tokens_per_chunk as nat);
        }
    }
    chunks
}

} // verus!
