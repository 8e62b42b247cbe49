use vstd::prelude::*;
use vstd::string::StringExecFns;
use crate::item::{Item, is_replayable};
use crate::estimate::{chars_of, estimate, approximate_tokens, fits_in_count};
use crate::segment::{
    greedy_segments, is_partition, replayable_only, filter_response_items, segment_items_by_tokens,
};
use crate::text::{decimal, push_decimal};

verus! {

/// Budget per segment when planning a replay.
pub const MAX_TOKENS_PER_CHUNK: usize = 2000;

/// A replay plan: the replay-eligible items, their greedy segmentation, and
/// the estimate of all of them.
pub struct ReplayPlan {
    pub items: Vec<Item>,
    pub chunks: Vec<(usize, usize, usize)>,
    pub token_total: usize,
}

/// Plans the replay of a transcript's records under a per-segment budget,
/// or `None` when the records hold more text than a `usize` can count.
pub fn plan_replay(records: Vec<Item>, max_tokens_per_chunk: usize) -> (r: Option<ReplayPlan>)
    ensures
        r is None <==> chars_of(replayable_only(records@)) > usize::MAX,
        r matches Some(p) ==> {
            &&& p.is_valid()
            &&& p.items@ == replayable_only(records@)
            &&& greedy_segments(p.items@, p.chunks@, max_tokens_per_chunk as nat)
            &&& p.token_total == estimate(p.items@)
        },
{
    let items = filter_response_items(records);
    if !fits_in_count(items.as_slice()) {
        return None;
    }
    let chunks = segment_items_by_tokens(items.as_slice(), max_tokens_per_chunk);
    let token_total = approximate_tokens(items.as_slice());
    proof {
        lemma_replayable_idempotent(records@);
    }
    Some(ReplayPlan { items, chunks, token_total })
}

pub open spec fn plan_summary_text(segments: nat, tokens: nat) -> Seq<char> {
    "Experimental restore plan: "@ + decimal(segments) + " segments (~"@ + decimal(tokens)
        + " tokens)."@
}

/// Filtering twice keeps what filtering once keeps.
pub proof fn lemma_replayable_idempotent(items: Seq<Item>)
    ensures
        replayable_only(replayable_only(items)) == replayable_only(items),
    decreases items.len(),
{
    if items.len() > 0 {
        lemma_replayable_idempotent(items.drop_last());
        let f = replayable_only(items.drop_last());
        if is_replayable(items.last()) {
            assert(f.push(items.last()).drop_last() =~= f);
        }
    }
}

impl ReplayPlan {
    /// Items all replay-eligible, countable, and partitioned by the chunks.
    pub open spec fn is_valid(&self) -> bool {
        &&& replayable_only(self.items@) == self.items@
        &&& chars_of(self.items@) <= usize::MAX
        &&& is_partition(self.chunks@, self.items@.len())
    }

    /// One line stating how many segments the plan has and its estimate.
    pub fn summary(&self) -> (r: String)
        ensures
            r@ == plan_summary_text(self.chunks@.len(), self.token_total as nat),
    {
        let mut s = String::from_str("Experimental restore plan: ");
        push_decimal(&mut s, self.chunks.len());
        s.append(" segments (~");
        push_decimal(&mut s, self.token_total);
        s.append(" tokens).");
        s
    }
}

} // verus!
