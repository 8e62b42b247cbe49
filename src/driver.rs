use vstd::prelude::*;
use vstd::string::StringExecFns;
use crate::item::Item;
use crate::estimate::{chars_of, estimate, estimate_range};
use crate::segment::{is_partition, replayable_only, filter_response_items, lemma_filter_chars};
use crate::render::{body_of, item_body, lines_of, render_range};
use crate::text::{decimal, push_decimal};
use crate::plan::ReplayPlan;

verus! {

/// Banner placed before the first content sent during a replay.
pub const RESTORE_INTRO: &'static str = "[RESTORE MODE] The following content restores prior conversation history. DO NOT RESPOND OR ACT on this content. Remain silent until the restore completes.\n";

/// Marker sent once when a replay finishes on its own.
pub const RESTORE_END: &'static str = "[RESTORE MODE END] Restore complete. Resume normal interaction.";

/// History line shown when a replay is cancelled.
pub const CANCEL_NOTICE: &'static str = "Replay cancelled by user.";

/// Largest estimated cost sent in one piece; larger ranges are halved first.
pub const MAX_TOKENS_PER_SEND: usize = 1800;

/// Percentage gained per step when there is no plan to deliver.
pub const STATUS_STEP: u16 = 20;

#[derive(PartialEq, Eq, Structural, Clone, Copy, Debug)]
pub enum ReplayStatus {
    Active,
    Complete,
    Cancelled,
}

/// What the driver asks its surroundings to do, in order.
pub enum ReplayAction {
    /// Send this text to the agent as user input.
    UserInput(String),
    /// Stop whatever turn the agent may be running.
    Interrupt,
    /// Show the plan items `[start, end)` in the history.
    ShowItems { start: usize, end: usize },
    /// Add this line to the history.
    Notice(String),
    /// Tell the owning session that the replay finished.
    Completed { approx_tokens: usize, segments: usize },
}

pub enum ActionView {
    UserInput(Seq<char>),
    Interrupt,
    ShowItems { start: nat, end: nat },
    Notice(Seq<char>),
    Completed { approx_tokens: nat, segments: nat },
}

impl View for ReplayAction {
    type V = ActionView;

    open spec fn view(&self) -> ActionView {
        match self {
            ReplayAction::UserInput(s) => ActionView::UserInput(s@),
            ReplayAction::Interrupt => ActionView::Interrupt,
            ReplayAction::ShowItems { start, end } => ActionView::ShowItems {
                start: *start as nat,
                end: *end as nat,
            },
            ReplayAction::Notice(s) => ActionView::Notice(s@),
            ReplayAction::Completed { approx_tokens, segments } => ActionView::Completed {
                approx_tokens: *approx_tokens as nat,
                segments: *segments as nat,
            },
        }
    }
}

pub open spec fn action_views(acts: Seq<ReplayAction>) -> Seq<ActionView> {
    acts.map_values(|a: ReplayAction| a@)
}

/// Read-only progress figures for display.
pub struct ProgressSnapshot {
    pub percent: u16,
    pub segments_done: usize,
    pub segments_total: usize,
}

/// Sum of the token estimates of a list of chunks.
pub open spec fn sum_tokens(chunks: Seq<(usize, usize, usize)>) -> nat
    decreases chunks.len(),
{
    if chunks.len() == 0 {
        0
    } else {
        sum_tokens(chunks.drop_last()) + chunks.last().2 as nat
    }
}

/// Work left in a list of chunks: a chunk of `k` items may still be halved
/// `k - 1` times and sent once.
pub open spec fn pending_weight(chunks: Seq<(usize, usize, usize)>) -> nat
    decreases chunks.len(),
{
    if chunks.len() == 0 {
        0
    } else {
        pending_weight(chunks.drop_last()) + (2 * (chunks.last().1 - chunks.last().0) - 1) as nat
    }
}

/// `x`, capped at the largest `usize`.
pub open spec fn saturate(x: nat) -> nat {
    if x > usize::MAX {
        usize::MAX as nat
    } else {
        x
    }
}

/// Whole percentage of `sent` out of `total`, capped at one hundred.
pub open spec fn percent_of(sent: nat, total: nat) -> nat {
    if total == 0 || sent * 100 / total > 100 {
        100
    } else {
        sent * 100 / total
    }
}

pub open spec fn summary_text(done: nat, total: nat, tokens: nat) -> Seq<char> {
    "Replay complete: "@ + decimal(done) + "/"@ + decimal(total) + " segments (~"@ + decimal(
        tokens,
    ) + " tokens)."@
}

pub open spec fn min_nat(a: nat, b: nat) -> nat {
    if a < b {
        a
    } else {
        b
    }
}

pub open spec fn at_least_one(a: nat) -> nat {
    if a == 0 {
        1
    } else {
        a
    }
}

/// What sending the payload `body` for items `[s, e)` emits.
pub open spec fn send_views(body: Seq<char>, s: nat, e: nat, intro_sent: bool) -> Seq<ActionView> {
    if body.len() == 0 {
        seq![]
    } else {
        let payload = if intro_sent {
            body
        } else {
            RESTORE_INTRO@ + body
        };
        seq![ActionView::UserInput(payload), ActionView::Interrupt, ActionView::ShowItems { start: s, end: e }]
    }
}

/// What finishing a replay emits: the end marker with no interrupt after
/// it, a summary line, and the completion notice.
pub open spec fn finish_views(done: nat, total: nat, tokens: nat) -> Seq<ActionView> {
    seq![
        ActionView::UserInput(RESTORE_END@),
        ActionView::Notice(summary_text(min_nat(done, total), total, at_least_one(tokens))),
        ActionView::Completed { approx_tokens: at_least_one(tokens), segments: total },
    ]
}

/// Columns a text takes on a terminal.
pub uninterp spec fn display_width(s: Seq<char>) -> nat;

/// Relies on unicode_width's `UnicodeWidthStr::width`: the columns `s` takes
/// on a terminal.
#[verifier::external_body]
fn text_width(s: &str) -> (r: usize)
    ensures
        r == display_width(s@),
{
    unicode_width::UnicodeWidthStr::width(s)
}

/// Status line while nothing has been delivered yet.
pub const READY_TEXT: &'static str = "Replay ready \u{2014} Enter to start; Esc cancels.";

/// Status line after a cancellation.
pub const CANCELLED_TEXT: &'static str = "Restore cancelled";

/// `n` right-aligned in three columns, for `n <= 100`.
pub open spec fn padded3(n: nat) -> Seq<char> {
    if n < 10 {
        "  "@ + decimal(n)
    } else if n < 100 {
        " "@ + decimal(n)
    } else {
        decimal(n)
    }
}

pub open spec fn repeat_char(c: char, n: nat) -> Seq<char> {
    Seq::new(n, |_i: int| c)
}

/// The one-line progress display of a driver in `width` columns: a label
/// with the percentage and a bar of at least ten columns.
pub open spec fn progress_text(m: ReplayModel, width: nat) -> Seq<char> {
    if m.status == ReplayStatus::Cancelled {
        CANCELLED_TEXT@
    } else if m.percent == 0 && m.status == ReplayStatus::Active {
        READY_TEXT@
    } else {
        let label = "Restoring: "@ + padded3(m.percent) + "%"@;
        let lw = display_width(label);
        let avail: nat = if width > lw + 1 {
            (width - lw - 1) as nat
        } else {
            0
        };
        let bar: nat = if avail < 10 {
            10
        } else {
            avail
        };
        let fill: nat = ((bar - 2) as nat * m.percent) / 100;
        let empty: nat = (bar - 2 - fill) as nat;
        label + " ["@ + repeat_char('#', fill) + repeat_char('-', empty) + "]"@
    }
}

/// Abstract state of a replay driver.
pub struct ReplayModel {
    pub status: ReplayStatus,
    pub percent: nat,
    pub total_segments: nat,
    pub token_total: nat,
    pub tokens_sent: nat,
    pub has_plan: bool,
    pub items: Seq<Item>,
    pub chunks: Seq<(usize, usize, usize)>,
    pub cursor: nat,
    pub max_tokens_per_send: nat,
    pub intro_sent: bool,
}

impl ReplayModel {
    /// Whether the driver has nothing left to do.
    pub open spec fn finished(self) -> bool {
        if self.has_plan {
            self.cursor >= self.chunks.len()
        } else {
            self.percent >= 100
        }
    }

    pub open spec fn wf(self) -> bool {
        &&& self.token_total >= 1
        &&& self.token_total <= usize::MAX
        &&& self.percent <= 100
        &&& self.tokens_sent <= usize::MAX
        &&& self.cursor <= usize::MAX
        &&& self.total_segments <= usize::MAX
        &&& self.status != ReplayStatus::Cancelled ==> (self.status == ReplayStatus::Complete
            <==> self.finished())
        &&& if self.has_plan {
            &&& chars_of(self.items) <= usize::MAX
            &&& is_partition(self.chunks, self.items.len())
            &&& self.cursor <= self.chunks.len()
            &&& self.tokens_sent == saturate(sum_tokens(self.chunks.take(self.cursor as int)))
            &&& self.percent == percent_of(self.tokens_sent, self.token_total)
            &&& (self.cursor == 0 ==> !self.intro_sent)
        } else {
            &&& self.chunks.len() == 0
            &&& self.cursor == 0
            &&& !self.intro_sent
            &&& self.tokens_sent == 0
        }
    }

    /// Work left before the driver finishes.
    pub open spec fn remaining_work(self) -> nat {
        if self.has_plan {
            pending_weight(self.chunks.skip(self.cursor as int))
        } else {
            (100 - self.percent) as nat
        }
    }

    /// The state and emissions after one `advance`.
    pub open spec fn after_advance(self) -> (ReplayModel, Seq<ActionView>) {
        if self.status != ReplayStatus::Active {
            (self, seq![])
        } else if !self.has_plan {
            let p: nat = if self.percent + 20 >= 100 {
                100
            } else {
                self.percent + 20
            };
            let m = ReplayModel {
                percent: p,
                status: if p == 100 {
                    ReplayStatus::Complete
                } else {
                    ReplayStatus::Active
                },
                ..self
            };
            let acts = if p == 100 {
                seq![
                    ActionView::Notice(
                        summary_text(
                            min_nat(self.cursor, self.total_segments),
                            self.total_segments,
                            at_least_one(self.tokens_sent),
                        ),
                    ),
                ]
            } else {
                seq![]
            };
            (m, acts)
        } else if self.cursor >= self.chunks.len() {
            (self, seq![])
        } else {
            let c = self.cursor as int;
            let ch = self.chunks[c];
            let s = ch.0 as int;
            let e = ch.1 as int;
            if ch.2 > self.max_tokens_per_send && e - s > 1 {
                let mid = s + (e - s) / 2;
                let left = (ch.0, mid as usize, estimate(self.items.subrange(s, mid)) as usize);
                let right = (mid as usize, ch.1, estimate(self.items.subrange(mid, e)) as usize);
                (
                    ReplayModel {
                        chunks: self.chunks.take(c) + seq![left, right] + self.chunks.skip(c + 1),
                        ..self
                    },
                    seq![],
                )
            } else {
                let body = body_of(self.items.subrange(s, e));
                let sent = saturate(self.tokens_sent + ch.2 as nat);
                let done = c + 1 == self.chunks.len();
                let m = ReplayModel {
                    cursor: (c + 1) as nat,
                    tokens_sent: sent,
                    percent: percent_of(sent, self.token_total),
                    intro_sent: self.intro_sent || body.len() > 0,
                    status: if done {
                        ReplayStatus::Complete
                    } else {
                        ReplayStatus::Active
                    },
                    ..self
                };
                let fin = if done {
                    finish_views((c + 1) as nat, self.total_segments, sent)
                } else {
                    seq![]
                };
                (m, send_views(body, s as nat, e as nat, self.intro_sent) + fin)
            }
        }
    }

    /// Whether anything has been delivered yet.
    pub open spec fn started(self) -> bool {
        self.percent > 0 || self.cursor > 0 || self.intro_sent
    }

    /// The state and emissions after `cancel`.
    pub open spec fn after_cancel(self) -> (ReplayModel, Seq<ActionView>) {
        if self.status != ReplayStatus::Active {
            (self, seq![])
        } else {
            let acts = if self.started() {
                seq![ActionView::Notice(CANCEL_NOTICE@), ActionView::Interrupt]
            } else {
                seq![ActionView::Notice(CANCEL_NOTICE@)]
            };
            (ReplayModel { status: ReplayStatus::Cancelled, ..self }, acts)
        }
    }
}


/// A partition of `[0, n)` into non-empty ranges has at most `n` ranges.
pub proof fn lemma_partition_len(chunks: Seq<(usize, usize, usize)>, n: nat)
    requires
        is_partition(chunks, n),
    ensures
        chunks.len() <= n,
{
    if chunks.len() > 0 {
        assert forall|i: int| 0 <= i < chunks.len() implies #[trigger] chunks[i].1 >= i + 1 by {
            lemma_partition_prefix(chunks, n, i);
        }
        assert(chunks[chunks.len() - 1].1 >= chunks.len());
    }
}

proof fn lemma_partition_prefix(chunks: Seq<(usize, usize, usize)>, n: nat, i: int)
    requires
        is_partition(chunks, n),
        0 <= i < chunks.len(),
    ensures
        chunks[i].1 >= i + 1,
    decreases i,
{
    assert(chunks[i].0 < chunks[i].1);
    if i > 0 {
        lemma_partition_prefix(chunks, n, i - 1);
        assert(chunks[i - 1].1 == chunks[i].0);
    }
}

/// Replacing the range at `c` by its two halves keeps a partition.
pub proof fn lemma_split_partition(
    chunks: Seq<(usize, usize, usize)>,
    n: nat,
    c: int,
    left: (usize, usize, usize),
    right: (usize, usize, usize),
)
    requires
        is_partition(chunks, n),
        0 <= c < chunks.len(),
        left.0 == chunks[c].0,
        left.0 < left.1,
        left.1 == right.0,
        right.0 < right.1,
        right.1 == chunks[c].1,
    ensures
        is_partition(chunks.take(c) + seq![left, right] + chunks.skip(c + 1), n),
{
    let new = chunks.take(c) + seq![left, right] + chunks.skip(c + 1);
    assert(new.len() == chunks.len() + 1);
    assert forall|i: int| 0 <= i < new.len() implies (i < c ==> new[i] == chunks[i]) && (i == c
        ==> new[i] == left) && (i == c + 1 ==> new[i] == right) && (i > c + 1 ==> new[i]
        == chunks[i - 1]) by {}
    assert(new.last() == new[new.len() - 1]);
    assert(chunks.last() == chunks[chunks.len() - 1]);
    assert forall|i: int| 0 <= i < new.len() implies #[trigger] new[i].0 < new[i].1 <= n by {
        if i > c + 1 {
            assert(chunks[i - 1].0 < chunks[i - 1].1 <= n);
        } else if i < c {
            assert(chunks[i].0 < chunks[i].1 <= n);
        } else {
            assert(chunks[c].0 < chunks[c].1 <= n);
        }
    }
    assert forall|i: int| 0 <= i < new.len() - 1 implies #[trigger] new[i].1 == new[i + 1].0 by {
        if i < c - 1 {
            assert(chunks[i].1 == chunks[i + 1].0);
        } else if i == c - 1 {
            assert(chunks[c - 1].1 == chunks[c].0);
        } else if i == c + 1 {
            assert(chunks[c].1 == chunks[c + 1].0);
        } else if i > c + 1 {
            assert(chunks[i - 1].1 == chunks[i].0);
        }
    }
}

pub proof fn lemma_weight_append(a: Seq<(usize, usize, usize)>, b: Seq<(usize, usize, usize)>)
    ensures
        pending_weight(a + b) == pending_weight(a) + pending_weight(b),
    decreases b.len(),
{
    if b.len() == 0 {
        assert(a + b =~= a);
    } else {
        assert((a + b).drop_last() =~= a + b.drop_last());
        lemma_weight_append(a, b.drop_last());
    }
}

proof fn lemma_weight_single(x: (usize, usize, usize))
    ensures
        pending_weight(seq![x]) == (2 * (x.1 - x.0) - 1) as nat,
{
    assert(seq![x].drop_last() =~= Seq::<(usize, usize, usize)>::empty());
    assert(seq![x].last() == x);
    assert(pending_weight(Seq::<(usize, usize, usize)>::empty()) == 0);
}

proof fn lemma_saturate_add(x: nat, t: nat)
    ensures
        saturate(saturate(x) + t) == saturate(x + t),
{
}

#[verifier::rlimit(40)]
proof fn lemma_split_step(m: ReplayModel)
    requires
        m.wf(),
        m.status == ReplayStatus::Active,
        m.has_plan,
        m.cursor < m.chunks.len(),
        m.chunks[m.cursor as int].2 > m.max_tokens_per_send,
        m.chunks[m.cursor as int].1 - m.chunks[m.cursor as int].0 > 1,
    ensures
        m.after_advance().0.wf(),
        m.after_advance().0.chunks.take(m.cursor as int) == m.chunks.take(m.cursor as int),
        m.after_advance().0.remaining_work() < m.remaining_work(),
{
    let m2 = m.after_advance().0;
    let c = m.cursor as int;
    let ch = m.chunks[c];
    let s = ch.0 as int;
    let e = ch.1 as int;
    let mid = s + (e - s) / 2;
    let left = (ch.0, mid as usize, estimate(m.items.subrange(s, mid)) as usize);
    let right = (mid as usize, ch.1, estimate(m.items.subrange(mid, e)) as usize);
    assert(m2.chunks == m.chunks.take(c) + seq![left, right] + m.chunks.skip(c + 1));
    lemma_split_partition(m.chunks, m.items.len(), c, left, right);
    lemma_partition_len(m2.chunks, m.items.len());
    assert(m2.chunks.take(c) =~= m.chunks.take(c));
    assert(m.chunks.skip(c) =~= seq![ch] + m.chunks.skip(c + 1));
    lemma_weight_append(seq![ch], m.chunks.skip(c + 1));
    lemma_weight_single(ch);
    assert(m2.chunks.skip(c) =~= seq![left, right] + m.chunks.skip(c + 1));
    lemma_weight_append(seq![left, right], m.chunks.skip(c + 1));
    assert(seq![left, right] =~= seq![left] + seq![right]);
    lemma_weight_append(seq![left], seq![right]);
    lemma_weight_single(left);
    lemma_weight_single(right);
}

proof fn lemma_send_step(m: ReplayModel)
    requires
        m.wf(),
        m.status == ReplayStatus::Active,
        m.has_plan,
        m.cursor < m.chunks.len(),
        !(m.chunks[m.cursor as int].2 > m.max_tokens_per_send && m.chunks[m.cursor as int].1
            - m.chunks[m.cursor as int].0 > 1),
    ensures
        m.after_advance().0.wf(),
        m.after_advance().0.chunks.take(m.cursor as int) == m.chunks.take(m.cursor as int),
        m.after_advance().0.status != ReplayStatus::Active || m.after_advance().0.remaining_work()
            < m.remaining_work(),
{
    let m2 = m.after_advance().0;
    let c = m.cursor as int;
    let ch = m.chunks[c];
    lemma_partition_len(m.chunks, m.items.len());
    assert(m2.chunks == m.chunks);
    assert(m2.cursor == c + 1);
    assert(m.chunks.skip(c) =~= seq![ch] + m.chunks.skip(c + 1));
    lemma_weight_append(seq![ch], m.chunks.skip(c + 1));
    lemma_weight_single(ch);
    assert(m.chunks.take(c + 1).drop_last() =~= m.chunks.take(c));
    assert(m.chunks.take(c + 1).last() == ch);
    lemma_saturate_add(sum_tokens(m.chunks.take(c)), ch.2 as nat);
}

/// One `advance` keeps the driver well formed, leaves the ranges already
/// sent untouched, and strictly reduces the work left unless it finishes
/// the replay; so driving `advance` until `is_complete` always ends, and
/// the tokens counted are the sum of the estimates of the ranges sent.
pub proof fn lemma_advance_terminates(m: ReplayModel)
    requires
        m.wf(),
        m.status == ReplayStatus::Active,
    ensures
        m.after_advance().0.wf(),
        m.after_advance().0.chunks.take(m.cursor as int) == m.chunks.take(m.cursor as int),
        m.after_advance().0.has_plan ==> m.after_advance().0.tokens_sent == saturate(
            sum_tokens(m.after_advance().0.chunks.take(m.after_advance().0.cursor as int)),
        ),
        m.after_advance().0.status != ReplayStatus::Active || m.after_advance().0.remaining_work()
            < m.remaining_work(),
{
    if m.has_plan {
        let c = m.cursor as int;
        let ch = m.chunks[c];
        if ch.2 > m.max_tokens_per_send && ch.1 - ch.0 > 1 {
            lemma_split_step(m);
        } else {
            lemma_send_step(m);
        }
    }
}

/// Number of interrupts among some emissions.
pub open spec fn count_interrupts(acts: Seq<ActionView>) -> nat
    decreases acts.len(),
{
    if acts.len() == 0 {
        0
    } else {
        count_interrupts(acts.drop_last()) + if acts.last() is Interrupt {
            1nat
        } else {
            0nat
        }
    }
}

/// Whether an emission is the end-of-restore marker.
pub open spec fn is_end_marker(a: ActionView) -> bool {
    a == ActionView::UserInput(RESTORE_END@)
}

/// Number of end-of-restore markers among some emissions.
pub open spec fn count_markers(acts: Seq<ActionView>) -> nat
    decreases acts.len(),
{
    if acts.len() == 0 {
        0
    } else {
        count_markers(acts.drop_last()) + if is_end_marker(acts.last()) {
            1nat
        } else {
            0nat
        }
    }
}

proof fn lemma_counts_append(a: Seq<ActionView>, b: Seq<ActionView>)
    ensures
        count_markers(a + b) == count_markers(a) + count_markers(b),
        count_interrupts(a + b) == count_interrupts(a) + count_interrupts(b),
    decreases b.len(),
{
    if b.len() == 0 {
        assert(a + b =~= a);
    } else {
        assert((a + b).drop_last() =~= a + b.drop_last());
        lemma_counts_append(a, b.drop_last());
    }
}

proof fn lemma_counts_one(x: ActionView)
    ensures
        count_markers(seq![x]) == (if is_end_marker(x) {
            1nat
        } else {
            0nat
        }),
        count_interrupts(seq![x]) == (if x is Interrupt {
            1nat
        } else {
            0nat
        }),
{
    assert(seq![x].drop_last() =~= Seq::<ActionView>::empty());
    assert(seq![x].last() == x);
    assert(count_markers(Seq::<ActionView>::empty()) == 0);
    assert(count_interrupts(Seq::<ActionView>::empty()) == 0);
}

proof fn lemma_counts_two(x: ActionView, y: ActionView)
    ensures
        count_markers(seq![x, y]) == count_markers(seq![x]) + count_markers(seq![y]),
        count_interrupts(seq![x, y]) == count_interrupts(seq![x]) + count_interrupts(seq![y]),
{
    assert(seq![x, y] =~= seq![x] + seq![y]);
    lemma_counts_append(seq![x], seq![y]);
}

proof fn lemma_counts_three(x: ActionView, y: ActionView, z: ActionView)
    ensures
        count_markers(seq![x, y, z]) == count_markers(seq![x]) + count_markers(seq![y])
            + count_markers(seq![z]),
        count_interrupts(seq![x, y, z]) == count_interrupts(seq![x]) + count_interrupts(seq![y])
            + count_interrupts(seq![z]),
{
    assert(seq![x, y, z] =~= seq![x, y] + seq![z]);
    lemma_counts_append(seq![x, y], seq![z]);
    lemma_counts_two(x, y);
}

/// Cancelling a live replay always shows the cancellation notice and ends
/// it for good. Before anything of a plan was delivered it emits no
/// interrupt; once content has been sent it emits exactly one.
pub proof fn lemma_cancel_interrupts(m: ReplayModel)
    requires
        m.wf(),
        m.status == ReplayStatus::Active,
    ensures
        m.after_cancel().0.status == ReplayStatus::Cancelled,
        m.after_cancel().1[0] == ActionView::Notice(CANCEL_NOTICE@),
        m.has_plan && m.cursor == 0 ==> count_interrupts(m.after_cancel().1) == 0,
        m.intro_sent ==> count_interrupts(m.after_cancel().1) == 1,
        m.after_cancel().0.after_advance().1.len() == 0,
        m.after_cancel().0.after_cancel().1.len() == 0,
{
    let notice = ActionView::Notice(CANCEL_NOTICE@);
    lemma_counts_one(notice);
    lemma_counts_one(ActionView::Interrupt);
    lemma_counts_two(notice, ActionView::Interrupt);
    if m.has_plan && m.cursor == 0 {
        assert(m.chunks.take(0) =~= Seq::<(usize, usize, usize)>::empty());
    }
}

proof fn lemma_lines_end(ts: Seq<String>)
    ensures
        lines_of(ts).len() > 0 ==> lines_of(ts).last() == '\n',
{
    reveal_strlit("\n");
    if ts.len() > 0 {
        assert(lines_of(ts).last() == (lines_of(ts.drop_last()) + ts.last()@ + "\n"@).last());
    }
}

/// Every non-empty payload body ends with a newline.
proof fn lemma_body_ends_with_newline(items: Seq<Item>)
    ensures
        body_of(items).len() > 0 ==> body_of(items).last() == '\n',
    decreases items.len(),
{
    reveal_strlit("\n");
    if items.len() > 0 {
        let it = items.last();
        lemma_body_ends_with_newline(items.drop_last());
        match it {
            Item::Message { texts, .. } => lemma_lines_end(texts@),
            Item::FunctionCallOutput { fragments: Some(f), .. } => lemma_lines_end(f@),
            _ => {},
        }
        let b = body_of(items.drop_last());
        let x = item_body(it);
        if x.len() > 0 {
            assert((b + x).last() == x.last());
        } else {
            assert(b + x =~= b);
        }
    }
}

proof fn lemma_send_has_no_marker(body: Seq<char>, s: nat, e: nat, intro_sent: bool)
    requires
        body.len() > 0 ==> body.last() == '\n',
    ensures
        count_markers(send_views(body, s, e, intro_sent)) == 0,
        count_interrupts(send_views(body, s, e, intro_sent)) == (if body.len() > 0 {
            1nat
        } else {
            0nat
        }),
{
    reveal_strlit("[RESTORE MODE END] Restore complete. Resume normal interaction.");
    let acts = send_views(body, s, e, intro_sent);
    if body.len() > 0 {
        let payload = if intro_sent {
            body
        } else {
            RESTORE_INTRO@ + body
        };
        assert(payload.last() == '\n');
        assert(RESTORE_END@.last() == '.');
        assert(payload != RESTORE_END@);
        let x = ActionView::UserInput(payload);
        let y = ActionView::Interrupt;
        let z = ActionView::ShowItems { start: s, end: e };
        lemma_counts_three(x, y, z);
        lemma_counts_one(x);
        lemma_counts_one(y);
        lemma_counts_one(z);
    }
}

/// The end-of-restore marker is emitted by exactly the step that finishes
/// a plan, once, and it is never followed by an interrupt.
pub proof fn lemma_end_marker(m: ReplayModel)
    requires
        m.wf(),
    ensures
        count_markers(m.after_advance().1) == (if m.has_plan && m.status == ReplayStatus::Active
            && m.after_advance().0.status == ReplayStatus::Complete {
            1nat
        } else {
            0nat
        }),
        forall|i: int|
            0 <= i < m.after_advance().1.len() && is_end_marker(#[trigger] m.after_advance().1[i])
                ==> i + 1 < m.after_advance().1.len() && m.after_advance().1[i + 1] is Notice,
{
    reveal_strlit("[RESTORE MODE END] Restore complete. Resume normal interaction.");
    let acts = m.after_advance().1;
    if m.status == ReplayStatus::Active && m.has_plan && m.cursor < m.chunks.len() {
        let c = m.cursor as int;
        let ch = m.chunks[c];
        let s = ch.0 as int;
        let e = ch.1 as int;
        if !(ch.2 > m.max_tokens_per_send && e - s > 1) {
            let body = body_of(m.items.subrange(s, e));
            lemma_body_ends_with_newline(m.items.subrange(s, e));
            let sv = send_views(body, s as nat, e as nat, m.intro_sent);
            lemma_send_has_no_marker(body, s as nat, e as nat, m.intro_sent);
            assert forall|i: int| 0 <= i < sv.len() implies !is_end_marker(#[trigger] sv[i]) by {
                if body.len() > 0 {
                    let payload = if m.intro_sent {
                        body
                    } else {
                        RESTORE_INTRO@ + body
                    };
                    assert(payload.last() == '\n');
                }
            }
            if c + 1 == m.chunks.len() {
                let fin = finish_views((c + 1) as nat, m.total_segments, m.after_advance().0.tokens_sent);
                assert(acts == sv + fin);
                lemma_counts_append(sv, fin);
                lemma_counts_three(fin[0], fin[1], fin[2]);
                assert(fin =~= seq![fin[0], fin[1], fin[2]]);
                lemma_counts_one(fin[0]);
                lemma_counts_one(fin[1]);
                lemma_counts_one(fin[2]);
                assert forall|i: int| 0 <= i < acts.len() && is_end_marker(#[trigger] acts[i])
                    implies i + 1 < acts.len() && acts[i + 1] is Notice by {
                    if i < sv.len() {
                        assert(acts[i] == sv[i]);
                    }
                }
            } else {
                assert(acts =~= sv);
            }
        }
    } else if m.status == ReplayStatus::Active && !m.has_plan {
        let p: nat = if m.percent + 20 >= 100 {
            100
        } else {
            m.percent + 20
        };
        if p == 100 {
            lemma_counts_one(acts[0]);
            assert(acts =~= seq![acts[0]]);
        }
    }
}

/// Step-wise delivery of a replay plan: each `advance` either halves a range
/// that is too large to send or sends one range followed by an interrupt.
pub struct RestoreProgressView {
    status: ReplayStatus,
    percent: u16,
    total_segments: usize,
    token_total: usize,
    token_sent: usize,
    items: Option<Vec<Item>>,
    chunks: Vec<(usize, usize, usize)>,
    cursor: usize,
    max_tokens_per_send: usize,
    sent_intro: bool,
}

impl View for RestoreProgressView {
    type V = ReplayModel;

    closed spec fn view(&self) -> ReplayModel {
        ReplayModel {
            status: self.status,
            percent: self.percent as nat,
            total_segments: self.total_segments as nat,
            token_total: self.token_total as nat,
            tokens_sent: self.token_sent as nat,
            has_plan: self.items is Some,
            items: match self.items {
                Some(v) => v@,
                None => Seq::empty(),
            },
            chunks: self.chunks@,
            cursor: self.cursor as nat,
            max_tokens_per_send: self.max_tokens_per_send as nat,
            intro_sent: self.sent_intro,
        }
    }
}

fn summary_string(done: usize, total: usize, tokens: usize) -> (r: String)
    ensures
        r@ == summary_text(done as nat, total as nat, tokens as nat),
{
    let mut s = String::from_str("Replay complete: ");
    push_decimal(&mut s, done);
    s.append("/");
    push_decimal(&mut s, total);
    s.append(" segments (~");
    push_decimal(&mut s, tokens);
    s.append(" tokens).");
    s
}

fn percent_value(sent: usize, total: usize) -> (r: u16)
    requires
        total >= 1,
    ensures
        r as nat == percent_of(sent as nat, total as nat),
{
    let p: u128 = (sent as u128) * 100 / (total as u128);
    if p > 100 {
        100
    } else {
        p as u16
    }
}

impl RestoreProgressView {
    /// A driver with no plan: each step only raises the shown percentage.
    pub fn new(total_segments: usize) -> (r: Self)
        ensures
            r@.wf(),
            r@.status == ReplayStatus::Active,
            !r@.has_plan,
            r@.percent == 0,
            r@.total_segments == total_segments,
            r@.token_total == 100,
            r@.tokens_sent == 0,
            r@.cursor == 0,
            r@.max_tokens_per_send == MAX_TOKENS_PER_SEND,
            !r@.intro_sent,
    {
        RestoreProgressView {
            status: ReplayStatus::Active,
            percent: 0,
            total_segments,
            token_total: 100,
            token_sent: 0,
            items: None,
            chunks: Vec::new(),
            cursor: 0,
            max_tokens_per_send: MAX_TOKENS_PER_SEND,
            sent_intro: false,
        }
    }

    /// A driver for a plan: the replay-eligible `items`, their partition
    /// into `chunks`, and the overall estimate used for percentages.
    pub fn from_plan(items: Vec<Item>, chunks: Vec<(usize, usize, usize)>, token_total: usize) -> (r: Self)
        requires
            chars_of(items@) <= usize::MAX,
            is_partition(chunks@, replayable_only(items@).len()),
        ensures
            r@.wf(),
            r@.status == (if chunks@.len() == 0 {
                ReplayStatus::Complete
            } else {
                ReplayStatus::Active
            }),
            r@.has_plan,
            r@.items == replayable_only(items@),
            r@.chunks == chunks@,
            r@.percent == 0,
            r@.total_segments == chunks@.len(),
            r@.token_total == (if token_total == 0 {
                1
            } else {
                token_total as nat
            }),
            r@.tokens_sent == 0,
            r@.cursor == 0,
            r@.max_tokens_per_send == MAX_TOKENS_PER_SEND,
            !r@.intro_sent,
    {
        proof {
            lemma_filter_chars(items@);
        }
        let kept = filter_response_items(items);
        let total_segments = chunks.len();
        let status = if total_segments == 0 {
            ReplayStatus::Complete
        } else {
            ReplayStatus::Active
        };
        let r = RestoreProgressView {
            status,
            percent: 0,
            total_segments,
            token_total: if token_total == 0 {
                1
            } else {
                token_total
            },
            token_sent: 0,
            items: Some(kept),
            chunks,
            cursor: 0,
            max_tokens_per_send: MAX_TOKENS_PER_SEND,
            sent_intro: false,
        };
        assert(r@.chunks.take(0) =~= Seq::<(usize, usize, usize)>::empty());
        r
    }

    /// Replaces whatever this driver was doing with a fresh plan.
    pub fn accept(&mut self, plan: ReplayPlan)
        requires
            plan.is_valid(),
        ensures
            final(self)@.wf(),
            final(self)@.has_plan,
            final(self)@.items == plan.items@,
            final(self)@.chunks == plan.chunks@,
            final(self)@.status == (if plan.chunks@.len() == 0 {
                ReplayStatus::Complete
            } else {
                ReplayStatus::Active
            }),
            final(self)@.cursor == 0,
            final(self)@.tokens_sent == 0,
            final(self)@.percent == 0,
            final(self)@.token_total == (if plan.token_total == 0 {
                1
            } else {
                plan.token_total as nat
            }),
            !final(self)@.intro_sent,
    {
        *self = RestoreProgressView::from_plan(plan.items, plan.chunks, plan.token_total);
    }

    /// Sets the largest estimate sent in one piece; larger ranges of more
    /// than one item are halved before sending.
    pub fn set_max_tokens_per_send(&mut self, max: usize)
        requires
            old(self)@.wf(),
        ensures
            final(self)@.wf(),
            final(self)@ == (ReplayModel { max_tokens_per_send: max as nat, ..old(self)@ }),
    {
        self.max_tokens_per_send = max;
    }

    /// True once the replay has finished or been cancelled.
    pub fn is_complete(&self) -> (r: bool)
        ensures
            r == (self@.status != ReplayStatus::Active),
    {
        self.status != ReplayStatus::Active
    }

    pub fn status(&self) -> (r: ReplayStatus)
        ensures
            r == self@.status,
    {
        self.status
    }

    /// Running sum of the estimates of the ranges sent so far.
    pub fn tokens_sent(&self) -> (r: usize)
        ensures
            r == self@.tokens_sent,
    {
        self.token_sent
    }

    /// Index of the next range to deliver.
    pub fn cursor(&self) -> (r: usize)
        ensures
            r == self@.cursor,
    {
        self.cursor
    }

    /// The plan's items, if this driver has a plan.
    pub fn plan_items(&self) -> (r: Option<&Vec<Item>>)
        ensures
            (r is Some) == self@.has_plan,
            r matches Some(v) ==> v@ == self@.items,
    {
        match &self.items {
            Some(v) => Some(v),
            None => None,
        }
    }

    /// The current list of ranges, including any halves made so far.
    pub fn segments(&self) -> (r: &Vec<(usize, usize, usize)>)
        ensures
            r@ == self@.chunks,
    {
        &self.chunks
    }

    /// Percentage, ranges delivered, and ranges in the current plan.
    pub fn progress(&self) -> (r: ProgressSnapshot)
        ensures
            r.percent == self@.percent,
            r.segments_done == self@.cursor,
            r.segments_total == (if self@.has_plan {
                self@.chunks.len()
            } else {
                self@.total_segments
            }),
    {
        let total = if self.items.is_some() {
            self.chunks.len()
        } else {
            self.total_segments
        };
        ProgressSnapshot { percent: self.percent, segments_done: self.cursor, segments_total: total }
    }

    /// The single step of a replay. A range whose estimate exceeds the send
    /// ceiling and that holds more than one item is replaced by its two
    /// halves, with nothing sent. Otherwise the range's text is sent as one
    /// user input, immediately followed by an interrupt (the first such send
    /// carries the banner), the range is shown in the history, its estimate
    /// is counted, and the cursor moves on. After the last range the end
    /// marker is sent without an interrupt, a summary line is shown, and
    /// completion is reported.
    pub fn advance(&mut self) -> (acts: Vec<ReplayAction>)
        requires
            old(self)@.wf(),
        ensures
            final(self)@.wf(),
            (final(self)@, action_views(acts@)) == old(self)@.after_advance(),
    {
        if self.status != ReplayStatus::Active {
            let acts: Vec<ReplayAction> = Vec::new();
            assert(action_views(acts@) =~= seq![]);
            return acts;
        }
        proof {
            lemma_advance_terminates(self@);
        }
        if self.items.is_none() {
            return self.status_step();
        }
        let c = self.cursor;
        let (s, e, t) = self.chunks[c];
        if t > self.max_tokens_per_send && e - s > 1 {
            self.split_at_cursor();
            let acts: Vec<ReplayAction> = Vec::new();
            assert(action_views(acts@) =~= seq![]);
            acts
        } else {
            self.send_at_cursor()
        }
    }

    fn status_step(&mut self) -> (acts: Vec<ReplayAction>)
        requires
            old(self)@.wf(),
            old(self)@.status == ReplayStatus::Active,
            !old(self)@.has_plan,
        ensures
            (final(self)@, action_views(acts@)) == old(self)@.after_advance(),
    {
        let ghost m = self@;
        let mut acts: Vec<ReplayAction> = Vec::new();
        let p: u16 = if self.percent + STATUS_STEP >= 100 {
            100
        } else {
            self.percent + STATUS_STEP
        };
        self.percent = p;
        if p == 100 {
            self.status = ReplayStatus::Complete;
            let done = if self.cursor < self.total_segments {
                self.cursor
            } else {
                self.total_segments
            };
            let toks = if self.token_sent == 0 {
                1
            } else {
                self.token_sent
            };
            acts.push(ReplayAction::Notice(summary_string(done, self.total_segments, toks)));
        }
        assert(action_views(acts@) =~= m.after_advance().1);
        assert(self@ == m.after_advance().0);
        acts
    }

    fn split_at_cursor(&mut self)
        requires
            old(self)@.wf(),
            old(self)@.status == ReplayStatus::Active,
            old(self)@.has_plan,
            old(self)@.cursor < old(self)@.chunks.len(),
            old(self)@.chunks[old(self)@.cursor as int].2 > old(self)@.max_tokens_per_send,
            old(self)@.chunks[old(self)@.cursor as int].1 - old(self)@.chunks[old(
                self,
            )@.cursor as int].0 > 1,
        ensures
            final(self)@ == old(self)@.after_advance().0,
    {
        let ghost m = self@;
        let c = self.cursor;
        let (s, e, _t) = self.chunks[c];
        let mid = s + (e - s) / 2;
        let (left, right) = match &self.items {
            Some(items) => (
                estimate_range(items.as_slice(), s, mid),
                estimate_range(items.as_slice(), mid, e),
            ),
            None => (0, 0),
        };
        self.chunks.remove(c);
        self.chunks.insert(c, (mid, e, right));
        self.chunks.insert(c, (s, mid, left));
        assert(self.chunks@ =~= m.chunks.take(c as int) + seq![(s, mid, left), (mid, e, right)]
            + m.chunks.skip(c + 1));
        assert(self@ == m.after_advance().0);
    }

    fn send_at_cursor(&mut self) -> (acts: Vec<ReplayAction>)
        requires
            old(self)@.wf(),
            old(self)@.status == ReplayStatus::Active,
            old(self)@.has_plan,
            old(self)@.cursor < old(self)@.chunks.len(),
            !(old(self)@.chunks[old(self)@.cursor as int].2 > old(self)@.max_tokens_per_send
                && old(self)@.chunks[old(self)@.cursor as int].1 - old(self)@.chunks[old(
                self,
            )@.cursor as int].0 > 1),
        ensures
            (final(self)@, action_views(acts@)) == old(self)@.after_advance(),
    {
        let ghost m = self@;
        let c = self.cursor;
        let (s, e, t) = self.chunks[c];
        let body = match &self.items {
            Some(items) => render_range(items.as_slice(), s, e),
            None => String::new(),
        };
        let n = self.chunks.len();
        let mut acts = self.send_body(body, s, e);
        let sent = if t > usize::MAX - self.token_sent {
            usize::MAX
        } else {
            self.token_sent + t
        };
        self.token_sent = sent;
        self.percent = percent_value(sent, self.token_total);
        self.cursor = c + 1;
        if c + 1 == n {
            self.status = ReplayStatus::Complete;
            let ghost sends = action_views(acts@);
            acts.push(ReplayAction::UserInput(String::from_str(RESTORE_END)));
            let done = if c + 1 < self.total_segments {
                c + 1
            } else {
                self.total_segments
            };
            let toks = if sent == 0 {
                1
            } else {
                sent
            };
            acts.push(ReplayAction::Notice(summary_string(done, self.total_segments, toks)));
            acts.push(ReplayAction::Completed { approx_tokens: toks, segments: self.total_segments });
            assert(action_views(acts@) =~= sends + finish_views(
                (c + 1) as nat,
                self.total_segments as nat,
                sent as nat,
            ));
        } else {
            assert(action_views(acts@) =~= action_views(acts@) + seq![]);
        }
        assert(action_views(acts@) == m.after_advance().1);
        assert(self@ == m.after_advance().0);
        acts
    }

    /// Emits the sending of `body` for items `[s, e)`, if it holds any text.
    fn send_body(&mut self, body: String, s: usize, e: usize) -> (acts: Vec<ReplayAction>)
        ensures
            action_views(acts@) == send_views(body@, s as nat, e as nat, old(self).sent_intro),
            final(self).sent_intro == (old(self).sent_intro || body@.len() > 0),
            final(self).status == old(self).status,
            final(self).percent == old(self).percent,
            final(self).total_segments == old(self).total_segments,
            final(self).token_total == old(self).token_total,
            final(self).token_sent == old(self).token_sent,
            final(self).items == old(self).items,
            final(self).chunks == old(self).chunks,
            final(self).cursor == old(self).cursor,
            final(self).max_tokens_per_send == old(self).max_tokens_per_send,
    {
        let mut acts: Vec<ReplayAction> = Vec::new();
        let ghost body_v = body@;
        if !body.as_str().is_empty() {
            let payload = if self.sent_intro {
                body
            } else {
                let mut p = String::from_str(RESTORE_INTRO);
                p.append(body.as_str());
                p
            };
            self.sent_intro = true;
            acts.push(ReplayAction::UserInput(payload));
            acts.push(ReplayAction::Interrupt);
            acts.push(ReplayAction::ShowItems { start: s, end: e });
        }
        assert(action_views(acts@) =~= send_views(body_v, s as nat, e as nat, old(self).sent_intro));
        acts
    }

    /// Stops the replay. Emits the cancellation notice, and an interrupt if
    /// anything had been delivered.
    pub fn cancel(&mut self) -> (acts: Vec<ReplayAction>)
        requires
            old(self)@.wf(),
        ensures
            final(self)@.wf(),
            (final(self)@, action_views(acts@)) == old(self)@.after_cancel(),
    {
        let mut acts: Vec<ReplayAction> = Vec::new();
        if self.status != ReplayStatus::Active {
            assert(action_views(acts@) =~= seq![]);
            return acts;
        }
        self.status = ReplayStatus::Cancelled;
        acts.push(ReplayAction::Notice(String::from_str(CANCEL_NOTICE)));
        if self.percent > 0 || self.cursor > 0 || self.sent_intro {
            acts.push(ReplayAction::Interrupt);
        }
        assert(action_views(acts@) =~= old(self)@.after_cancel().1);
        assert(self@ == old(self)@.after_cancel().0);
        acts
    }
}

fn push_repeat(out: &mut String, piece: &str, n: usize)
    requires
        piece@.len() == 1,
    ensures
        final(out)@ == old(out)@ + repeat_char(piece@[0], n as nat),
{
    let mut i: usize = 0;
    while i < n
        invariant
            i <= n,
            piece@.len() == 1,
            out@ == old(out)@ + repeat_char(piece@[0], i as nat),
        decreases n - i,
    {
        out.append(piece);
        assert(repeat_char(piece@[0], (i + 1) as nat) =~= repeat_char(piece@[0], i as nat) + piece@);
        i = i + 1;
    }
}

impl RestoreProgressView {
    /// The one-line progress display in `width` columns.
    pub fn progress_line(&self, width: u16) -> (r: String)
        requires
            self@.wf(),
        ensures
            r@ == progress_text(self@, width as nat),
    {
        if self.status == ReplayStatus::Cancelled {
            return String::from_str(CANCELLED_TEXT);
        }
        if self.percent == 0 && self.status == ReplayStatus::Active {
            return String::from_str(READY_TEXT);
        }
        let pct = self.percent;
        let mut label = String::from_str("Restoring: ");
        if pct < 10 {
            label.append("  ");
        } else if pct < 100 {
            label.append(" ");
        }
        push_decimal(&mut label, pct as usize);
        label.append("%");
        assert(label@ =~= "Restoring: "@ + padded3(pct as nat) + "%"@);
        let lw = text_width(label.as_str());
        let w = width as usize;
        let avail: usize = if w > lw && w - lw > 1 {
            w - lw - 1
        } else {
            0
        };
        let bar: usize = if avail < 10 {
            10
        } else {
            avail
        };
        assert((bar - 2) * (pct as nat) <= (bar - 2) * 100) by (nonlinear_arith)
            requires
                pct <= 100,
                bar >= 10,
        ;
        let fill: usize = ((bar - 2) as u128 * pct as u128 / 100) as usize;
        let empty: usize = bar - 2 - fill;
        assert(fill as nat == ((bar - 2) as nat * self@.percent) / 100);
        let ghost lab = label@;
        let mut out = label;
        out.append(" [");
        proof {
            reveal_strlit("#");
            reveal_strlit("-");
        }
        push_repeat(&mut out, "#", fill);
        push_repeat(&mut out, "-", empty);
        out.append("]");
        assert(out@ =~= lab + " ["@ + repeat_char('#', fill as nat) + repeat_char('-', empty as nat)
            + "]"@);
        out
    }
}

} // verus!
