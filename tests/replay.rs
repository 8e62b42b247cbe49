use session_restore::driver::{CANCEL_NOTICE, RESTORE_END, RESTORE_INTRO};
use session_restore::{
    approximate_tokens, plan_replay, segment_items_by_tokens, Item, ReplayAction, ReplayStatus,
    RestoreProgressView,
};

fn msg(role: &str, text: &str) -> Item {
    Item::Message { role: Some(role.to_string()), texts: vec![text.to_string()] }
}

fn count_interrupts(acts: &[ReplayAction]) -> usize {
    acts.iter().filter(|a| matches!(a, ReplayAction::Interrupt)).count()
}

fn is_end_marker(a: &ReplayAction) -> bool {
    matches!(a, ReplayAction::UserInput(t) if t == RESTORE_END)
}

fn drive(view: &mut RestoreProgressView) -> (Vec<ReplayAction>, usize) {
    let mut all = Vec::new();
    let mut steps = 0;
    while !view.is_complete() {
        all.extend(view.advance());
        steps += 1;
        assert!(steps < 10_000);
    }
    (all, steps)
}

#[test]
fn progresses_to_completion_via_ticks() {
    let mut view = RestoreProgressView::new(5);
    for _ in 0..5 {
        view.advance();
    }
    assert!(view.is_complete());
}

#[test]
fn cancel_inserts_history_line() {
    let mut view = RestoreProgressView::new(3);
    let acts = view.cancel();
    assert!(acts.iter().any(|a| matches!(a, ReplayAction::Notice(t) if t.contains("cancelled"))));
}

#[test]
fn no_progress_without_steps() {
    let view = RestoreProgressView::new(3);
    assert!(!view.is_complete());
    assert_eq!(view.progress().percent, 0);
}

#[test]
fn one_step_completes_a_small_plan() {
    let items = vec![msg("user", "hi"), msg("assistant", "hello there"), msg("user", "bye")];
    let chunks = segment_items_by_tokens(&items, 2000);
    assert_eq!(chunks.len(), 1);
    assert_eq!((chunks[0].0, chunks[0].1), (0, 3));
    let total = approximate_tokens(&items);
    let mut view = RestoreProgressView::from_plan(items, chunks, total);
    let acts = view.advance();
    assert!(view.is_complete());
    assert_eq!(view.status(), ReplayStatus::Complete);
    assert_eq!(view.progress().percent, 100);
    match &acts[0] {
        ReplayAction::UserInput(t) => {
            assert_eq!(t, &format!("{}hi\nhello there\nbye\n", RESTORE_INTRO));
        }
        _ => panic!("first action should send the segment"),
    }
    assert!(matches!(acts[1], ReplayAction::Interrupt));
    assert!(matches!(acts[2], ReplayAction::ShowItems { start: 0, end: 3 }));
    assert!(is_end_marker(&acts[3]));
    match &acts[4] {
        ReplayAction::Notice(t) => assert_eq!(t, "Replay complete: 1/1 segments (~4 tokens)."),
        _ => panic!("summary expected"),
    }
    assert!(matches!(acts[5], ReplayAction::Completed { approx_tokens: 4, segments: 1 }));
    assert_eq!(acts.len(), 6);
}

#[test]
fn oversized_segment_is_halved_before_sending() {
    let items: Vec<Item> = (0..4).map(|_| msg("user", &"q".repeat(2500))).collect();
    let chunks = vec![(0, 4, 2500)];
    let mut view = RestoreProgressView::from_plan(items, chunks, 2500);
    let acts = view.advance();
    assert!(acts.is_empty());
    assert_eq!(view.cursor(), 0);
    assert_eq!(view.tokens_sent(), 0);
    assert_eq!(view.segments(), &vec![(0, 2, 1250), (2, 4, 1250)]);
    let acts = view.advance();
    assert_eq!(count_interrupts(&acts), 1);
    assert_eq!(view.cursor(), 1);
    assert_eq!(view.tokens_sent(), 1250);
    assert_eq!(view.progress().percent, 50);
}

#[test]
fn repeated_halving_reaches_single_items() {
    let items: Vec<Item> = (0..8).map(|_| msg("user", &"q".repeat(8000))).collect();
    let chunks = vec![(0, 8, 16000)];
    let mut view = RestoreProgressView::from_plan(items, chunks, 16000);
    let (acts, _) = drive(&mut view);
    assert_eq!(view.segments().len(), 8);
    assert_eq!(count_interrupts(&acts), 8);
    assert_eq!(view.tokens_sent(), 16000);
    assert_eq!(view.progress().percent, 100);
}

#[test]
fn cancel_after_two_sends_interrupts_three_times() {
    let items: Vec<Item> = (0..5).map(|i| msg("user", &format!("message {i}"))).collect();
    let chunks: Vec<(usize, usize, usize)> =
        (0..5).map(|i| (i, i + 1, approximate_tokens(&items[i..i + 1]))).collect();
    let total = approximate_tokens(&items);
    let mut view = RestoreProgressView::from_plan(items, chunks, total);
    let mut all = Vec::new();
    all.extend(view.advance());
    all.extend(view.advance());
    let cancel = view.cancel();
    assert!(cancel.iter().any(|a| matches!(a, ReplayAction::Notice(t) if t == CANCEL_NOTICE)));
    all.extend(cancel);
    assert_eq!(count_interrupts(&all), 3);
    assert!(view.is_complete());
    assert_eq!(view.status(), ReplayStatus::Cancelled);
    assert!(view.advance().is_empty());
    assert!(view.cancel().is_empty());
}

#[test]
fn cancel_before_any_send_emits_no_interrupt() {
    let items = vec![msg("user", "a"), msg("assistant", "b")];
    let chunks = segment_items_by_tokens(&items, 1);
    let mut view = RestoreProgressView::from_plan(items, chunks, 1);
    let acts = view.cancel();
    assert_eq!(count_interrupts(&acts), 0);
    assert_eq!(acts.len(), 1);
    assert_eq!(view.status(), ReplayStatus::Cancelled);
}

#[test]
fn driving_to_completion_sums_sent_estimates() {
    let items: Vec<Item> = (0..9).map(|i| msg("user", &"m".repeat(300 * (i + 1)))).collect();
    let chunks = segment_items_by_tokens(&items, 900);
    let expected: usize = chunks.iter().map(|c| c.2).sum();
    let total = approximate_tokens(&items);
    let mut view = RestoreProgressView::from_plan(items, chunks, total);
    let (acts, _) = drive(&mut view);
    assert_eq!(view.tokens_sent(), view.segments().iter().map(|c| c.2).sum::<usize>());
    assert!(view.tokens_sent() <= expected + view.segments().len());
    let markers: Vec<usize> =
        acts.iter().enumerate().filter(|(_, a)| is_end_marker(a)).map(|(i, _)| i).collect();
    assert_eq!(markers.len(), 1);
    assert!(!matches!(acts.get(markers[0] + 1), Some(ReplayAction::Interrupt)));
    let sends = acts.iter().filter(|a| matches!(a, ReplayAction::UserInput(_))).count();
    assert_eq!(sends, count_interrupts(&acts) + 1);
    for (i, a) in acts.iter().enumerate() {
        if matches!(a, ReplayAction::UserInput(_)) && i != markers[0] {
            assert!(matches!(acts[i + 1], ReplayAction::Interrupt));
        }
    }
}

#[test]
fn empty_segment_counts_without_sending() {
    let items = vec![Item::Reasoning, msg("user", "hello")];
    let chunks = vec![(0, 1, 0), (1, 2, 2)];
    let mut view = RestoreProgressView::from_plan(items, chunks, 2);
    let acts = view.advance();
    assert!(acts.is_empty());
    assert_eq!(view.cursor(), 1);
    let acts = view.advance();
    match &acts[0] {
        ReplayAction::UserInput(t) => assert!(t.starts_with(RESTORE_INTRO)),
        _ => panic!("send expected"),
    }
}

#[test]
fn banner_only_on_first_send() {
    let items = vec![
        Item::FunctionCall { name: Some("shell".to_string()), arguments: Some("\"ls\"".to_string()) },
        Item::FunctionCallOutput { fragments: Some(vec!["a".to_string(), "b".to_string()]), output_text: None },
    ];
    let chunks = vec![(0, 1, 3), (1, 2, 1)];
    let mut view = RestoreProgressView::from_plan(items, chunks, 4);
    let first = view.advance();
    let second = view.advance();
    match (&first[0], &second[0]) {
        (ReplayAction::UserInput(a), ReplayAction::UserInput(b)) => {
            assert_eq!(a, &format!("{}[tool:shell] \"ls\"\n", RESTORE_INTRO));
            assert_eq!(b, "a\nb\n");
        }
        _ => panic!("sends expected"),
    }
    assert_eq!(view.progress().percent, 100);
}

#[test]
fn empty_plan_is_complete_at_once() {
    let view = RestoreProgressView::from_plan(Vec::new(), Vec::new(), 0);
    assert!(view.is_complete());
    assert_eq!(view.status(), ReplayStatus::Complete);
}

#[test]
fn from_plan_drops_ineligible_records() {
    let items = vec![Item::Other, msg("user", "x"), Item::State { provider_resume_token: None }];
    let mut view = RestoreProgressView::from_plan(items, vec![(0, 1, 1)], 1);
    let acts = view.advance();
    assert!(matches!(acts[2], ReplayAction::ShowItems { start: 0, end: 1 }));
    assert!(view.is_complete());
}

#[test]
fn percent_is_capped() {
    let items = vec![msg("user", &"p".repeat(400))];
    let mut view = RestoreProgressView::from_plan(items, vec![(0, 1, 100)], 10);
    view.advance();
    assert_eq!(view.progress().percent, 100);
}

#[test]
fn progress_line_formats() {
    let view = RestoreProgressView::new(3);
    assert_eq!(view.progress_line(80), "Replay ready \u{2014} Enter to start; Esc cancels.");
    let mut view = RestoreProgressView::new(5);
    view.advance();
    assert_eq!(view.progress_line(30), "Restoring:  20% [##----------]");
    assert_eq!(view.progress_line(0), "Restoring:  20% [#-------]");
    view.cancel();
    assert_eq!(view.progress_line(80), "Restore cancelled");
}

#[test]
fn plan_and_accept() {
    let records = vec![Item::Other, msg("user", "hello"), Item::Reasoning, msg("assistant", "world")];
    let plan = plan_replay(records, 2000).unwrap();
    assert_eq!(plan.items.len(), 3);
    assert_eq!(plan.chunks, vec![(0, 3, 3)]);
    assert_eq!(plan.token_total, 3);
    assert_eq!(plan.summary(), "Experimental restore plan: 1 segments (~3 tokens).");
    let mut view = RestoreProgressView::new(1);
    view.accept(plan);
    assert!(!view.is_complete());
    view.advance();
    assert!(view.is_complete());
}

#[test]
fn lower_send_ceiling_halves_further() {
    let items: Vec<Item> = (0..4).map(|_| msg("user", &"k".repeat(40))).collect();
    let mut view = RestoreProgressView::from_plan(items, vec![(0, 4, 40)], 40);
    view.set_max_tokens_per_send(15);
    assert!(view.advance().is_empty());
    assert!(view.advance().is_empty());
    assert_eq!(view.segments(), &vec![(0, 1, 10), (1, 2, 10), (2, 4, 20)]);
    let acts = view.advance();
    assert!(matches!(acts[2], ReplayAction::ShowItems { start: 0, end: 1 }));
    assert_eq!(view.tokens_sent(), 10);
    assert_eq!(view.progress().percent, 25);
}
