use session_restore::{
    approximate_tokens, filter_response_items, fits_in_count, segment_items_by_tokens, Item,
};

fn msg(role: &str, text: &str) -> Item {
    Item::Message { role: Some(role.to_string()), texts: vec![text.to_string()] }
}

fn assert_partition(chunks: &[(usize, usize, usize)], n: usize) {
    if n == 0 {
        assert!(chunks.is_empty());
        return;
    }
    assert_eq!(chunks[0].0, 0);
    assert_eq!(chunks[chunks.len() - 1].1, n);
    for (i, c) in chunks.iter().enumerate() {
        assert!(c.0 < c.1);
        if i + 1 < chunks.len() {
            assert_eq!(c.1, chunks[i + 1].0);
        }
    }
}

#[test]
fn segments_under_threshold() {
    let items = vec![msg("user", "short"), msg("assistant", "hello"), msg("user", &"x".repeat(200))];
    let chunks = segment_items_by_tokens(&items, 50);
    assert!(!chunks.is_empty());
    for (_, _, t) in &chunks {
        assert!(*t <= 50);
    }
    let total = chunks.iter().map(|(s, e, _)| e - s).sum::<usize>();
    assert_eq!(total, items.len());
}

#[test]
fn single_over_limit_item_forces_one_item_chunk() {
    let items = vec![msg("user", &"z".repeat(2000))];
    let chunks = segment_items_by_tokens(&items, 10);
    assert_eq!(chunks.len(), 1);
    assert_eq!(chunks[0].1 - chunks[0].0, 1);
}

#[test]
fn three_short_messages_form_one_segment() {
    let items = vec![msg("user", "hi there"), msg("assistant", "hello"), msg("user", "thanks")];
    let chunks = segment_items_by_tokens(&items, 2000);
    assert_eq!(chunks.len(), 1);
    assert_eq!((chunks[0].0, chunks[0].1), (0, 3));
    assert_eq!(chunks[0].2, approximate_tokens(&items));
}

#[test]
fn oversized_single_item_is_kept_whole() {
    let items = vec![msg("user", &"a".repeat(2000))];
    assert_eq!(segment_items_by_tokens(&items, 10), vec![(0, 1, 500)]);
}

#[test]
fn greedy_split_points_and_estimates() {
    let items = vec![msg("user", "short"), msg("assistant", "hello"), msg("user", &"x".repeat(200))];
    assert_eq!(segment_items_by_tokens(&items, 50), vec![(0, 2, 3), (2, 3, 50)]);
}

#[test]
fn segments_partition_mixed_items() {
    let mut items = Vec::new();
    for i in 0..17 {
        items.push(msg("user", &"w".repeat(i * 13 % 97)));
    }
    for budget in [0usize, 1, 5, 20, 60, 1000] {
        let chunks = segment_items_by_tokens(&items, budget);
        assert_partition(&chunks, items.len());
        for c in &chunks {
            if c.1 - c.0 > 1 {
                assert!(c.2 <= budget);
            }
            assert_eq!(c.2, approximate_tokens(&items[c.0..c.1]));
        }
    }
}

#[test]
fn empty_input_has_no_segments() {
    let items: Vec<Item> = Vec::new();
    assert!(segment_items_by_tokens(&items, 10).is_empty());
    assert_eq!(approximate_tokens(&items), 0);
}

#[test]
fn estimate_of_prefixes_never_decreases() {
    let items = vec![
        msg("user", "abc"),
        Item::Reasoning,
        Item::FunctionCall { name: Some("shell".to_string()), arguments: Some("\"{}\"".to_string()) },
        msg("assistant", ""),
        Item::FunctionCallOutput { fragments: None, output_text: Some("done".to_string()) },
    ];
    let mut last = 0;
    for n in 0..=items.len() {
        let e = approximate_tokens(&items[..n]);
        assert!(e >= last);
        last = e;
    }
}

#[test]
fn estimate_counts_each_kind() {
    let call = Item::FunctionCall { name: Some("shell".to_string()), arguments: Some("\"{}\"".to_string()) };
    assert_eq!(approximate_tokens(&[call]), 3);
    let out = Item::FunctionCallOutput {
        fragments: Some(vec!["ok".to_string(), "yes".to_string()]),
        output_text: Some("ignored because fragments exist".to_string()),
    };
    assert_eq!(approximate_tokens(&[out]), 2);
    let fallback = Item::FunctionCallOutput { fragments: None, output_text: Some("12345".to_string()) };
    assert_eq!(approximate_tokens(&[fallback]), 2);
    let two = vec![msg("user", "ab"), msg("user", "cd")];
    assert_eq!(approximate_tokens(&two), 1);
    assert_eq!(approximate_tokens(&[Item::LocalShellCall, Item::Other]), 0);
    assert_eq!(approximate_tokens(&[msg("user", "\u{e9}\u{e9}\u{e9}\u{e9}\u{e9}")]), 2);
    assert!(fits_in_count(&two));
}

#[test]
fn filter_keeps_replayable_kinds_in_order() {
    let items = vec![
        msg("user", "a"),
        Item::State { provider_resume_token: Some("tok".to_string()) },
        Item::Reasoning,
        Item::Other,
        Item::FunctionCall { name: None, arguments: None },
        Item::FunctionCallOutput { fragments: None, output_text: None },
        Item::LocalShellCall,
    ];
    let kept = filter_response_items(items);
    assert_eq!(kept.len(), 5);
    assert!(matches!(kept[0], Item::Message { .. }));
    assert!(matches!(kept[1], Item::Reasoning));
    assert!(matches!(kept[2], Item::FunctionCall { .. }));
    assert!(matches!(kept[3], Item::FunctionCallOutput { .. }));
    assert!(matches!(kept[4], Item::LocalShellCall));
}
