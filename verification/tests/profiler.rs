use context_profiler::classify;
use context_profiler::item_tokens;
use context_profiler::Category;
use context_profiler::ContentEntry;
use context_profiler::ContentEntryKind;
use context_profiler::ContextProfiler;
use context_profiler::GroupKey;
use context_profiler::InvalidationReason;
use context_profiler::ItemGroup;
use context_profiler::ItemSummary;
use context_profiler::ItemVariant;
use context_profiler::ObservationStart;
use context_profiler::ObservedItem;
use context_profiler::ProfilerEvent;
use context_profiler::TokenCost;
use context_profiler::TurnDelta;
use context_profiler::UsageSnapshot;

const TURN: &str = "tu_1";
const OTHER_TURN: &str = "tu_2";

fn message_item(text: &str) -> ObservedItem {
    let entry = format!(r#"{{"type":"output_text","text":"{text}"}}"#);
    let json = format!(r#"{{"type":"message","role":"assistant","content":[{entry}]}}"#);
    ObservedItem {
        variant: ItemVariant::Message,
        id: None,
        stamped_turn_id: None,
        role: "assistant".to_string(),
        content: vec![ContentEntry {
            kind: ContentEntryKind::OutputText,
            text: text.to_string(),
            bytes: Some(entry.len()),
        }],
        content_item_kinds: None,
        call_id: None,
        name: None,
        output_entries: None,
        bytes: Some(json.len()),
    }
}

fn tool_item(variant: ItemVariant, call_id: &str, json: String) -> ObservedItem {
    ObservedItem {
        variant,
        id: None,
        stamped_turn_id: None,
        role: String::new(),
        content: Vec::new(),
        content_item_kinds: None,
        call_id: Some(call_id.to_string()),
        name: if variant == ItemVariant::CustomToolCall {
            Some("shell".to_string())
        } else {
            None
        },
        output_entries: None,
        bytes: Some(json.len()),
    }
}

fn custom_tool_call(call_id: &str) -> ObservedItem {
    tool_item(
        ItemVariant::CustomToolCall,
        call_id,
        format!(r#"{{"type":"custom_tool_call","call_id":"{call_id}","name":"shell","input":"ls"}}"#),
    )
}

fn custom_tool_call_output(call_id: &str) -> ObservedItem {
    tool_item(
        ItemVariant::CustomToolCallOutput,
        call_id,
        format!(r#"{{"type":"custom_tool_call_output","call_id":"{call_id}","output":"ok"}}"#),
    )
}

fn reasoning_item() -> ObservedItem {
    let json = r#"{"type":"reasoning","summary":[],"encrypted_content":"opaque"}"#;
    ObservedItem {
        variant: ItemVariant::Reasoning,
        id: None,
        stamped_turn_id: None,
        role: String::new(),
        content: Vec::new(),
        content_item_kinds: None,
        call_id: None,
        name: None,
        output_entries: None,
        bytes: Some(json.len()),
    }
}

fn usage(total: i64, items_seq: u64) -> UsageSnapshot {
    UsageSnapshot {
        reported_context_tokens: total,
        input_tokens: total,
        cached_input_tokens: 0,
        cache_write_input_tokens: 0,
        output_tokens: 0,
        reasoning_output_tokens: 0,
        items_seq,
    }
}

/// What the estimator makes of an item no anchor priced.
fn item_cost(item: &ObservedItem) -> TokenCost {
    let classification = classify(item);
    TokenCost::Estimated(item_tokens(
        classification.category,
        &classification.parts,
        item.bytes.unwrap_or(0),
    ))
}

/// The summary of an unpriced item, as the profiler records it.
fn summary(seq: u64, turn_index: u32, item: &ObservedItem, group: GroupKey) -> ItemSummary {
    let classification = classify(item);
    ItemSummary {
        seq,
        turn_index,
        category: classification.category,
        pricing: classification.pricing,
        bytes: item.bytes.unwrap_or(0),
        cost: item_cost(item),
        label: context_profiler::item_kind(item).to_string(),
        group,
        item_id: None,
        parts: classification.parts,
        warnings: classification.warnings,
    }
}

#[test]
fn item_without_open_turn_opens_implicit_turn() {
    let item = message_item("mid-stream attach");

    let mut profiler = ContextProfiler::new(ObservationStart::MidStream);
    profiler.observe(ProfilerEvent::Item {
        turn_id: TURN,
        item: &item,
    });
    profiler.observe(ProfilerEvent::TurnEnded {
        turn_id: TURN,
        completed: true,
    });

    let expected = vec![TurnDelta {
        turn_id: TURN.to_string(),
        index: 0,
        item_seq_range: 1..=1,
        estimated_added: item_cost(&item).tokens(),
        measured_before: None,
        measured_after: None,
    }];
    assert_eq!(expected, profiler.state().snapshot.turns);
    assert_eq!(
        vec![summary(1, 0, &item, GroupKey::Ungrouped(1))],
        profiler.state().snapshot.items
    );
}

#[test]
fn interrupted_turn_has_no_measured_after_but_seeds_the_next_turn() {
    let item = message_item("interrupted");

    let mut profiler = ContextProfiler::new(ObservationStart::SessionStart);
    profiler.observe(ProfilerEvent::TurnStarted { turn_id: TURN });
    profiler.observe(ProfilerEvent::Item {
        turn_id: TURN,
        item: &item,
    });
    profiler.observe(ProfilerEvent::Usage {
        turn_id: TURN,
        usage: usage(2_500, 1),
    });
    profiler.observe(ProfilerEvent::TurnEnded {
        turn_id: TURN,
        completed: false,
    });
    profiler.observe(ProfilerEvent::TurnStarted {
        turn_id: OTHER_TURN,
    });
    profiler.observe(ProfilerEvent::TurnEnded {
        turn_id: OTHER_TURN,
        completed: true,
    });

    let turns = &profiler.state().snapshot.turns;
    assert_eq!(None, turns[0].measured_added());
    assert_eq!(None, turns[0].measured_after);
    assert_eq!(Some(2_500), turns[1].measured_before);
}

#[test]
fn folding_the_same_events_twice_yields_identical_state() {
    let call = custom_tool_call("call_1");
    let output = custom_tool_call_output("call_1");
    let reasoning = reasoning_item();
    let fold = |profiler: &mut ContextProfiler| {
        profiler.observe(ProfilerEvent::TurnStarted { turn_id: TURN });
        for item in [&call, &reasoning, &output] {
            profiler.observe(ProfilerEvent::Item {
                turn_id: TURN,
                item,
            });
        }
        profiler.observe(ProfilerEvent::WindowUpdated {
            turn_id: TURN,
            window: 272_000,
        });
        profiler.observe(ProfilerEvent::Usage {
            turn_id: TURN,
            usage: usage(3_100, 3),
        });
        profiler.observe(ProfilerEvent::TurnEnded {
            turn_id: TURN,
            completed: true,
        });
    };

    let mut first = ContextProfiler::new(ObservationStart::SessionStart);
    let mut second = ContextProfiler::new(ObservationStart::SessionStart);
    fold(&mut first);
    fold(&mut second);

    assert_eq!(first.state(), second.state());
}

/// Once invalidated, items and anchors stop changing; only the window is still tracked.
#[test]
fn an_invalidated_profile_only_tracks_the_window() {
    let first = message_item("before");
    let second = message_item("after");

    let mut profiler = ContextProfiler::new(ObservationStart::SessionStart);
    profiler.observe(ProfilerEvent::TurnStarted { turn_id: TURN });
    profiler.observe(ProfilerEvent::Item {
        turn_id: TURN,
        item: &first,
    });
    profiler.observe(ProfilerEvent::Usage {
        turn_id: TURN,
        usage: usage(900, 1),
    });
    profiler.observe(ProfilerEvent::Invalidated {
        reason: InvalidationReason::Compacted,
    });
    let frozen = profiler.state().clone();
    profiler.observe(ProfilerEvent::Item {
        turn_id: TURN,
        item: &second,
    });
    profiler.observe(ProfilerEvent::Usage {
        turn_id: TURN,
        usage: usage(4_000, 2),
    });
    profiler.observe(ProfilerEvent::TurnEnded {
        turn_id: TURN,
        completed: true,
    });
    profiler.observe(ProfilerEvent::Invalidated {
        reason: InvalidationReason::EventsDropped { skipped: 2 },
    });
    profiler.observe(ProfilerEvent::WindowUpdated {
        turn_id: TURN,
        window: 272_000,
    });

    let state = profiler.state();
    assert_eq!(frozen.snapshot.items, state.snapshot.items);
    assert_eq!(vec![usage(900, 1)], state.anchors);
    assert!(state.snapshot.turns.is_empty());
    assert_eq!(Some(272_000), state.snapshot.window);
    assert_eq!(Some(InvalidationReason::Compacted), state.invalidated);
}

/// What a group of one unpriced item looks like.
fn group_of(summary: &ItemSummary) -> ItemGroup {
    ItemGroup {
        key: summary.group.clone(),
        category: summary.category,
        cost: summary.cost,
        label: summary.label.clone(),
        members: vec![summary.seq],
    }
}

#[test]
fn call_and_output_share_one_group_across_turns() {
    let call = custom_tool_call("call_1");
    let filler = message_item("thinking out loud");
    let output = custom_tool_call_output("call_1");

    let mut profiler = ContextProfiler::new(ObservationStart::SessionStart);
    profiler.observe(ProfilerEvent::TurnStarted { turn_id: TURN });
    profiler.observe(ProfilerEvent::Item {
        turn_id: TURN,
        item: &call,
    });
    profiler.observe(ProfilerEvent::TurnEnded {
        turn_id: TURN,
        completed: true,
    });
    profiler.observe(ProfilerEvent::TurnStarted {
        turn_id: OTHER_TURN,
    });
    profiler.observe(ProfilerEvent::Item {
        turn_id: OTHER_TURN,
        item: &filler,
    });
    profiler.observe(ProfilerEvent::Item {
        turn_id: OTHER_TURN,
        item: &output,
    });

    let expected = vec![
        ItemGroup {
            key: GroupKey::ToolCall("call_1".to_string()),
            category: Category::ToolCall,
            cost: TokenCost::Estimated(item_cost(&call).tokens() + item_cost(&output).tokens()),
            label: "CustomToolCall".to_string(),
            members: vec![1, 3],
        },
        group_of(&summary(2, 1, &filler, GroupKey::Ungrouped(2))),
    ];
    assert_eq!(expected, profiler.state().snapshot.groups);
}

#[test]
fn forged_usage_seq_counts_a_mismatch_and_still_anchors() {
    let item = message_item("one item");

    let mut profiler = ContextProfiler::new(ObservationStart::SessionStart);
    profiler.observe(ProfilerEvent::TurnStarted { turn_id: TURN });
    profiler.observe(ProfilerEvent::Item {
        turn_id: TURN,
        item: &item,
    });
    profiler.observe(ProfilerEvent::Usage {
        turn_id: TURN,
        usage: usage(700, 2),
    });

    let state = profiler.state();
    assert_eq!(1, state.seq_mismatch_count);
    assert_eq!(vec![usage(700, 2)], state.anchors);
}

/// A lone output item takes the response's whole output total, exactly.
#[test]
fn a_lone_output_item_is_priced_exactly() {
    let call = custom_tool_call("call_1");
    let mut profiler = ContextProfiler::new(ObservationStart::MidStream);
    profiler.observe(ProfilerEvent::TurnStarted { turn_id: TURN });
    profiler.observe(ProfilerEvent::Item {
        turn_id: TURN,
        item: &call,
    });
    profiler.observe(ProfilerEvent::Usage {
        turn_id: TURN,
        usage: UsageSnapshot {
            reported_context_tokens: 5_042,
            input_tokens: 5_000,
            cached_input_tokens: 0,
            cache_write_input_tokens: 0,
            output_tokens: 42,
            reasoning_output_tokens: 0,
            items_seq: 1,
        },
    });
    let state = profiler.state();
    assert_eq!(TokenCost::Exact(42), state.snapshot.items[0].cost);
    assert_eq!(vec![(Category::ToolCall, TokenCost::Exact(42))], state.snapshot.by_category);
    assert!(!state.usage_pending);
}

/// Several output items share the total by their estimates, the last taking the remainder, so
/// the shares add up to the measured whole.
#[test]
fn shared_output_totals_add_up_to_the_measured_whole() {
    let first = message_item(&"a".repeat(400));
    let second = message_item(&"b".repeat(100));
    let third = reasoning_item();
    let mut profiler = ContextProfiler::new(ObservationStart::MidStream);
    profiler.observe(ProfilerEvent::TurnStarted { turn_id: TURN });
    for item in [&first, &second, &third] {
        profiler.observe(ProfilerEvent::Item {
            turn_id: TURN,
            item,
        });
    }
    profiler.observe(ProfilerEvent::Usage {
        turn_id: TURN,
        usage: UsageSnapshot {
            reported_context_tokens: 1_000,
            input_tokens: 900,
            cached_input_tokens: 0,
            cache_write_input_tokens: 0,
            output_tokens: 100,
            reasoning_output_tokens: 0,
            items_seq: 3,
        },
    });
    let costs: Vec<TokenCost> = profiler
        .state()
        .snapshot
        .items
        .iter()
        .map(|item| item.cost)
        .collect();
    assert!(costs
        .iter()
        .all(|cost| matches!(cost, TokenCost::Estimated(_))));
    assert_eq!(100, costs.iter().map(|cost| cost.tokens()).sum::<i64>());
    assert!(costs[0].tokens() > costs[1].tokens());
}

/// The category totals account for every item's cost.
#[test]
fn the_category_totals_add_up_to_the_items() {
    let call = custom_tool_call("call_1");
    let output = custom_tool_call_output("call_1");
    let note = message_item("a note");
    let mut profiler = ContextProfiler::new(ObservationStart::SessionStart);
    profiler.observe(ProfilerEvent::TurnStarted { turn_id: TURN });
    for item in [&call, &output, &note, &reasoning_item()] {
        profiler.observe(ProfilerEvent::Item {
            turn_id: TURN,
            item,
        });
    }
    let snapshot = &profiler.state().snapshot;
    let items_total: i64 = snapshot.items.iter().map(|item| item.cost.tokens()).sum();
    assert_eq!(items_total, snapshot.attributed_tokens());
    assert_eq!(4, snapshot.by_category.len());
    assert_eq!(items_total, snapshot.explained_tokens());
}

/// A claimed baseline, and the summary claimed with it, survive every later anchor.
#[test]
fn a_claimed_baseline_never_changes() {
    let user = ObservedItem {
        role: "user".to_string(),
        content_item_kinds: Some(vec!["user.text".to_string()]),
        content: vec![ContentEntry {
            kind: ContentEntryKind::InputText,
            text: "hello".to_string(),
            bytes: Some(36),
        }],
        ..message_item("hello")
    };
    let mut profiler = ContextProfiler::new(ObservationStart::SessionStart);
    profiler.observe(ProfilerEvent::TurnStarted { turn_id: TURN });
    profiler.observe(ProfilerEvent::Item {
        turn_id: TURN,
        item: &user,
    });
    profiler.observe(ProfilerEvent::Usage {
        turn_id: TURN,
        usage: usage(1_200, 1),
    });
    let baseline = profiler.state().snapshot.baseline_tokens;
    let initial = profiler.state().snapshot.initial_context.clone();
    assert_eq!(Some(1_200 - 7), baseline);

    let output = custom_tool_call_output("call_1");
    profiler.observe(ProfilerEvent::Item {
        turn_id: TURN,
        item: &output,
    });
    profiler.observe(ProfilerEvent::Usage {
        turn_id: TURN,
        usage: usage(1_700, 2),
    });
    profiler.observe(ProfilerEvent::TurnEnded {
        turn_id: TURN,
        completed: true,
    });
    assert_eq!(baseline, profiler.state().snapshot.baseline_tokens);
    assert_eq!(initial, profiler.state().snapshot.initial_context);
    assert_eq!(TokenCost::Exact(500), profiler.state().snapshot.items[1].cost);
    assert_eq!(0, profiler.state().snapshot.drift_tokens);
}

/// The groups together hold every item's tokens.
#[test]
fn the_groups_add_up_to_the_items() {
    let call = custom_tool_call("call_1");
    let output = custom_tool_call_output("call_1");
    let note = message_item("a note");
    let mut profiler = ContextProfiler::new(ObservationStart::SessionStart);
    profiler.observe(ProfilerEvent::TurnStarted { turn_id: TURN });
    for item in [&call, &note, &output] {
        profiler.observe(ProfilerEvent::Item {
            turn_id: TURN,
            item,
        });
    }
    let snapshot = &profiler.state().snapshot;
    let items_total: i64 = snapshot.items.iter().map(|item| item.cost.tokens()).sum();
    let groups_total: i64 = snapshot.groups.iter().map(|group| group.cost.tokens()).sum();
    assert_eq!(items_total, groups_total);
    assert_eq!(2, snapshot.groups.len());
}
