use context_profiler::build;
use context_profiler::ContentEntry;
use context_profiler::ContentEntryKind;
use context_profiler::ContextProfiler;
use context_profiler::Contributor;
use context_profiler::Header;
use context_profiler::InvalidationReason;
use context_profiler::ItemVariant;
use context_profiler::ObservationStart;
use context_profiler::ObservedItem;
use context_profiler::ProfilerEvent;
use context_profiler::ProfilerState;
use context_profiler::Row;
use context_profiler::Startup;
use context_profiler::TokenCost;
use context_profiler::TurnRow;
use context_profiler::Usage;
use context_profiler::UsageSnapshot;

const FIRST_TURN: &str = "tu_1";
const SECOND_TURN: &str = "tu_2";
const WINDOW: i64 = 272_000;

fn quoted(text: &str) -> String {
    serde_json::to_string(text).expect("a string serializes")
}

fn bare(variant: ItemVariant, json: &str) -> ObservedItem {
    ObservedItem {
        variant,
        id: None,
        stamped_turn_id: None,
        role: String::new(),
        content: Vec::new(),
        content_item_kinds: None,
        call_id: None,
        name: None,
        output_entries: None,
        bytes: Some(json.len()),
    }
}

fn message(role: &str, kind: ContentEntryKind, text: &str, content_kind: &str) -> ObservedItem {
    let entry = match kind {
        ContentEntryKind::OutputText => format!(r#"{{"type":"output_text","text":{}}}"#, quoted(text)),
        _ => format!(r#"{{"type":"input_text","text":{}}}"#, quoted(text)),
    };
    let json = format!(
        r#"{{"type":"message","role":{},"content":[{}]}}"#,
        quoted(role),
        entry
    );
    ObservedItem {
        role: role.to_string(),
        content: vec![ContentEntry {
            kind,
            text: text.to_string(),
            bytes: Some(entry.len()),
        }],
        content_item_kinds: Some(vec![content_kind.to_string()]),
        ..bare(ItemVariant::Message, &json)
    }
}

fn user_message(text: &str) -> ObservedItem {
    message("user", ContentEntryKind::InputText, text, "user.text")
}

fn instruction_message(kind: &str, text: &str) -> ObservedItem {
    message("user", ContentEntryKind::InputText, text, kind)
}

fn assistant_message(text: &str) -> ObservedItem {
    message("assistant", ContentEntryKind::OutputText, text, "assistant.text")
}

fn reasoning() -> ObservedItem {
    let json = format!(
        r#"{{"type":"reasoning","summary":[],"encrypted_content":{}}}"#,
        quoted(&"x".repeat(120))
    );
    bare(ItemVariant::Reasoning, &json)
}

fn function_call(name: &str) -> ObservedItem {
    let json = format!(
        r#"{{"type":"function_call","name":{},"arguments":{},"call_id":"call_1"}}"#,
        quoted(name),
        quoted(r#"{"path":"src/lib.rs"}"#)
    );
    ObservedItem {
        name: Some(name.to_string()),
        call_id: Some("call_1".to_string()),
        ..bare(ItemVariant::FunctionCall, &json)
    }
}

fn function_call_output(call_id: &str) -> ObservedItem {
    let json = format!(
        r#"{{"type":"function_call_output","call_id":{},"output":{}}}"#,
        quoted(call_id),
        quoted(&"f".repeat(420))
    );
    ObservedItem {
        call_id: Some(call_id.to_string()),
        ..bare(ItemVariant::FunctionCallOutput, &json)
    }
}

fn anchor(input: i64, output: i64, items_seq: u64) -> UsageSnapshot {
    UsageSnapshot {
        reported_context_tokens: input + output,
        input_tokens: input,
        cached_input_tokens: 0,
        cache_write_input_tokens: 0,
        output_tokens: output,
        reasoning_output_tokens: 0,
        items_seq,
    }
}

/// Two turns with consistent anchors: the first establishes a baseline, the second measures a
/// tool call and its output.
fn observe_session(profiler: &mut ContextProfiler, tool_name: &str) {
    let first_user = user_message("Summarise how the context profiler attributes tokens.");
    let agents = instruction_message("agents_md.instructions", &"a".repeat(600));
    let environment = instruction_message("environment_context.instructions", &"e".repeat(400));
    let first_reasoning = reasoning();
    let first_answer = assistant_message("It reconciles estimates against measured anchors.");

    profiler.observe(ProfilerEvent::TurnStarted {
        turn_id: FIRST_TURN,
    });
    profiler.observe(ProfilerEvent::WindowUpdated {
        turn_id: FIRST_TURN,
        window: WINDOW,
    });
    for item in [
        &first_user,
        &agents,
        &environment,
        &first_reasoning,
        &first_answer,
    ] {
        profiler.observe(ProfilerEvent::Item {
            turn_id: FIRST_TURN,
            item,
        });
    }
    profiler.observe(ProfilerEvent::Usage {
        turn_id: FIRST_TURN,
        usage: anchor(20_000, 800, 5),
    });
    profiler.observe(ProfilerEvent::TurnEnded {
        turn_id: FIRST_TURN,
        completed: true,
    });

    let second_user = user_message("Read src/lib.rs and tell me what it exports.");
    let second_reasoning = reasoning();
    let call = function_call(tool_name);
    let output = function_call_output("call_1");
    let second_answer = assistant_message("It re-exports the profiler types.");

    profiler.observe(ProfilerEvent::TurnStarted {
        turn_id: SECOND_TURN,
    });
    for item in [&second_user, &second_reasoning, &call] {
        profiler.observe(ProfilerEvent::Item {
            turn_id: SECOND_TURN,
            item,
        });
    }
    profiler.observe(ProfilerEvent::Usage {
        turn_id: SECOND_TURN,
        usage: anchor(21_200, 600, 8),
    });
    for item in [&output, &second_answer] {
        profiler.observe(ProfilerEvent::Item {
            turn_id: SECOND_TURN,
            item,
        });
    }
    profiler.observe(ProfilerEvent::Usage {
        turn_id: SECOND_TURN,
        usage: anchor(22_600, 400, 10),
    });
    profiler.observe(ProfilerEvent::TurnEnded {
        turn_id: SECOND_TURN,
        completed: true,
    });
}

fn session(start: ObservationStart, tool_name: &str) -> ContextProfiler {
    let mut profiler = ContextProfiler::new(start);
    observe_session(&mut profiler, tool_name);
    profiler
}

fn normal_profiler() -> ContextProfiler {
    session(ObservationStart::SessionStart, "read_file")
}

fn normal_state() -> ProfilerState {
    normal_profiler().state().clone()
}

#[test]
fn categories_are_ordered_by_tokens_and_share_the_reported_context() {
    assert_eq!(
        build(&normal_state()).categories,
        vec![
            Row {
                name: "Agent messages",
                tokens: TokenCost::Estimated(1_156),
                share_percent: Some(5),
            },
            Row {
                name: "Tool outputs",
                tokens: TokenCost::Exact(800),
                share_percent: Some(3),
            },
            Row {
                name: "Tool calls",
                tokens: TokenCost::Estimated(573),
                share_percent: Some(2),
            },
            Row {
                name: "Instructions",
                tokens: TokenCost::Estimated(227),
                share_percent: Some(1),
            },
            Row {
                name: "Reasoning",
                tokens: TokenCost::Estimated(71),
                share_percent: Some(0),
            },
            Row {
                name: "User messages",
                tokens: TokenCost::Estimated(34),
                share_percent: Some(0),
            },
        ]
    );
}

#[test]
fn contributors_are_the_three_largest_groups() {
    let state = normal_state();
    assert!(
        state.snapshot.groups.len() > 3,
        "a fourth group is excluded"
    );
    assert_eq!(
        build(&state).contributors,
        vec![
            Contributor {
                rank: 1,
                category: "Tool calls",
                label: "read_file".to_string(),
                tokens: TokenCost::Estimated(1_373),
                share_percent: Some(6),
            },
            Contributor {
                rank: 2,
                category: "Agent messages",
                label: "assistant.text".to_string(),
                tokens: TokenCost::Estimated(756),
                share_percent: Some(3),
            },
            Contributor {
                rank: 3,
                category: "Agent messages",
                label: "assistant.text".to_string(),
                tokens: TokenCost::Exact(400),
                share_percent: Some(2),
            },
        ]
    );
}

#[test]
fn a_shrinking_reported_total_drifts_negative() {
    let mut profiler = normal_profiler();
    profiler.observe(ProfilerEvent::TurnStarted { turn_id: "tu_4" });
    profiler.observe(ProfilerEvent::Usage {
        turn_id: "tu_4",
        usage: anchor(15_000, 0, 10),
    });

    assert_eq!(
        build(profiler.state()).not_attributable,
        vec![
            Row {
                name: "System + tools baseline",
                tokens: TokenCost::Estimated(19_755),
                share_percent: Some(132),
            },
            Row {
                name: "Reconciliation drift",
                tokens: TokenCost::Estimated(-7_616),
                share_percent: None,
            },
        ]
    );
}

#[test]
fn without_a_baseline_the_remainder_is_reported_minus_attributed() {
    let profiler = session(ObservationStart::MidStream, "read_file");

    assert_eq!(
        build(profiler.state()).not_attributable,
        vec![Row {
            name: "Not attributed",
            tokens: TokenCost::Estimated(20_139),
            share_percent: Some(88),
        }]
    );
}

#[test]
fn the_header_turns_and_startup_block_of_a_normal_session() {
    let card = build(&normal_state());
    assert_eq!(
        Some(Header {
            reported: 23_000,
            window: Some(WINDOW),
            percent_remaining: Some(96),
        }),
        card.header
    );
    assert_eq!(Usage::Current, card.usage);
    assert_eq!(Some(23_000), card.footer);
    assert_eq!(TokenCost::Estimated(2_861), card.attributed_total);
    assert_eq!(
        vec![
            TurnRow {
                index: 1,
                added: Some(2_200),
                context_after: Some(23_000),
            },
            TurnRow {
                index: 0,
                added: None,
                context_after: Some(20_800),
            },
        ],
        card.turns
    );
    assert_eq!(
        Startup::Available {
            total: 19_982,
            instructions: 227,
            baseline: 19_755,
            first_request_input: 20_000,
        },
        card.startup
    );
    assert!(card.has_items);
    assert_eq!(None, card.invalidated);
}

#[test]
fn pending_items_carry_no_shares() {
    let mut profiler = normal_profiler();
    let trailing = function_call_output("call_2");
    profiler.observe(ProfilerEvent::TurnStarted { turn_id: "tu_3" });
    profiler.observe(ProfilerEvent::Item {
        turn_id: "tu_3",
        item: &trailing,
    });
    let card = build(profiler.state());
    assert_eq!(Usage::Pending, card.usage);
    assert_eq!(None, card.footer);
    assert!(card.not_attributable.is_empty());
    assert!(card.categories.iter().all(|row| row.share_percent.is_none()));
}

#[test]
fn an_invalidated_profile_is_carried_to_the_card() {
    let mut profiler = normal_profiler();
    profiler.observe(ProfilerEvent::Invalidated {
        reason: InvalidationReason::EventsDropped { skipped: 3 },
    });
    assert_eq!(
        Some(InvalidationReason::EventsDropped { skipped: 3 }),
        build(profiler.state()).invalidated
    );
}

#[test]
fn an_empty_profile_has_no_data() {
    let profiler = ContextProfiler::new(ObservationStart::SessionStart);
    let card = build(profiler.state());
    assert_eq!(None, card.header);
    assert!(!card.has_items);
    assert_eq!(Startup::Unavailable, card.startup);
    assert_eq!(TokenCost::Estimated(0), card.attributed_total);
    assert!(card.categories.is_empty());
    assert!(card.contributors.is_empty());
    assert!(card.turns.is_empty());
}

/// A state whose totals overflow an `i64` cannot be condensed into a card.
#[test]
fn overflowing_totals_are_not_buildable() {
    let mut state = normal_state();
    assert!(context_profiler::is_buildable(&state));
    state.snapshot.by_category = vec![
        (context_profiler::Category::ToolCall, TokenCost::Exact(i64::MAX)),
        (context_profiler::Category::ToolOutput, TokenCost::Exact(1)),
    ];
    assert!(!context_profiler::is_buildable(&state));
}
