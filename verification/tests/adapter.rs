use context_profiler::attached_record;
use context_profiler::to_record;
use context_profiler::ContentEntry;
use context_profiler::ContentEntryKind;
use context_profiler::InvalidationReason;
use context_profiler::ItemVariant;
use context_profiler::Notification;
use context_profiler::ObservedItem;
use context_profiler::RecordedEvent;
use context_profiler::RecordedKind;
use context_profiler::ResponseUsage;
use context_profiler::ThreadProfilerAdapter;
use context_profiler::TurnStatus;

const THREAD: &str = "th_1";
const TURN: &str = "tu_1";

fn turn_started() -> Notification {
    Notification::TurnStarted {
        turn_id: TURN.to_string(),
    }
}

fn turn_completed(status: TurnStatus) -> Notification {
    Notification::TurnCompleted {
        turn_id: TURN.to_string(),
        status,
    }
}

fn item_of(variant: ItemVariant, call_id: Option<&str>, json_len: usize) -> ObservedItem {
    ObservedItem {
        variant,
        id: None,
        stamped_turn_id: None,
        role: String::new(),
        content: Vec::new(),
        content_item_kinds: None,
        call_id: call_id.map(str::to_string),
        name: None,
        output_entries: None,
        bytes: Some(json_len),
    }
}

fn message_item(text: &str) -> ObservedItem {
    let entry = format!(r#"{{"type":"output_text","text":"{text}"}}"#);
    let json = format!(r#"{{"type":"message","role":"assistant","content":[{entry}]}}"#);
    ObservedItem {
        role: "assistant".to_string(),
        content: vec![ContentEntry {
            kind: ContentEntryKind::OutputText,
            text: text.to_string(),
            bytes: Some(entry.len()),
        }],
        ..item_of(ItemVariant::Message, None, json.len())
    }
}

fn custom_tool_call(call_id: &str) -> ObservedItem {
    let json =
        format!(r#"{{"type":"custom_tool_call","call_id":"{call_id}","name":"shell","input":"ls"}}"#);
    ObservedItem {
        name: Some("shell".to_string()),
        ..item_of(ItemVariant::CustomToolCall, Some(call_id), json.len())
    }
}

fn custom_tool_call_output(call_id: &str) -> ObservedItem {
    let json = format!(r#"{{"type":"custom_tool_call_output","call_id":"{call_id}","output":"ok"}}"#);
    item_of(ItemVariant::CustomToolCallOutput, Some(call_id), json.len())
}

fn reasoning_item() -> ObservedItem {
    let json = r#"{"type":"reasoning","summary":[],"encrypted_content":"opaque"}"#;
    item_of(ItemVariant::Reasoning, None, json.len())
}

fn raw_item(item: ObservedItem) -> Notification {
    Notification::RawResponseItemCompleted {
        turn_id: TURN.to_string(),
        item,
    }
}

fn raw_usage(response_id: &str, input_tokens: i64, output_tokens: i64) -> Notification {
    Notification::RawResponseCompleted {
        turn_id: TURN.to_string(),
        response_id: response_id.to_string(),
        usage: Some(ResponseUsage {
            total_tokens: input_tokens + output_tokens,
            input_tokens,
            cached_input_tokens: 0,
            cache_write_input_tokens: 0,
            output_tokens,
            reasoning_output_tokens: 0,
        }),
    }
}

fn raw_usage_missing(response_id: &str) -> Notification {
    Notification::RawResponseCompleted {
        turn_id: TURN.to_string(),
        response_id: response_id.to_string(),
        usage: None,
    }
}

fn token_usage_with(last_total: i64, window: Option<i64>) -> Notification {
    Notification::ThreadTokenUsageUpdated {
        turn_id: TURN.to_string(),
        last_total_tokens: last_total,
        model_context_window: window,
    }
}

fn token_usage(last_total: i64, window: i64) -> Notification {
    token_usage_with(last_total, Some(window))
}

fn item_completed(context_compaction: bool) -> Notification {
    Notification::ItemCompleted {
        turn_id: TURN.to_string(),
        context_compaction,
    }
}

fn record(kind: RecordedKind) -> RecordedEvent {
    RecordedEvent {
        thread_id: THREAD.to_string(),
        turn_id: Some(TURN.to_string()),
        kind,
    }
}

fn observe_all(notifications: &[Notification]) -> Vec<RecordedEvent> {
    let mut adapter = ThreadProfilerAdapter::new();
    notifications
        .iter()
        .filter_map(|notification| adapter.observe(notification))
        .map(|observation| to_record(THREAD, &observation))
        .collect()
}

fn item_kinds(records: &[RecordedEvent]) -> Vec<(&str, u64)> {
    records
        .iter()
        .filter_map(|record| match &record.kind {
            RecordedKind::Item {
                item_kind,
                items_seq,
                ..
            } => Some((item_kind.as_str(), *items_seq)),
            _ => None,
        })
        .collect()
}

/// Response outputs, then raw usage, then the tool output, then token usage.
#[test]
fn replays_measured_capture() {
    let mut notifications = vec![turn_started()];
    notifications.extend((1..6).map(|index| raw_item(message_item(&format!("input {index}")))));
    notifications.push(raw_item(reasoning_item()));
    notifications.push(raw_item(message_item("commentary")));
    notifications.push(raw_item(custom_tool_call("call_1")));
    notifications.push(raw_usage("resp_a", 25_230, 192));
    notifications.push(raw_item(custom_tool_call_output("call_1")));
    notifications.push(token_usage(25_422, 258_400));
    notifications.push(raw_item(reasoning_item()));
    notifications.push(raw_usage("resp_b", 29_137, 93));
    notifications.push(token_usage(29_230, 258_400));
    notifications.push(turn_completed(TurnStatus::Completed));

    let records = observe_all(&notifications);
    let non_item: Vec<RecordedKind> = records
        .iter()
        .filter(|record| !matches!(record.kind, RecordedKind::Item { .. }))
        .map(|record| record.kind.clone())
        .collect();

    assert_eq!(
        item_kinds(&records),
        vec![
            ("Message", 1),
            ("Message", 2),
            ("Message", 3),
            ("Message", 4),
            ("Message", 5),
            ("Reasoning", 6),
            ("Message", 7),
            ("CustomToolCall", 8),
            ("CustomToolCallOutput", 9),
            ("Reasoning", 10),
        ]
    );
    assert_eq!(
        non_item,
        vec![
            RecordedKind::TurnStarted,
            RecordedKind::Usage {
                response_id: "resp_a".to_string(),
                reported_context_tokens: 25_422,
                input_tokens: 25_230,
                cached_input_tokens: 0,
                cache_write_input_tokens: 0,
                output_tokens: 192,
                reasoning_output_tokens: 0,
                items_seq: 8,
            },
            RecordedKind::WindowUpdated {
                window: 258_400,
                matches_anchor: Some(true),
            },
            RecordedKind::Usage {
                response_id: "resp_b".to_string(),
                reported_context_tokens: 29_230,
                input_tokens: 29_137,
                cached_input_tokens: 0,
                cache_write_input_tokens: 0,
                output_tokens: 93,
                reasoning_output_tokens: 0,
                items_seq: 10,
            },
            RecordedKind::WindowUpdated {
                window: 258_400,
                matches_anchor: Some(true),
            },
            RecordedKind::TurnEnded {
                completed: true,
                status: "completed".to_string(),
            },
        ]
    );
    assert_eq!(records[1].thread_id, THREAD);
    assert_eq!(records[1].turn_id, Some(TURN.to_string()));
}

/// A token usage update without a window must not consume the pending anchor.
#[test]
fn a_windowless_update_keeps_the_anchor() {
    let records = observe_all(&[
        raw_usage("resp_a", 100, 10),
        token_usage_with(110, None),
        token_usage(110, 258_400),
    ]);

    assert_eq!(
        records,
        vec![
            record(RecordedKind::Usage {
                response_id: "resp_a".to_string(),
                reported_context_tokens: 110,
                input_tokens: 100,
                cached_input_tokens: 0,
                cache_write_input_tokens: 0,
                output_tokens: 10,
                reasoning_output_tokens: 0,
                items_seq: 0,
            }),
            record(RecordedKind::WindowUpdated {
                window: 258_400,
                matches_anchor: Some(true),
            }),
        ]
    );
}

/// The adapter owns no accounting formula: the protocol's total is recorded as is.
#[test]
fn the_protocol_total_is_authoritative() {
    let inconsistent = Notification::RawResponseCompleted {
        turn_id: TURN.to_string(),
        response_id: "resp_a".to_string(),
        usage: Some(ResponseUsage {
            total_tokens: 999,
            input_tokens: 100,
            cached_input_tokens: 0,
            cache_write_input_tokens: 0,
            output_tokens: 10,
            reasoning_output_tokens: 0,
        }),
    };
    let records = observe_all(&[inconsistent, token_usage(999, 258_400)]);

    assert_eq!(
        records,
        vec![
            record(RecordedKind::Usage {
                response_id: "resp_a".to_string(),
                reported_context_tokens: 999,
                input_tokens: 100,
                cached_input_tokens: 0,
                cache_write_input_tokens: 0,
                output_tokens: 10,
                reasoning_output_tokens: 0,
                items_seq: 0,
            }),
            record(RecordedKind::WindowUpdated {
                window: 258_400,
                matches_anchor: Some(true),
            }),
        ]
    );
}

/// An interrupted turn strands items past the last anchor and sends no usage.
#[test]
fn interrupted_turn_reports_no_missing_usage() {
    let records = observe_all(&[
        raw_item(custom_tool_call("call_1")),
        raw_usage("resp_a", 42_648, 130),
        raw_item(message_item("output")),
        token_usage(42_778, 258_400),
        raw_item(message_item("stranded")),
        turn_completed(TurnStatus::Interrupted),
    ]);

    assert_eq!(
        records.last().map(|record| record.kind.clone()),
        Some(RecordedKind::TurnEnded {
            completed: false,
            status: "interrupted".to_string(),
        })
    );
    assert!(!records
        .iter()
        .any(|record| matches!(record.kind, RecordedKind::MissingUsage { .. })));
}

#[test]
fn absent_usage_clears_the_anchor() {
    let records = observe_all(&[raw_usage_missing("resp_a"), token_usage(1_000, 258_400)]);

    assert_eq!(
        records,
        vec![
            record(RecordedKind::MissingUsage {
                response_id: "resp_a".to_string(),
            }),
            record(RecordedKind::WindowUpdated {
                window: 258_400,
                matches_anchor: None,
            }),
        ]
    );
}

#[test]
fn compaction_invalidates_and_other_items_are_ignored() {
    let records = observe_all(&[
        raw_usage("resp_a", 10, 5),
        item_completed(true),
        item_completed(false),
        token_usage(15, 258_400),
    ]);

    assert_eq!(
        records,
        vec![
            record(RecordedKind::Usage {
                response_id: "resp_a".to_string(),
                reported_context_tokens: 15,
                input_tokens: 10,
                cached_input_tokens: 0,
                cache_write_input_tokens: 0,
                output_tokens: 5,
                reasoning_output_tokens: 0,
                items_seq: 0,
            }),
            record(RecordedKind::Invalidated {
                reason: "compacted".to_string(),
            }),
            record(RecordedKind::WindowUpdated {
                window: 258_400,
                matches_anchor: None,
            }),
        ]
    );
}

#[test]
fn only_the_latest_anchor_is_compared() {
    let matching_second = observe_all(&[
        raw_usage("resp_a", 100, 10),
        raw_usage("resp_b", 200, 20),
        token_usage(220, 258_400),
    ]);
    let matching_first = observe_all(&[
        raw_usage("resp_a", 100, 10),
        raw_usage("resp_b", 200, 20),
        token_usage(110, 258_400),
    ]);

    assert_eq!(
        matching_second.last().map(|record| record.kind.clone()),
        Some(RecordedKind::WindowUpdated {
            window: 258_400,
            matches_anchor: Some(true),
        })
    );
    assert_eq!(
        matching_first.last().map(|record| record.kind.clone()),
        Some(RecordedKind::WindowUpdated {
            window: 258_400,
            matches_anchor: Some(false),
        })
    );
}

#[test]
fn invalidate_clears_the_anchor() {
    let mut adapter = ThreadProfilerAdapter::new();
    adapter.observe(&raw_usage("resp_a", 100, 10));
    let invalidated = to_record(
        THREAD,
        &adapter.invalidate(InvalidationReason::EventsDropped { skipped: 3 }),
    );
    let update = token_usage(110, 258_400);
    let window = adapter
        .observe(&update)
        .map(|observation| to_record(THREAD, &observation));

    assert_eq!(
        invalidated,
        RecordedEvent {
            thread_id: THREAD.to_string(),
            turn_id: None,
            kind: RecordedKind::Invalidated {
                reason: "events_dropped(skipped=3)".to_string(),
            },
        }
    );
    assert_eq!(
        window,
        Some(record(RecordedKind::WindowUpdated {
            window: 258_400,
            matches_anchor: None,
        }))
    );
}

#[test]
fn attached_names_the_thread() {
    assert_eq!(
        attached_record(THREAD),
        RecordedEvent {
            thread_id: THREAD.to_string(),
            turn_id: None,
            kind: RecordedKind::Attached,
        }
    );
}

#[test]
fn burst_of_notifications_keeps_every_item_in_order() {
    let mut notifications = Vec::new();
    for index in 0..10_000 {
        if index % 10 == 9 {
            notifications.push(raw_usage(&format!("resp_{index}"), index, 1));
        } else {
            notifications.push(raw_item(message_item(&format!("item {index}"))));
        }
    }

    let records = observe_all(&notifications);
    let items = item_kinds(&records);

    assert_eq!(records.len(), 10_000);
    assert_eq!(items.len(), 9_000);
    assert_eq!(items.last(), Some(&("Message", 9_000)));
}

#[test]
fn an_item_record_carries_its_size_stamp_and_pairing() {
    let mut item = custom_tool_call("call_7");
    item.stamped_turn_id = Some("tu_9".to_string());
    let bytes = item.bytes.expect("sized item");
    let records = observe_all(&[raw_item(item)]);
    assert_eq!(
        records,
        vec![record(RecordedKind::Item {
            item_kind: "CustomToolCall".to_string(),
            bytes,
            items_seq: 1,
            stamped_turn_id: Some("tu_9".to_string()),
            call_id: Some("call_7".to_string()),
        })]
    );
}

#[test]
fn a_sequence_mismatch_names_both_counts() {
    assert_eq!(
        "sequence_mismatch(anchor=12, profiler=7)",
        context_profiler::invalidation_reason(InvalidationReason::SequenceMismatch {
            anchor_items_seen: 12,
            profiler_items_seen: 7,
        })
    );
    assert_eq!(
        "events_dropped(skipped=0)",
        context_profiler::invalidation_reason(InvalidationReason::EventsDropped { skipped: 0 })
    );
}
