use context_profiler::ContentEntry;
use context_profiler::ContentEntryKind;
use context_profiler::ItemVariant;
use context_profiler::Notification;
use context_profiler::ObservedItem;
use context_profiler::ProfilerRegistry;
use context_profiler::RecordedEvent;
use context_profiler::RecordedKind;
use context_profiler::ResponseUsage;

fn message(role: &str, text: &str, kinds: Option<&str>) -> ObservedItem {
    let kind = if role == "assistant" {
        ContentEntryKind::OutputText
    } else {
        ContentEntryKind::InputText
    };
    let entry_type = if role == "assistant" {
        "output_text"
    } else {
        "input_text"
    };
    let entry = format!(r#"{{"type":"{entry_type}","text":"{text}"}}"#);
    let json = format!(r#"{{"type":"message","role":"{role}","content":[{entry}]}}"#);
    ObservedItem {
        variant: ItemVariant::Message,
        id: None,
        stamped_turn_id: None,
        role: role.to_string(),
        content: vec![ContentEntry {
            kind,
            text: text.to_string(),
            bytes: Some(entry.len()),
        }],
        content_item_kinds: kinds.map(|kind| vec![kind.to_string()]),
        call_id: None,
        name: None,
        output_entries: None,
        bytes: Some(json.len()),
    }
}

fn raw_item(text: &str) -> Notification {
    Notification::RawResponseItemCompleted {
        turn_id: "tu_1".to_string(),
        item: message("assistant", text, None),
    }
}

fn user_item(text: &str) -> Notification {
    Notification::RawResponseItemCompleted {
        turn_id: "tu_1".to_string(),
        item: message("user", text, Some("user.text")),
    }
}

fn turn_started() -> Notification {
    Notification::TurnStarted {
        turn_id: "tu_1".to_string(),
    }
}

fn raw_usage(input_tokens: i64, output_tokens: i64) -> Notification {
    Notification::RawResponseCompleted {
        turn_id: "tu_1".to_string(),
        response_id: "resp_a".to_string(),
        usage: Some(ResponseUsage {
            total_tokens: input_tokens + output_tokens,
            input_tokens,
            cached_input_tokens: 0,
            cache_write_input_tokens: 0,
            output_tokens,
            reasoning_output_tokens: 0,
        }),
    }
}

/// A first request: one turn, one user item, and the anchor that prices it.
/// The anchor carries no output tokens, so the whole unattributed residual is the baseline.
fn first_request() -> Vec<Notification> {
    vec![turn_started(), user_item("hello"), raw_usage(1_200, 0)]
}

fn folded_items(registry: &ProfilerRegistry, thread_id: &str) -> usize {
    registry
        .state(thread_id)
        .expect("thread is profiled")
        .snapshot
        .items
        .len()
}

fn kind_name(record: &RecordedEvent) -> &'static str {
    match record.kind {
        RecordedKind::Attached => "attached",
        RecordedKind::TurnStarted => "turn_started",
        RecordedKind::Item { .. } => "item",
        RecordedKind::Usage { .. } => "usage",
        RecordedKind::MissingUsage { .. } => "missing_usage",
        RecordedKind::WindowUpdated { .. } => "window_updated",
        RecordedKind::TurnEnded { .. } => "turn_ended",
        RecordedKind::Invalidated { .. } => "invalidated",
    }
}

fn items_seq(record: &RecordedEvent) -> Option<u64> {
    match record.kind {
        RecordedKind::Item { items_seq, .. } => Some(items_seq),
        _ => None,
    }
}

#[test]
fn attaching_writes_attached_before_observed_records() {
    let thread_id = "th_1";
    let mut registry = ProfilerRegistry::enabled(true);

    let mut records = registry.observe(thread_id, &raw_item("one"), true);
    records.extend(registry.observe(thread_id, &raw_item("two"), true));

    assert_eq!(
        records.iter().map(kind_name).collect::<Vec<_>>(),
        vec!["attached", "item", "item"]
    );
    assert_eq!(records[0].thread_id, thread_id);
    assert_eq!(items_seq(&records[1]), Some(1));
    assert_eq!(items_seq(&records[2]), Some(2));
}

#[test]
fn background_threads_are_not_attached_until_displayed() {
    let thread_id = "th_1";
    let mut registry = ProfilerRegistry::enabled(true);

    let hidden = registry.observe(thread_id, &raw_item("hidden"), false);
    assert!(hidden.is_empty());

    let visible = registry.observe(thread_id, &raw_item("visible"), true);
    assert_eq!(
        visible.iter().map(kind_name).collect::<Vec<_>>(),
        vec!["attached", "item"]
    );
}

#[test]
fn lag_invalidates_every_live_adapter() {
    let first = "th_1";
    let second = "th_2";
    let mut registry = ProfilerRegistry::enabled(true);
    registry.observe(first, &raw_item("a"), true);
    registry.observe(second, &raw_item("b"), true);

    let records = registry.broadcast_lagged(7);

    let invalidated: Vec<(String, String)> = records
        .iter()
        .filter_map(|record| match &record.kind {
            RecordedKind::Invalidated { reason } => {
                Some((record.thread_id.clone(), reason.clone()))
            }
            _ => None,
        })
        .collect();
    let mut thread_ids: Vec<String> = invalidated
        .iter()
        .map(|(thread_id, _)| thread_id.clone())
        .collect();
    thread_ids.sort();

    assert_eq!(thread_ids, vec![first.to_string(), second.to_string()]);
    assert!(invalidated
        .iter()
        .all(|(_, reason)| reason == "events_dropped(skipped=7)"));
    assert!(registry.state(first).expect("profiled").invalidated.is_some());
    assert!(registry.state(second).expect("profiled").invalidated.is_some());
}

#[test]
fn disabled_registry_records_nothing() {
    let thread_id = "th_1";
    let mut registry = ProfilerRegistry::disabled();

    let observed = registry.observe(thread_id, &raw_item("one"), true);
    let lagged = registry.broadcast_lagged(3);

    assert!(observed.is_empty());
    assert!(lagged.is_empty());
    assert!(registry.state(thread_id).is_none());
}

#[test]
fn reattaching_restarts_the_item_sequence() {
    let thread_id = "th_1";
    let mut registry = ProfilerRegistry::enabled(true);
    let mut records = registry.observe(thread_id, &raw_item("before"), true);

    registry.remove(thread_id);
    records.extend(registry.observe(thread_id, &raw_item("after"), true));

    assert_eq!(
        records.iter().map(kind_name).collect::<Vec<_>>(),
        vec!["attached", "item", "attached", "item"]
    );
    assert_eq!(items_seq(&records[1]), Some(1));
    assert_eq!(items_seq(&records[3]), Some(1));
}

#[test]
fn a_failed_write_drops_the_writer() {
    let thread_id = "th_1";
    let mut registry = ProfilerRegistry::enabled(true);

    let written = registry.observe(thread_id, &raw_item("one"), true);
    assert_eq!(2, written.len());
    // The caller could not append the records, so the trace is dropped.
    registry.stop_tracing();
    assert!(!registry.is_tracing());

    let after = registry.observe(thread_id, &raw_item("two"), true);
    let lagged = registry.broadcast_lagged(1);

    assert!(after.is_empty());
    assert!(lagged.is_empty());
    assert_eq!(folded_items(&registry, thread_id), 2);
}

#[test]
fn a_failed_open_keeps_profiling() {
    let thread_id = "th_1";
    let mut registry = ProfilerRegistry::enabled(false);
    assert!(!registry.is_tracing());

    for notification in first_request() {
        let records = registry.observe(thread_id, &notification, true);
        assert!(records.is_empty());
    }

    assert!(registry.state(thread_id).is_some());
    assert_eq!(folded_items(&registry, thread_id), 1);
}

#[test]
fn thread_started_creates_a_session_start_profiler() {
    let thread_id = "th_1";
    let mut registry = ProfilerRegistry::enabled(true);

    let mut records = registry.thread_started(thread_id);
    for notification in first_request() {
        records.extend(registry.observe(thread_id, &notification, true));
    }

    assert!(registry
        .state(thread_id)
        .expect("thread is profiled")
        .snapshot
        .baseline_tokens
        .is_some());
    assert_eq!(kind_name(&records[0]), "attached");
}

#[test]
fn lazy_attachment_is_mid_stream() {
    let thread_id = "th_1";
    let mut registry = ProfilerRegistry::enabled(true);

    for notification in first_request() {
        registry.observe(thread_id, &notification, true);
    }

    assert!(registry
        .state(thread_id)
        .expect("thread is profiled")
        .snapshot
        .baseline_tokens
        .is_none());
}

#[test]
fn a_thread_started_twice_is_attached_once() {
    let mut registry = ProfilerRegistry::enabled(true);
    assert_eq!(1, registry.thread_started("th_1").len());
    assert!(registry.thread_started("th_1").is_empty());
}

#[test]
fn other_threads_are_untouched_by_one_threads_notifications() {
    let mut registry = ProfilerRegistry::enabled(true);
    registry.observe("th_1", &raw_item("one"), true);
    registry.observe("th_2", &raw_item("two"), true);
    registry.observe("th_2", &raw_item("three"), true);
    assert_eq!(1, folded_items(&registry, "th_1"));
    assert_eq!(2, folded_items(&registry, "th_2"));
}

/// The adapter stamps every anchor with the profiler's own item count, so a profiler fed by its
/// adapter is never invalidated by a mismatch.
#[test]
fn an_adapter_fed_profiler_never_sees_a_mismatch() {
    let mut registry = ProfilerRegistry::enabled(false);
    registry.thread_started("th_1");
    for notification in first_request() {
        registry.observe("th_1", &notification, true);
    }
    registry.observe("th_1", &raw_item("answer"), true);
    registry.observe("th_1", &raw_usage(1_300, 20), true);
    let state = registry.state("th_1").expect("thread is profiled");
    assert_eq!(None, state.invalidated);
    assert_eq!(2, state.anchors.len());
    assert_eq!(2, state.anchors[1].items_seq);
}
