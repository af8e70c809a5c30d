use context_profiler::classify;
use context_profiler::item_tokens;
use context_profiler::OutputEntry;
use context_profiler::OutputEntryKind;
use context_profiler::IMAGE_TOKENS;
use context_profiler::pricing_kind;
use context_profiler::Category;
use context_profiler::ContentEntry;
use context_profiler::ContentEntryKind;
use context_profiler::ContentPart;
use context_profiler::ItemVariant;
use context_profiler::ObservedItem;
use context_profiler::PartMedia;
use context_profiler::PricingKind;

/// A JSON string literal, escaped as serde writes it.
fn quoted(text: &str) -> String {
    serde_json::to_string(text).expect("a string serializes")
}

fn entry_json(kind: ContentEntryKind, text: &str) -> String {
    match kind {
        ContentEntryKind::InputText => format!(r#"{{"type":"input_text","text":{}}}"#, quoted(text)),
        ContentEntryKind::OutputText => {
            format!(r#"{{"type":"output_text","text":{}}}"#, quoted(text))
        }
        ContentEntryKind::InputImage => {
            format!(r#"{{"type":"input_image","image_url":{}}}"#, quoted(text))
        }
        ContentEntryKind::InputAudio => format!(r#"{{"type":"input_audio","data":{}}}"#, quoted(text)),
    }
}

fn text(text: &str) -> (ContentEntryKind, String) {
    (ContentEntryKind::InputText, text.to_string())
}

fn image(url: &str) -> (ContentEntryKind, String) {
    (ContentEntryKind::InputImage, url.to_string())
}

/// A message with one content entry per kind, or no metadata at all when `kinds` is `None`.
fn message(role: &str, content: Vec<(ContentEntryKind, String)>, kinds: Option<&[&str]>) -> ObservedItem {
    let entries: Vec<String> = content
        .iter()
        .map(|(kind, body)| entry_json(*kind, body))
        .collect();
    let json = format!(
        r#"{{"type":"message","role":{},"content":[{}]}}"#,
        quoted(role),
        entries.join(",")
    );
    ObservedItem {
        variant: ItemVariant::Message,
        id: None,
        stamped_turn_id: None,
        role: role.to_string(),
        content: content
            .iter()
            .zip(entries.iter())
            .map(|((kind, body), json)| ContentEntry {
                kind: *kind,
                text: if *kind == ContentEntryKind::InputImage {
                    String::new()
                } else {
                    body.clone()
                },
                bytes: Some(json.len()),
            })
            .collect(),
        content_item_kinds: kinds.map(|kinds| kinds.iter().map(|kind| kind.to_string()).collect()),
        call_id: None,
        name: None,
        output_entries: None,
        bytes: Some(json.len()),
    }
}

fn user(kind: &str, body: &str) -> ObservedItem {
    message("user", vec![text(body)], Some(&[kind]))
}

/// An item of a variant without a role or content.
fn bare(variant: ItemVariant, call_id: Option<&str>, json: &str) -> ObservedItem {
    ObservedItem {
        variant,
        id: None,
        stamped_turn_id: None,
        role: String::new(),
        content: Vec::new(),
        content_item_kinds: None,
        call_id: call_id.map(str::to_string),
        name: None,
        output_entries: None,
        bytes: Some(json.len()),
    }
}

fn tool_output() -> ObservedItem {
    bare(
        ItemVariant::CustomToolCallOutput,
        Some("call_1"),
        r#"{"type":"custom_tool_call_output","call_id":"call_1","output":"ok"}"#,
    )
}

fn configuration_update() -> ObservedItem {
    bare(
        ItemVariant::ConfigurationUpdate,
        None,
        r#"{"type":"configuration_update","reasoning":{"effort":"medium"}}"#,
    )
}

fn every_variant() -> Vec<(ObservedItem, PricingKind)> {
    vec![
        (
            message("user", vec![text("hi")], Some(&["user.text"])),
            PricingKind::Input,
        ),
        (
            message("developer", vec![text("hi")], Some(&["user.text"])),
            PricingKind::Input,
        ),
        (
            message("assistant", vec![text("hi")], Some(&["unknown"])),
            PricingKind::Output,
        ),
        (message("system", vec![text("hi")], None), PricingKind::Ambiguous),
        (message("tool", vec![text("hi")], None), PricingKind::Ambiguous),
        (
            bare(
                ItemVariant::FunctionCallOutput,
                Some("call_1"),
                r#"{"type":"function_call_output","call_id":"call_1","output":"ok"}"#,
            ),
            PricingKind::Input,
        ),
        (tool_output(), PricingKind::Input),
        (
            bare(
                ItemVariant::ToolSearchOutput,
                None,
                r#"{"type":"tool_search_output","status":"completed","execution":"local","tools":[]}"#,
            ),
            PricingKind::Input,
        ),
        (
            bare(
                ItemVariant::AgentMessage,
                None,
                r#"{"type":"agent_message","author":"codex","recipient":"user","content":[]}"#,
            ),
            PricingKind::Output,
        ),
        (
            bare(
                ItemVariant::Reasoning,
                None,
                r#"{"type":"reasoning","summary":[],"encrypted_content":"opaque"}"#,
            ),
            PricingKind::Output,
        ),
        (
            bare(
                ItemVariant::FunctionCall,
                Some("call_1"),
                r#"{"type":"function_call","name":"shell","arguments":"{}","call_id":"call_1"}"#,
            ),
            PricingKind::Output,
        ),
        (
            bare(
                ItemVariant::CustomToolCall,
                Some("call_1"),
                r#"{"type":"custom_tool_call","call_id":"call_1","name":"shell","input":"ls"}"#,
            ),
            PricingKind::Output,
        ),
        (
            bare(
                ItemVariant::LocalShellCall,
                Some("call_1"),
                r#"{"type":"local_shell_call","call_id":"call_1","status":"completed"}"#,
            ),
            PricingKind::Output,
        ),
        (
            bare(
                ItemVariant::ToolSearchCall,
                None,
                r#"{"type":"tool_search_call","execution":"local","arguments":null}"#,
            ),
            PricingKind::Output,
        ),
        (
            bare(ItemVariant::WebSearchCall, None, r#"{"type":"web_search_call"}"#),
            PricingKind::Output,
        ),
        (
            bare(
                ItemVariant::ImageGenerationCall,
                None,
                r#"{"type":"image_generation_call","status":"completed","result":""}"#,
            ),
            PricingKind::Output,
        ),
        (
            bare(ItemVariant::CompactionTrigger, None, r#"{"type":"compaction_trigger"}"#),
            PricingKind::Ambiguous,
        ),
        (
            bare(
                ItemVariant::AdditionalTools,
                None,
                r#"{"type":"additional_tools","role":"system","tools":[]}"#,
            ),
            PricingKind::Ambiguous,
        ),
        (
            bare(
                ItemVariant::Compaction,
                None,
                r#"{"type":"compaction","encrypted_content":"opaque"}"#,
            ),
            PricingKind::Ambiguous,
        ),
        (
            bare(ItemVariant::ContextCompaction, None, r#"{"type":"context_compaction"}"#),
            PricingKind::Ambiguous,
        ),
        (bare(ItemVariant::Other, None, r#"{"type":"other"}"#), PricingKind::Ambiguous),
        (configuration_update(), PricingKind::Ambiguous),
    ]
}

#[test]
fn every_variant_and_role_has_a_pricing_kind() {
    let expected: Vec<PricingKind> = every_variant()
        .iter()
        .map(|(_, pricing)| *pricing)
        .collect();
    let actual: Vec<PricingKind> = every_variant()
        .iter()
        .map(|(item, _)| pricing_kind(item))
        .collect();
    assert_eq!(expected, actual);
}

#[test]
fn the_kind_table_decides_the_category() {
    let rows = [
        (user("user.text", "hello"), Category::UserMessage, false),
        (
            message("user", vec![image("data:,")], Some(&["user.image"])),
            Category::UserMessage,
            false,
        ),
        (
            user("compaction.summary", "summary"),
            Category::Compaction,
            false,
        ),
        (
            user("compaction.auto_fallback_prompt", "keep going"),
            Category::Instructions,
            false,
        ),
        (
            user("never_seen_upstream.family", "novel"),
            Category::Instructions,
            false,
        ),
        (
            message("assistant", vec![text("done")], Some(&["unknown"])),
            Category::AgentMessage,
            false,
        ),
        (
            message("system", vec![text("be brief")], None),
            Category::Instructions,
            false,
        ),
        (
            message("tool", vec![text("mystery")], None),
            Category::Other,
            true,
        ),
    ];

    let expected: Vec<(Category, bool)> = rows
        .iter()
        .map(|(_, category, warned)| (*category, *warned))
        .collect();
    let actual: Vec<(Category, bool)> = rows
        .iter()
        .map(|(item, _, _)| {
            let classification = classify(item);
            (classification.category, classification.warned())
        })
        .collect();
    assert_eq!(expected, actual);
}

#[test]
fn kinds_are_looked_up_by_index_never_zipped() {
    let short = message(
        "user",
        vec![text("<user_instructions>do this"), text("and this")],
        Some(&["agents_md.instructions"]),
    );
    let classification = classify(&short);
    assert_eq!(
        vec![Category::Instructions, Category::UserMessage],
        classification
            .parts
            .iter()
            .map(|part| part.category)
            .collect::<Vec<_>>()
    );
    assert_eq!(
        vec!["agents_md.instructions".to_string(), String::new()],
        classification
            .parts
            .iter()
            .map(|part| part.kind.clone())
            .collect::<Vec<_>>()
    );
    assert!(classification.warned());

    let long = message(
        "user",
        vec![text("hello")],
        Some(&["user.text", "agents_md.instructions"]),
    );
    let classification = classify(&long);
    assert_eq!(Category::UserMessage, classification.category);
    assert_eq!(1, classification.parts.len());
    assert!(classification.warned());
}

#[test]
fn an_untagged_message_falls_back_to_the_open_tag_marker() {
    let tagged = message(
        "user",
        vec![text("\n<user_instructions>\nbe careful\n")],
        None,
    );
    let plain = message("user", vec![text("just a question")], None);

    let tagged = classify(&tagged);
    let plain = classify(&plain);
    assert_eq!(
        (Category::Instructions, true),
        (tagged.category, tagged.warned())
    );
    assert_eq!(
        (Category::UserMessage, true),
        (plain.category, plain.warned())
    );
}

#[test]
fn a_merged_fragment_message_keeps_one_category_but_a_mixed_one_does_not() {
    let entries = vec![text("AGENTS.md says"), text("<environment_context>cwd")];
    let merged = message(
        "user",
        entries.clone(),
        Some(&["agents_md.instructions", "environments.environment_context"]),
    );
    let classification = classify(&merged);
    assert_eq!(Category::Instructions, classification.category);
    assert!(!classification.warned());
    assert_eq!(
        entries
            .iter()
            .map(|(kind, body)| entry_json(*kind, body).len())
            .collect::<Vec<_>>(),
        classification
            .parts
            .iter()
            .map(|part| part.bytes)
            .collect::<Vec<_>>()
    );

    let mixed = message(
        "user",
        vec![text("hello"), text("AGENTS.md says")],
        Some(&["user.text", "agents_md.instructions"]),
    );
    let classification = classify(&mixed);
    assert_eq!(Category::Other, classification.category);
    assert!(classification.warned());
}

#[test]
fn a_configuration_update_is_one_ambiguous_part() {
    let item = configuration_update();
    let classification = classify(&item);

    assert_eq!(Category::Other, classification.category);
    assert_eq!(PricingKind::Ambiguous, classification.pricing);
    assert_eq!(
        vec![ContentPart {
            kind: "configuration_update".to_string(),
            bytes: item.bytes.expect("sized item"),
            category: Category::Other,
            media: PartMedia::Text,
        }],
        classification.parts
    );
}

#[test]
fn an_unknown_item_type_is_warned_about_once() {
    let classification = classify(&bare(ItemVariant::Other, None, r#"{"type":"other"}"#));
    assert_eq!(1, classification.warnings.len());
    assert_eq!(Category::Other, classification.category);
}

#[test]
fn a_tool_output_with_an_image_entry_is_priced_per_entry() {
    let mut item = tool_output();
    item.variant = ItemVariant::FunctionCallOutput;
    item.output_entries = Some(vec![
        OutputEntry {
            kind: OutputEntryKind::InputImage,
            bytes: Some(40_000),
        },
        OutputEntry {
            kind: OutputEntryKind::InputText,
            bytes: Some(464),
        },
    ]);
    let classification = classify(&item);
    assert_eq!(Category::ToolOutput, classification.category);
    assert_eq!(
        vec![PartMedia::Image, PartMedia::Text],
        classification
            .parts
            .iter()
            .map(|part| part.media)
            .collect::<Vec<_>>()
    );
    assert_eq!(
        IMAGE_TOKENS + 100,
        item_tokens(
            classification.category,
            &classification.parts,
            item.bytes.expect("sized item")
        )
    );
}

/// Whatever its content kinds claim, a response's own message is never user input.
#[test]
fn an_assistant_message_is_never_user_input() {
    let claimed = message("assistant", vec![text("hi")], Some(&["user.text"]));
    let classification = classify(&claimed);
    assert_eq!(Category::AgentMessage, classification.category);
    assert_eq!(PricingKind::Output, classification.pricing);
}

/// Each classification warning is recorded once, however many entries raise it.
#[test]
fn a_warning_is_recorded_once() {
    let noisy = message(
        "user",
        vec![text("one"), text("two"), text("<user_instructions>three")],
        Some(&["", "unknown"]),
    );
    let warnings = classify(&noisy).warnings;
    let mut distinct = warnings.clone();
    distinct.dedup();
    assert_eq!(distinct.len(), warnings.len());
    assert!(warnings.len() >= 2);
}
