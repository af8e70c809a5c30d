use context_profiler::classify;
use context_profiler::item_tokens;
use context_profiler::ContentEntry;
use context_profiler::ContentEntryKind;
use context_profiler::ItemVariant;
use context_profiler::ObservedItem;
use context_profiler::Category;
use context_profiler::ContentPart;
use context_profiler::PartMedia;
use context_profiler::IMAGE_TOKENS;
use context_profiler::reasoning_tokens;
use context_profiler::text_tokens;

/// Deliberately loose: the estimator only has to keep an unmeasured item in the right order of
/// magnitude, since every item that matters is repriced from an anchor. Do not tighten this.
const TEXT_TOLERANCE: i64 = 2;
const REASONING_TOLERANCE: i64 = 10;

fn assert_within(factor: i64, measured: i64, estimated: i64) {
    assert!(
        estimated * factor >= measured && measured * factor >= estimated,
        "{estimated} is more than {factor}x from the measured {measured}"
    );
}

/// The measured calibration points from the module table.
#[test]
fn the_estimator_stays_within_a_factor_of_two_of_every_measured_point() {
    for (bytes, measured) in [
        (4_792_usize, 1_040_i64),
        (15_876, 3_373),
        (14_152, 2_219),
        (24_567, 5_043),
        (41_448, 8_942),
    ] {
        assert_within(TEXT_TOLERANCE, measured, text_tokens(bytes));
    }
    assert_within(REASONING_TOLERANCE, 14, reasoning_tokens(1_593));
}

#[test]
fn an_empty_item_costs_nothing_and_a_huge_one_does_not_overflow() {
    assert_eq!(0, text_tokens(0));
    assert_eq!(0, reasoning_tokens(0));
    assert_eq!(2_259_862, text_tokens(10 * 1_024 * 1_024));
    // Widened to i128 before the multiply, so even an impossible size neither wraps nor panics.
    assert!(text_tokens(usize::MAX) > 0);
}

#[test]
fn the_estimates_of_the_calibration_points() {
    assert_eq!(1_032, text_tokens(4_792));
    assert_eq!(8_932, text_tokens(41_448));
    assert_eq!(15, reasoning_tokens(1_593));
    assert_eq!(3_975_591_395_196_024_054, text_tokens(usize::MAX));
}

#[test]
fn a_reasoning_item_is_priced_by_its_whole_size_and_parts_are_summed() {
    let text = ContentPart {
        kind: "user.text".to_string(),
        bytes: 928,
        category: Category::UserMessage,
        media: PartMedia::Text,
    };
    let image = ContentPart {
        kind: "user.image".to_string(),
        bytes: 40_000,
        category: Category::UserMessage,
        media: PartMedia::Image,
    };
    assert_eq!(16, item_tokens(Category::Reasoning, &[text.clone()], 1_600));
    assert_eq!(1_000, item_tokens(Category::UserMessage, &[], 4_640));
    assert_eq!(
        IMAGE_TOKENS + 200,
        item_tokens(Category::UserMessage, &[image, text], 41_000)
    );
}

/// An image is a data URL tens of kilobytes long that costs about a paragraph, so it is priced flat
/// and only the sibling text entry is priced per byte.
#[test]
fn an_image_entry_takes_the_flat_estimate_and_its_siblings_do_not() {
    let image_url = format!("data:image/png;base64,{}", "A".repeat(40_000));
    let image = format!(r#"{{"type":"input_image","image_url":"{image_url}"}}"#);
    let text = r#"{"type":"input_text","text":"what is this?"}"#.to_string();
    let json = format!(r#"{{"type":"message","role":"user","content":[{image},{text}]}}"#);
    let item = ObservedItem {
        variant: ItemVariant::Message,
        id: None,
        stamped_turn_id: None,
        role: "user".to_string(),
        content: vec![
            ContentEntry {
                kind: ContentEntryKind::InputImage,
                text: String::new(),
                bytes: Some(image.len()),
            },
            ContentEntry {
                kind: ContentEntryKind::InputText,
                text: "what is this?".to_string(),
                bytes: Some(text.len()),
            },
        ],
        content_item_kinds: Some(vec!["user.image".to_string(), "user.text".to_string()]),
        call_id: None,
        name: None,
        output_entries: None,
        bytes: Some(json.len()),
    };

    let classification = classify(&item);
    let bytes = json.len();
    let parts = &classification.parts;
    assert_eq!(
        vec![PartMedia::Image, PartMedia::Text],
        parts.iter().map(|part| part.media).collect::<Vec<_>>()
    );
    assert_eq!(
        IMAGE_TOKENS + text_tokens(parts[1].bytes),
        item_tokens(classification.category, parts, bytes)
    );
    // The base64 payload dominates the item, so pricing it as text would be several times over.
    assert!(text_tokens(bytes) > 4 * item_tokens(classification.category, parts, bytes));
}
