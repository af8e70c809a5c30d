//! What the profiler reads of one history item, as plain values.
//!
//! A response item arrives as a wire type the profiler does not own; an adapter records here the
//! facts classification and attribution depend on: which variant it is, its role and content
//! entries, the harness-stamped content kinds, the call id that pairs it, and its serialised size.
use vstd::prelude::*;

use crate::item::opt_str_view;

verus! {

/// One variant per upstream response item type.
#[derive(Debug, Clone, Copy, PartialEq, Eq, Structural)]
pub enum ItemVariant {
    AdditionalTools,
    Message,
    AgentMessage,
    Reasoning,
    LocalShellCall,
    FunctionCall,
    ToolSearchCall,
    FunctionCallOutput,
    CustomToolCall,
    CustomToolCallOutput,
    ToolSearchOutput,
    WebSearchCall,
    ImageGenerationCall,
    Compaction,
    CompactionTrigger,
    ConfigurationUpdate,
    ContextCompaction,
    /// The serde fallback: an item type this build does not know.
    Other,
}

/// The variant of one message content entry.
#[derive(Debug, Clone, Copy, PartialEq, Eq, Structural)]
pub enum ContentEntryKind {
    InputText,
    OutputText,
    InputImage,
    InputAudio,
}

/// One entry of a message's content array.
#[derive(Debug, Clone, PartialEq, Eq)]
pub struct ContentEntry {
    pub kind: ContentEntryKind,
    /// The entry's text; empty for image and audio entries.
    pub text: String,
    /// The entry's serialised size, `None` when it could not be serialised.
    pub bytes: Option<usize>,
}

/// The variant of one entry of a structured tool output.
#[derive(Debug, Clone, Copy, PartialEq, Eq, Structural)]
pub enum OutputEntryKind {
    InputText,
    EncryptedContent,
    InputImage,
    InputAudio,
}

/// One entry of a structured tool output.
#[derive(Debug, Clone, PartialEq, Eq)]
pub struct OutputEntry {
    pub kind: OutputEntryKind,
    pub bytes: Option<usize>,
}

/// The facts of one response item that the profiler reads.
#[derive(Debug, Clone, PartialEq, Eq)]
pub struct ObservedItem {
    pub variant: ItemVariant,
    pub id: Option<String>,
    /// The turn id the item carries itself, when it carries one.
    pub stamped_turn_id: Option<String>,
    /// A message's role; empty for every other variant.
    pub role: String,
    /// A message's content array; empty for every other variant.
    pub content: Vec<ContentEntry>,
    /// The harness-owned kind of each content entry, when the message carried metadata.
    pub content_item_kinds: Option<Vec<String>>,
    pub call_id: Option<String>,
    /// The tool name of a function or custom tool call.
    pub name: Option<String>,
    /// A tool output's structured entries; `None` for a plain-text output.
    pub output_entries: Option<Vec<OutputEntry>>,
    /// The item's serialised size, `None` when it could not be serialised.
    pub bytes: Option<usize>,
}

/// The name of a variant, as labels and traces show it.
pub open spec fn spec_item_kind(variant: ItemVariant) -> &'static str {
    match variant {
        ItemVariant::AdditionalTools => "AdditionalTools",
        ItemVariant::Message => "Message",
        ItemVariant::AgentMessage => "AgentMessage",
        ItemVariant::Reasoning => "Reasoning",
        ItemVariant::LocalShellCall => "LocalShellCall",
        ItemVariant::FunctionCall => "FunctionCall",
        ItemVariant::ToolSearchCall => "ToolSearchCall",
        ItemVariant::FunctionCallOutput => "FunctionCallOutput",
        ItemVariant::CustomToolCall => "CustomToolCall",
        ItemVariant::CustomToolCallOutput => "CustomToolCallOutput",
        ItemVariant::ToolSearchOutput => "ToolSearchOutput",
        ItemVariant::WebSearchCall => "WebSearchCall",
        ItemVariant::ImageGenerationCall => "ImageGenerationCall",
        ItemVariant::Compaction => "Compaction",
        ItemVariant::CompactionTrigger => "CompactionTrigger",
        ItemVariant::ConfigurationUpdate => "ConfigurationUpdate",
        ItemVariant::ContextCompaction => "ContextCompaction",
        ItemVariant::Other => "Other",
    }
}

/// The variant of a response item, named once for labels, traces, and call pairing.
pub fn item_kind(item: &ObservedItem) -> (r: &'static str)
    ensures
        r == spec_item_kind(item.variant),
{
    match item.variant {
        ItemVariant::AdditionalTools => "AdditionalTools",
        ItemVariant::Message => "Message",
        ItemVariant::AgentMessage => "AgentMessage",
        ItemVariant::Reasoning => "Reasoning",
        ItemVariant::LocalShellCall => "LocalShellCall",
        ItemVariant::FunctionCall => "FunctionCall",
        ItemVariant::ToolSearchCall => "ToolSearchCall",
        ItemVariant::FunctionCallOutput => "FunctionCallOutput",
        ItemVariant::CustomToolCall => "CustomToolCall",
        ItemVariant::CustomToolCallOutput => "CustomToolCallOutput",
        ItemVariant::ToolSearchOutput => "ToolSearchOutput",
        ItemVariant::WebSearchCall => "WebSearchCall",
        ItemVariant::ImageGenerationCall => "ImageGenerationCall",
        ItemVariant::Compaction => "Compaction",
        ItemVariant::CompactionTrigger => "CompactionTrigger",
        ItemVariant::ConfigurationUpdate => "ConfigurationUpdate",
        ItemVariant::ContextCompaction => "ContextCompaction",
        ItemVariant::Other => "Other",
    }
}

/// The variants that pair with their call or output through a call id.
pub open spec fn carries_call_id(variant: ItemVariant) -> bool {
    match variant {
        ItemVariant::LocalShellCall | ItemVariant::ToolSearchCall | ItemVariant::FunctionCallOutput
        | ItemVariant::ToolSearchOutput | ItemVariant::FunctionCall | ItemVariant::CustomToolCall
        | ItemVariant::CustomToolCallOutput => true,
        _ => false,
    }
}

/// The id pairing a tool call with its output; calls and outputs pair globally, not per turn.
pub open spec fn spec_call_id(item: ObservedItem) -> Option<Seq<char>> {
    if carries_call_id(item.variant) {
        opt_str_view(item.call_id)
    } else {
        None
    }
}

/// A tool call and a tool output are paired by the call id they carry: every call and output
/// variant that carries one on the wire yields it, and every other item yields none.
pub proof fn lemma_calls_and_outputs_yield_their_call_id(item: ObservedItem)
    ensures
        (item.variant == ItemVariant::FunctionCall || item.variant == ItemVariant::CustomToolCall
            || item.variant == ItemVariant::LocalShellCall || item.variant
            == ItemVariant::ToolSearchCall || item.variant == ItemVariant::FunctionCallOutput
            || item.variant == ItemVariant::CustomToolCallOutput || item.variant
            == ItemVariant::ToolSearchOutput) ==> spec_call_id(item) == opt_str_view(item.call_id),
        (item.variant == ItemVariant::AdditionalTools || item.variant == ItemVariant::Message
            || item.variant == ItemVariant::AgentMessage || item.variant == ItemVariant::Reasoning
            || item.variant == ItemVariant::WebSearchCall || item.variant
            == ItemVariant::ImageGenerationCall || item.variant == ItemVariant::Compaction
            || item.variant == ItemVariant::CompactionTrigger || item.variant
            == ItemVariant::ConfigurationUpdate || item.variant == ItemVariant::ContextCompaction
            || item.variant == ItemVariant::Other) ==> spec_call_id(item) is None,
{
}

/// The id that pairs a tool call with its output.
pub fn call_id(item: &ObservedItem) -> (r: Option<String>)
    ensures
        opt_str_view(r) == spec_call_id(*item),
        (item.variant == ItemVariant::FunctionCall || item.variant == ItemVariant::CustomToolCall
            || item.variant == ItemVariant::LocalShellCall || item.variant
            == ItemVariant::ToolSearchCall || item.variant == ItemVariant::FunctionCallOutput
            || item.variant == ItemVariant::CustomToolCallOutput || item.variant
            == ItemVariant::ToolSearchOutput) ==> opt_str_view(r) == opt_str_view(item.call_id),
        (item.variant == ItemVariant::Message || item.variant == ItemVariant::AgentMessage
            || item.variant == ItemVariant::Reasoning || item.variant == ItemVariant::WebSearchCall
            || item.variant == ItemVariant::ImageGenerationCall) ==> r is None,
{
    match item.variant {
        ItemVariant::LocalShellCall | ItemVariant::ToolSearchCall | ItemVariant::FunctionCallOutput
        | ItemVariant::ToolSearchOutput | ItemVariant::FunctionCall | ItemVariant::CustomToolCall
        | ItemVariant::CustomToolCallOutput => match &item.call_id {
            Some(call_id) => Some(call_id.clone()),
            None => None,
        },
        ItemVariant::AdditionalTools | ItemVariant::Message | ItemVariant::AgentMessage
        | ItemVariant::Reasoning | ItemVariant::WebSearchCall | ItemVariant::ImageGenerationCall
        | ItemVariant::Compaction | ItemVariant::CompactionTrigger
        | ItemVariant::ConfigurationUpdate | ItemVariant::ContextCompaction
        | ItemVariant::Other => None,
    }
}

} // verus!
