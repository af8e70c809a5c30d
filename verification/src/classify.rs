//! Classifies an item into a display `Category` and an independent `PricingKind`.
//!
//! Display classification reads the harness-owned content item kinds that are stamped on
//! contextual messages, one kind per entry of the message's `content` array. Kind strings churn
//! across upstream versions, so nothing here matches a list of known kinds: `user.*` and
//! `compaction.summary` are the only families with special display meaning, and every other
//! non-empty kind on a user-role message is an injected instruction fragment.
use vstd::prelude::*;
use vstd::string::StrSliceExecFns;
use vstd::string::StringExecFns;

use crate::item::parts_view;
use crate::item::Category;
use crate::item::ClassificationWarning;
use crate::item::ContentPart;
use crate::item::PartMedia;
use crate::item::PartModel;
use crate::item::PricingKind;
use crate::observed::ContentEntry;
use crate::observed::ContentEntryKind;
use crate::observed::ItemVariant;
use crate::observed::ObservedItem;
use crate::observed::OutputEntry;
use crate::observed::OutputEntryKind;
use crate::text::is_prefix_of;
use crate::text::leading_white_space_len;
use crate::text::starts_with;
use crate::text::starts_with_at;
use crate::text::str_eq;
use crate::text::trim_start;

verus! {

/// The kind the harness stamps when it has no classification for an entry.
pub const UNKNOWN_KIND: &'static str = "unknown";

/// Kinds whose display category is not the default instruction one.
pub const USER_KIND_PREFIX: &'static str = "user.";

pub const COMPACTION_SUMMARY_KIND: &'static str = "compaction.summary";

/// The harness substitutes these for user input it could not deliver, so they stay the user's.
pub const IMAGES_PREPARATION_ERROR_KIND: &'static str = "images.preparation_error";

pub const IMAGES_UNSUPPORTED_KIND: &'static str = "images.unsupported";

pub const AUDIO_UNSUPPORTED_KIND: &'static str = "audio.unsupported";

/// The kind given to the single part of a configuration update.
pub const CONFIGURATION_UPDATE_KIND: &'static str = "configuration_update";

// Open tags of injected instruction fragments; the fallback for messages that reach the profiler
// without content item kinds at all.
pub const USER_INSTRUCTIONS_OPEN_TAG: &'static str = "<user_instructions>";

pub const ENVIRONMENT_CONTEXT_OPEN_TAG: &'static str = "<environment_context>";

pub const ENVIRONMENTS_INSTRUCTIONS_OPEN_TAG: &'static str = "<environments_instructions>";

pub const APPS_INSTRUCTIONS_OPEN_TAG: &'static str = "<apps_instructions>";

pub const SKILLS_INSTRUCTIONS_OPEN_TAG: &'static str = "<skills_instructions>";

pub const PLUGINS_INSTRUCTIONS_OPEN_TAG: &'static str = "<plugins_instructions>";

pub const TOOLS_OPEN_TAG: &'static str = "<tools>";

pub const COLLABORATION_MODE_OPEN_TAG: &'static str = "<collaboration_mode>";

pub const MULTI_AGENT_MODE_OPEN_TAG: &'static str = "<multi_agent_mode>";

pub const REALTIME_CONVERSATION_OPEN_TAG: &'static str = "<realtime_conversation>";

pub const CONTEXT_WINDOW_OPEN_TAG: &'static str = "<context_window>";

pub const CONTEXT_WINDOW_GUIDANCE_OPEN_TAG: &'static str = "<context_window_guidance>";

/// Whether a trimmed text opens with one of the instruction open tags.
pub open spec fn opens_with_instruction_tag(text: Seq<char>) -> bool {
    ||| is_prefix_of(USER_INSTRUCTIONS_OPEN_TAG@, text)
    ||| is_prefix_of(ENVIRONMENT_CONTEXT_OPEN_TAG@, text)
    ||| is_prefix_of(ENVIRONMENTS_INSTRUCTIONS_OPEN_TAG@, text)
    ||| is_prefix_of(APPS_INSTRUCTIONS_OPEN_TAG@, text)
    ||| is_prefix_of(SKILLS_INSTRUCTIONS_OPEN_TAG@, text)
    ||| is_prefix_of(PLUGINS_INSTRUCTIONS_OPEN_TAG@, text)
    ||| is_prefix_of(TOOLS_OPEN_TAG@, text)
    ||| is_prefix_of(COLLABORATION_MODE_OPEN_TAG@, text)
    ||| is_prefix_of(MULTI_AGENT_MODE_OPEN_TAG@, text)
    ||| is_prefix_of(REALTIME_CONVERSATION_OPEN_TAG@, text)
    ||| is_prefix_of(CONTEXT_WINDOW_OPEN_TAG@, text)
    ||| is_prefix_of(CONTEXT_WINDOW_GUIDANCE_OPEN_TAG@, text)
}

/// The message roles this crate distinguishes; the wire type is an open string, normalized
/// centrally so every match on it is exhaustive.
#[derive(Debug, Clone, Copy, PartialEq, Eq, Structural)]
pub enum Role {
    User,
    Developer,
    Assistant,
    System,
    Unknown,
}

impl Role {
    pub open spec fn spec_parse(role: Seq<char>) -> Role {
        if role == "user"@ {
            Role::User
        } else if role == "developer"@ {
            Role::Developer
        } else if role == "assistant"@ {
            Role::Assistant
        } else if role == "system"@ {
            Role::System
        } else {
            Role::Unknown
        }
    }

    pub fn parse(role: &str) -> (r: Role)
        ensures
            r == Role::spec_parse(role@),
    {
        if str_eq(role, "user") {
            Role::User
        } else if str_eq(role, "developer") {
            Role::Developer
        } else if str_eq(role, "assistant") {
            Role::Assistant
        } else if str_eq(role, "system") {
            Role::System
        } else {
            Role::Unknown
        }
    }
}

/// The outcome of classifying one item.
pub struct Classification {
    pub category: Category,
    pub pricing: PricingKind,
    pub parts: Vec<ContentPart>,
    /// Each reason at most once, so the count of warned items is `!warnings.is_empty()`.
    pub warnings: Vec<ClassificationWarning>,
}

/// The mathematical value of a `Classification`.
pub struct ClassModel {
    pub category: Category,
    pub pricing: PricingKind,
    pub parts: Seq<PartModel>,
    pub warnings: Seq<ClassificationWarning>,
}

impl View for Classification {
    type V = ClassModel;

    open spec fn view(&self) -> ClassModel {
        ClassModel {
            category: self.category,
            pricing: self.pricing,
            parts: parts_view(self.parts@),
            warnings: self.warnings@,
        }
    }
}

impl Classification {
    pub fn warned(&self) -> (r: bool)
        ensures
            r == (self.warnings@.len() > 0),
    {
        self.warnings.len() != 0
    }
}

/// `warnings` with `warning` recorded once.
pub open spec fn spec_note(
    warnings: Seq<ClassificationWarning>,
    warning: ClassificationWarning,
) -> Seq<ClassificationWarning> {
    if warnings.contains(warning) {
        warnings
    } else {
        warnings.push(warning)
    }
}

/// Records a reason once however many entries raised it.
pub fn note(warnings: &mut Vec<ClassificationWarning>, warning: ClassificationWarning)
    ensures
        final(warnings)@ == spec_note(old(warnings)@, warning),
{
    let mut i: usize = 0;
    while i < warnings.len()
        invariant
            i <= warnings@.len(),
            warnings@ == old(warnings)@,
            forall|j: int| 0 <= j < i ==> warnings@[j] != warning,
        decreases warnings@.len() - i,
    {
        if warnings[i] == warning {
            assert(warnings@.contains(warning));
            return;
        }
        i = i + 1;
    }
    warnings.push(warning);
}

pub open spec fn spec_pricing_for_role(role: Role) -> PricingKind {
    match role {
        Role::User | Role::Developer => PricingKind::Input,
        Role::Assistant => PricingKind::Output,
        Role::System | Role::Unknown => PricingKind::Ambiguous,
    }
}

pub fn pricing_for_role(role: Role) -> (r: PricingKind)
    ensures
        r == spec_pricing_for_role(role),
{
    match role {
        Role::User | Role::Developer => PricingKind::Input,
        Role::Assistant => PricingKind::Output,
        // Raw system messages are dropped after the raw-stream clone; unknown roles could go
        // either way.
        Role::System | Role::Unknown => PricingKind::Ambiguous,
    }
}

/// Which measured total may price an item.
pub open spec fn spec_pricing_kind(item: ObservedItem) -> PricingKind {
    match item.variant {
        ItemVariant::Message => spec_pricing_for_role(Role::spec_parse(item.role@)),
        ItemVariant::FunctionCallOutput | ItemVariant::CustomToolCallOutput
        | ItemVariant::ToolSearchOutput => PricingKind::Input,
        ItemVariant::AgentMessage | ItemVariant::Reasoning | ItemVariant::FunctionCall
        | ItemVariant::CustomToolCall | ItemVariant::LocalShellCall | ItemVariant::ToolSearchCall
        | ItemVariant::WebSearchCall | ItemVariant::ImageGenerationCall => PricingKind::Output,
        ItemVariant::CompactionTrigger | ItemVariant::AdditionalTools | ItemVariant::Compaction
        | ItemVariant::ContextCompaction | ItemVariant::Other
        | ItemVariant::ConfigurationUpdate => PricingKind::Ambiguous,
    }
}

/// Which measured total may price an item; exhaustive so a new variant fails the build.
pub fn pricing_kind(item: &ObservedItem) -> (r: PricingKind)
    ensures
        r == spec_pricing_kind(*item),
        (item.variant == ItemVariant::FunctionCall || item.variant == ItemVariant::CustomToolCall
            || item.variant == ItemVariant::LocalShellCall || item.variant
            == ItemVariant::ToolSearchCall || item.variant == ItemVariant::WebSearchCall
            || item.variant == ItemVariant::ImageGenerationCall || item.variant
            == ItemVariant::Reasoning || item.variant == ItemVariant::AgentMessage) ==> r
            == PricingKind::Output,
        (item.variant == ItemVariant::FunctionCallOutput || item.variant
            == ItemVariant::CustomToolCallOutput || item.variant == ItemVariant::ToolSearchOutput)
            ==> r == PricingKind::Input,
{
    match item.variant {
        ItemVariant::Message => pricing_for_role(Role::parse(item.role.as_str())),
        ItemVariant::FunctionCallOutput | ItemVariant::CustomToolCallOutput
        | ItemVariant::ToolSearchOutput => PricingKind::Input,
        ItemVariant::AgentMessage | ItemVariant::Reasoning | ItemVariant::FunctionCall
        | ItemVariant::CustomToolCall | ItemVariant::LocalShellCall | ItemVariant::ToolSearchCall
        | ItemVariant::WebSearchCall | ItemVariant::ImageGenerationCall => PricingKind::Output,
        ItemVariant::CompactionTrigger | ItemVariant::AdditionalTools | ItemVariant::Compaction
        | ItemVariant::ContextCompaction | ItemVariant::Other
        | ItemVariant::ConfigurationUpdate => PricingKind::Ambiguous,
    }
}

/// Non-message items have no content array, so their category is the variant itself.
pub open spec fn spec_structural_category(variant: ItemVariant) -> Category {
    match variant {
        ItemVariant::Reasoning => Category::Reasoning,
        ItemVariant::FunctionCall | ItemVariant::CustomToolCall | ItemVariant::LocalShellCall
        | ItemVariant::ToolSearchCall | ItemVariant::WebSearchCall
        | ItemVariant::ImageGenerationCall => Category::ToolCall,
        ItemVariant::FunctionCallOutput | ItemVariant::CustomToolCallOutput
        | ItemVariant::ToolSearchOutput => Category::ToolOutput,
        ItemVariant::AgentMessage => Category::AgentMessage,
        ItemVariant::Compaction | ItemVariant::CompactionTrigger
        | ItemVariant::ContextCompaction => Category::Compaction,
        ItemVariant::Message | ItemVariant::AdditionalTools | ItemVariant::ConfigurationUpdate
        | ItemVariant::Other => Category::Other,
    }
}

pub fn structural_category(variant: ItemVariant) -> (r: Category)
    ensures
        r == spec_structural_category(variant),
        (variant == ItemVariant::FunctionCall || variant == ItemVariant::CustomToolCall || variant
            == ItemVariant::LocalShellCall || variant == ItemVariant::ToolSearchCall || variant
            == ItemVariant::WebSearchCall || variant == ItemVariant::ImageGenerationCall) ==> r
            == Category::ToolCall,
{
    match variant {
        ItemVariant::Reasoning => Category::Reasoning,
        ItemVariant::FunctionCall | ItemVariant::CustomToolCall | ItemVariant::LocalShellCall
        | ItemVariant::ToolSearchCall | ItemVariant::WebSearchCall
        | ItemVariant::ImageGenerationCall => Category::ToolCall,
        ItemVariant::FunctionCallOutput | ItemVariant::CustomToolCallOutput
        | ItemVariant::ToolSearchOutput => Category::ToolOutput,
        ItemVariant::AgentMessage => Category::AgentMessage,
        ItemVariant::Compaction | ItemVariant::CompactionTrigger
        | ItemVariant::ContextCompaction => Category::Compaction,
        ItemVariant::Message | ItemVariant::AdditionalTools | ItemVariant::ConfigurationUpdate
        | ItemVariant::Other => Category::Other,
    }
}

pub open spec fn spec_part_media(kind: ContentEntryKind) -> PartMedia {
    match kind {
        ContentEntryKind::InputText | ContentEntryKind::OutputText => PartMedia::Text,
        ContentEntryKind::InputImage => PartMedia::Image,
        ContentEntryKind::InputAudio => PartMedia::Audio,
    }
}

pub fn part_media(entry: &ContentEntry) -> (r: PartMedia)
    ensures
        r == spec_part_media(entry.kind),
{
    match entry.kind {
        ContentEntryKind::InputText | ContentEntryKind::OutputText => PartMedia::Text,
        ContentEntryKind::InputImage => PartMedia::Image,
        ContentEntryKind::InputAudio => PartMedia::Audio,
    }
}

pub open spec fn spec_output_media(kind: OutputEntryKind) -> PartMedia {
    match kind {
        OutputEntryKind::InputText | OutputEntryKind::EncryptedContent => PartMedia::Text,
        OutputEntryKind::InputImage => PartMedia::Image,
        OutputEntryKind::InputAudio => PartMedia::Audio,
    }
}

/// The part recorded for one entry of a structured tool output.
pub open spec fn spec_output_part(entry: OutputEntry) -> PartModel {
    PartModel {
        kind: Seq::empty(),
        bytes: entry.bytes.unwrap_or(0),
        category: Category::ToolOutput,
        media: spec_output_media(entry.kind),
    }
}

pub open spec fn spec_output_parts(entries: Option<Vec<OutputEntry>>) -> Seq<PartModel> {
    match entries {
        None => Seq::empty(),
        Some(entries) => entries@.map_values(|entry: OutputEntry| spec_output_part(entry)),
    }
}

/// Structured tool outputs can carry images and audio, which must not be priced as prose.
pub fn output_parts(entries: &Option<Vec<OutputEntry>>) -> (r: Vec<ContentPart>)
    ensures
        parts_view(r@) == spec_output_parts(*entries),
{
    let entries = match entries {
        None => return Vec::new(),
        Some(entries) => entries,
    };
    let mut parts: Vec<ContentPart> = Vec::new();
    let mut i: usize = 0;
    while i < entries.len()
        invariant
            i <= entries@.len(),
            parts_view(parts@) =~= entries@.take(i as int).map_values(
                |entry: OutputEntry| spec_output_part(entry),
            ),
        decreases entries@.len() - i,
    {
        let entry = &entries[i];
        let media = match entry.kind {
            OutputEntryKind::InputText | OutputEntryKind::EncryptedContent => PartMedia::Text,
            OutputEntryKind::InputImage => PartMedia::Image,
            OutputEntryKind::InputAudio => PartMedia::Audio,
        };
        let bytes = match entry.bytes {
            Some(bytes) => bytes,
            None => 0,
        };
        let part = ContentPart { kind: String::new(), bytes, category: Category::ToolOutput, media };
        let ghost prev = parts@;
        proof {
            assert(part@ == spec_output_part(*entry));
        }
        parts.push(part);
        proof {
            assert(entries@.take(i + 1) =~= entries@.take(i as int).push(*entry));
            assert(parts@ =~= prev.push(part));
            assert(parts_view(parts@) =~= parts_view(prev).push(part@));
        }
        i = i + 1;
    }
    proof {
        assert(entries@.take(entries@.len() as int) =~= entries@);
    }
    parts
}

/// Roles whose category is independent of their entries.
pub open spec fn spec_role_category(role: Role) -> Option<Category> {
    match role {
        Role::Assistant => Some(Category::AgentMessage),
        Role::System => Some(Category::Instructions),
        Role::User | Role::Developer => None,
        Role::Unknown => Some(Category::Other),
    }
}

/// Roles whose category is independent of their entries, so an empty message is still classified
/// and an unknown role is warned about regardless of content.
pub fn role_category(role: Role, warnings: &mut Vec<ClassificationWarning>) -> (r: Option<
    Category,
>)
    ensures
        r == spec_role_category(role),
        final(warnings)@ == (if role == Role::Unknown {
            spec_note(old(warnings)@, ClassificationWarning::UnknownRole)
        } else {
            old(warnings)@
        }),
{
    match role {
        Role::Assistant => Some(Category::AgentMessage),
        Role::System => Some(Category::Instructions),
        Role::User | Role::Developer => None,
        Role::Unknown => {
            note(warnings, ClassificationWarning::UnknownRole);
            Some(Category::Other)
        },
    }
}

/// The harness-stamped kinds of a message, empty for every other item.
pub open spec fn spec_content_item_kinds(item: ObservedItem) -> Seq<String> {
    match item.variant {
        ItemVariant::Message => match item.content_item_kinds {
            Some(kinds) => kinds@,
            None => Seq::empty(),
        },
        _ => Seq::empty(),
    }
}

pub fn content_item_kinds(item: &ObservedItem) -> (r: &[String])
    ensures
        r@ == spec_content_item_kinds(*item),
{
    match item.variant {
        ItemVariant::Message => match &item.content_item_kinds {
            Some(kinds) => kinds.as_slice(),
            None => &[],
        },
        _ => &[],
    }
}

/// Whether a kind belongs to the user, either as `user.*` or as a substitute for user input.
pub open spec fn is_user_kind(kind: Seq<char>) -> bool {
    ||| is_prefix_of(USER_KIND_PREFIX@, kind)
    ||| kind == IMAGES_PREPARATION_ERROR_KIND@
    ||| kind == IMAGES_UNSUPPORTED_KIND@
    ||| kind == AUDIO_UNSUPPORTED_KIND@
}

/// Whether an entry's kind decides nothing, so its text markers must.
pub open spec fn needs_marker_fallback(kind: Option<Seq<char>>) -> bool {
    match kind {
        Some(kind) => !is_user_kind(kind) && kind != COMPACTION_SUMMARY_KIND@ && (kind.len() == 0
            || kind == UNKNOWN_KIND@),
        None => true,
    }
}

/// Pre-kind shape: instruction fragments announce themselves with an open tag.
pub open spec fn spec_tagged_fallback(entry: ContentEntry) -> Category {
    match entry.kind {
        ContentEntryKind::InputText | ContentEntryKind::OutputText => {
            if opens_with_instruction_tag(trim_start(entry.text@)) {
                Category::Instructions
            } else {
                Category::UserMessage
            }
        },
        ContentEntryKind::InputImage | ContentEntryKind::InputAudio => Category::UserMessage,
    }
}

/// The category of a user- or developer-role entry.
pub open spec fn spec_entry_category(kind: Option<Seq<char>>, entry: ContentEntry) -> Category {
    match kind {
        Some(kind) => {
            if is_user_kind(kind) {
                Category::UserMessage
            } else if kind == COMPACTION_SUMMARY_KIND@ {
                Category::Compaction
            } else if kind.len() != 0 && kind != UNKNOWN_KIND@ {
                Category::Instructions
            } else {
                spec_tagged_fallback(entry)
            }
        },
        None => spec_tagged_fallback(entry),
    }
}

fn is_user_kind_exec(kind: &str) -> (r: bool)
    ensures
        r == is_user_kind(kind@),
{
    starts_with(kind, USER_KIND_PREFIX) || str_eq(kind, IMAGES_PREPARATION_ERROR_KIND) || str_eq(
        kind,
        IMAGES_UNSUPPORTED_KIND,
    ) || str_eq(kind, AUDIO_UNSUPPORTED_KIND)
}

/// Pre-kind shape: instruction fragments announce themselves with an open tag.
pub fn tagged_fallback(entry: &ContentEntry) -> (r: Category)
    ensures
        r == spec_tagged_fallback(*entry),
{
    match entry.kind {
        ContentEntryKind::InputText | ContentEntryKind::OutputText => {},
        ContentEntryKind::InputImage | ContentEntryKind::InputAudio => {
            return Category::UserMessage;
        },
    }
    let text = entry.text.as_str();
    let skip = leading_white_space_len(text);
    let tagged = starts_with_at(text, skip, USER_INSTRUCTIONS_OPEN_TAG) || starts_with_at(
        text,
        skip,
        ENVIRONMENT_CONTEXT_OPEN_TAG,
    ) || starts_with_at(text, skip, ENVIRONMENTS_INSTRUCTIONS_OPEN_TAG) || starts_with_at(
        text,
        skip,
        APPS_INSTRUCTIONS_OPEN_TAG,
    ) || starts_with_at(text, skip, SKILLS_INSTRUCTIONS_OPEN_TAG) || starts_with_at(
        text,
        skip,
        PLUGINS_INSTRUCTIONS_OPEN_TAG,
    ) || starts_with_at(text, skip, TOOLS_OPEN_TAG) || starts_with_at(
        text,
        skip,
        COLLABORATION_MODE_OPEN_TAG,
    ) || starts_with_at(text, skip, MULTI_AGENT_MODE_OPEN_TAG) || starts_with_at(
        text,
        skip,
        REALTIME_CONVERSATION_OPEN_TAG,
    ) || starts_with_at(text, skip, CONTEXT_WINDOW_OPEN_TAG) || starts_with_at(
        text,
        skip,
        CONTEXT_WINDOW_GUIDANCE_OPEN_TAG,
    );
    if tagged {
        Category::Instructions
    } else {
        Category::UserMessage
    }
}

/// User- and developer-role entries only; every other role is decided by `role_category`.
pub fn entry_category(
    kind: Option<&str>,
    entry: &ContentEntry,
    warnings: &mut Vec<ClassificationWarning>,
) -> (r: Category)
    ensures
        r == spec_entry_category(
            match kind {
                Some(k) => Some(k@),
                None => None,
            },
            *entry,
        ),
        final(warnings)@ == (if needs_marker_fallback(
            match kind {
                Some(k) => Some(k@),
                None => None,
            },
        ) {
            spec_note(old(warnings)@, ClassificationWarning::MarkerFallback)
        } else {
            old(warnings)@
        }),
{
    if let Some(kind) = kind {
        if is_user_kind_exec(kind) {
            return Category::UserMessage;
        }
        if str_eq(kind, COMPACTION_SUMMARY_KIND) {
            return Category::Compaction;
        }
        if kind.unicode_len() != 0 && !str_eq(kind, UNKNOWN_KIND) {
            return Category::Instructions;
        }
    }
    note(warnings, ClassificationWarning::MarkerFallback);
    tagged_fallback(entry)
}

/// The kind stamped on entry `i`, looked up by index.
pub open spec fn kind_at(kinds: Seq<String>, i: int) -> Option<Seq<char>> {
    if 0 <= i < kinds.len() {
        Some(kinds[i]@)
    } else {
        None
    }
}

/// The part recorded for message entry `i`.
pub open spec fn spec_message_part(
    kinds: Seq<String>,
    fixed: Option<Category>,
    entry: ContentEntry,
    i: int,
) -> PartModel {
    let kind = kind_at(kinds, i);
    PartModel {
        kind: match kind {
            Some(k) => k,
            None => Seq::empty(),
        },
        bytes: entry.bytes.unwrap_or(0),
        category: match fixed {
            Some(c) => c,
            None => spec_entry_category(kind, entry),
        },
        media: spec_part_media(entry.kind),
    }
}

pub open spec fn spec_message_parts(
    kinds: Seq<String>,
    fixed: Option<Category>,
    content: Seq<ContentEntry>,
) -> Seq<PartModel> {
    Seq::new(content.len(), |i: int| spec_message_part(kinds, fixed, content[i], i))
}

/// Whether some entry below `upto` had no usable kind.
pub open spec fn any_marker_fallback(kinds: Seq<String>, upto: int) -> bool {
    exists|i: int| 0 <= i < upto && #[trigger] needs_marker_fallback(kind_at(kinds, i))
}

/// Whether the kind array disagrees in length with a non-empty content array it labels.
pub open spec fn kind_length_mismatch(kinds: Seq<String>, content: Seq<ContentEntry>) -> bool {
    kinds.len() != 0 && kinds.len() != content.len()
}

proof fn lemma_note_twice(w: Seq<ClassificationWarning>, warning: ClassificationWarning)
    ensures
        spec_note(spec_note(w, warning), warning) == spec_note(w, warning),
{
    if !w.contains(warning) {
        assert(w.push(warning)[w.len() as int] == warning);
    }
}

/// One part per content entry, with its kind looked up by index rather than zipped, so a short or
/// long kind array cannot silently shift every later entry's classification.
pub fn message_parts(
    item: &ObservedItem,
    fixed: Option<Category>,
    content: &[ContentEntry],
    warnings: &mut Vec<ClassificationWarning>,
) -> (r: Vec<ContentPart>)
    ensures
        parts_view(r@) == spec_message_parts(spec_content_item_kinds(*item), fixed, content@),
        ({
            let kinds = spec_content_item_kinds(*item);
            let w1 = if fixed is None && kind_length_mismatch(kinds, content@) {
                spec_note(old(warnings)@, ClassificationWarning::KindLengthMismatch)
            } else {
                old(warnings)@
            };
            final(warnings)@ == if fixed is None && any_marker_fallback(
                kinds,
                content@.len() as int,
            ) {
                spec_note(w1, ClassificationWarning::MarkerFallback)
            } else {
                w1
            }
        }),
{
    let kinds = content_item_kinds(item);
    let ghost kv = spec_content_item_kinds(*item);
    if fixed.is_none() && kinds.len() != 0 && kinds.len() != content.len() {
        note(warnings, ClassificationWarning::KindLengthMismatch);
    }
    let ghost w1 = warnings@;
    let mut parts: Vec<ContentPart> = Vec::new();
    let mut i: usize = 0;
    while i < content.len()
        invariant
            i <= content@.len(),
            kinds@ == kv,
            parts_view(parts@) =~= spec_message_parts(kv, fixed, content@.take(i as int)),
            warnings@ == if fixed is None && any_marker_fallback(kv, i as int) {
                spec_note(w1, ClassificationWarning::MarkerFallback)
            } else {
                w1
            },
        decreases content@.len() - i,
    {
        let entry = &content[i];
        let kind: Option<&str> = if i < kinds.len() {
            Some(kinds[i].as_str())
        } else {
            None
        };
        let ghost kind_view = kind_at(kv, i as int);
        assert(kind_view == match kind {
            Some(k) => Some(k@),
            None => None,
        });
        let ghost before = warnings@;
        let category = match fixed {
            Some(category) => category,
            None => entry_category(kind, entry, warnings),
        };
        proof {
            if fixed is None {
                lemma_note_twice(w1, ClassificationWarning::MarkerFallback);
                if needs_marker_fallback(kind_view) {
                    assert(any_marker_fallback(kv, i + 1));
                } else if any_marker_fallback(kv, i + 1) {
                    let j = choose|j: int|
                        0 <= j < i + 1 && #[trigger] needs_marker_fallback(kind_at(kv, j));
                    assert(j != i);
                    assert(any_marker_fallback(kv, i as int));
                }
                if any_marker_fallback(kv, i as int) {
                    assert(any_marker_fallback(kv, i + 1));
                }
            }
        }
        let kind_text = match kind {
            Some(k) => String::from_str(k),
            None => String::new(),
        };
        let bytes = match entry.bytes {
            Some(bytes) => bytes,
            None => 0,
        };
        let part = ContentPart { kind: kind_text, bytes, category, media: part_media(entry) };
        let ghost prev = parts@;
        parts.push(part);
        proof {
            assert(part@ == spec_message_part(kv, fixed, *entry, i as int));
            assert(parts@ =~= prev.push(part));
            assert(parts_view(parts@) =~= parts_view(prev).push(part@));
            assert(content@.take(i + 1)[i as int] == *entry);
        }
        i = i + 1;
    }
    proof {
        assert(content@.take(content@.len() as int) =~= content@);
    }
    parts
}

/// Whether every part shares the first part's category.
pub open spec fn all_same_category(parts: Seq<PartModel>) -> bool {
    forall|i: int| 0 <= i < parts.len() ==> #[trigger] parts[i].category == parts[0].category
}

pub open spec fn spec_merged_category(parts: Seq<PartModel>) -> Category {
    if parts.len() == 0 {
        Category::Other
    } else if all_same_category(parts) {
        parts[0].category
    } else {
        Category::Other
    }
}

/// A merged message keeps its category only while its entries agree; a genuinely mixed one is not
/// representable in a single row, so it lands in `Other` and says so.
pub fn merge_categories(parts: &[ContentPart], warnings: &mut Vec<ClassificationWarning>) -> (r:
    Category)
    ensures
        r == spec_merged_category(parts_view(parts@)),
        final(warnings)@ == if parts@.len() > 0 && !all_same_category(parts_view(parts@)) {
            spec_note(old(warnings)@, ClassificationWarning::MixedCategories)
        } else {
            old(warnings)@
        },
{
    let ghost pv = parts_view(parts@);
    if parts.len() == 0 {
        return Category::Other;
    }
    let first = parts[0].category;
    let mut i: usize = 1;
    while i < parts.len()
        invariant
            1 <= i <= parts@.len(),
            pv == parts_view(parts@),
            pv.len() == parts@.len(),
            warnings@ == old(warnings)@,
            first == pv[0].category,
            forall|j: int| 0 <= j < i ==> #[trigger] pv[j].category == first,
        decreases parts@.len() - i,
    {
        if parts[i].category != first {
            assert(pv[i as int].category != pv[0].category);
            note(warnings, ClassificationWarning::MixedCategories);
            return Category::Other;
        }
        i = i + 1;
    }
    assert(all_same_category(pv));
    first
}

/// The classification of one item.
pub open spec fn spec_classify(item: ObservedItem) -> ClassModel {
    match item.variant {
        ItemVariant::Message => {
            let role = Role::spec_parse(item.role@);
            let fixed = spec_role_category(role);
            let kinds = spec_content_item_kinds(item);
            let content = item.content@;
            let w0 = if role == Role::Unknown {
                seq![ClassificationWarning::UnknownRole]
            } else {
                Seq::empty()
            };
            let w1 = if fixed is None && kind_length_mismatch(kinds, content) {
                spec_note(w0, ClassificationWarning::KindLengthMismatch)
            } else {
                w0
            };
            let w2 = if fixed is None && any_marker_fallback(kinds, content.len() as int) {
                spec_note(w1, ClassificationWarning::MarkerFallback)
            } else {
                w1
            };
            let parts = spec_message_parts(kinds, fixed, content);
            let w3 = if fixed is None && parts.len() > 0 && !all_same_category(parts) {
                spec_note(w2, ClassificationWarning::MixedCategories)
            } else {
                w2
            };
            ClassModel {
                category: match fixed {
                    Some(c) => c,
                    None => spec_merged_category(parts),
                },
                pricing: spec_pricing_for_role(role),
                parts,
                warnings: w3,
            }
        },
        ItemVariant::FunctionCallOutput | ItemVariant::CustomToolCallOutput => ClassModel {
            category: Category::ToolOutput,
            pricing: spec_pricing_kind(item),
            parts: spec_output_parts(item.output_entries),
            warnings: Seq::empty(),
        },
        ItemVariant::ConfigurationUpdate => ClassModel {
            category: Category::Other,
            pricing: spec_pricing_kind(item),
            parts: seq![
                PartModel {
                    kind: CONFIGURATION_UPDATE_KIND@,
                    bytes: item.bytes.unwrap_or(0),
                    category: Category::Other,
                    media: PartMedia::Text,
                },
            ],
            warnings: Seq::empty(),
        },
        ItemVariant::Other => ClassModel {
            category: Category::Other,
            pricing: spec_pricing_kind(item),
            parts: Seq::empty(),
            warnings: seq![ClassificationWarning::UnknownItemType],
        },
        _ => ClassModel {
            category: spec_structural_category(item.variant),
            pricing: spec_pricing_kind(item),
            parts: Seq::empty(),
            warnings: Seq::empty(),
        },
    }
}

proof fn lemma_note_no_duplicates(w: Seq<ClassificationWarning>, warning: ClassificationWarning)
    requires
        w.no_duplicates(),
    ensures
        spec_note(w, warning).no_duplicates(),
{
    if !w.contains(warning) {
        let v = w.push(warning);
        assert forall|i: int, j: int| 0 <= i < v.len() && 0 <= j < v.len() && i != j implies v[i]
            != v[j] by {
            if i == w.len() {
                assert(v[j] == w[j]);
            } else if j == w.len() {
                assert(v[i] == w[i]);
            }
        }
    }
}

/// Each classification reason is recorded at most once.
pub proof fn lemma_classify_warnings_are_distinct(item: ObservedItem)
    ensures
        spec_classify(item).warnings.no_duplicates(),
{
    let e: Seq<ClassificationWarning> = Seq::empty();
    assert(e.no_duplicates());
    let one = seq![ClassificationWarning::UnknownRole];
    assert(one.no_duplicates());
    let w0 = if Role::spec_parse(item.role@) == Role::Unknown {
        one
    } else {
        e
    };
    lemma_note_no_duplicates(w0, ClassificationWarning::KindLengthMismatch);
    let w1a = spec_note(w0, ClassificationWarning::KindLengthMismatch);
    lemma_note_no_duplicates(w1a, ClassificationWarning::MarkerFallback);
    lemma_note_no_duplicates(w0, ClassificationWarning::MarkerFallback);
    let w2a = spec_note(w1a, ClassificationWarning::MarkerFallback);
    let w2b = spec_note(w0, ClassificationWarning::MarkerFallback);
    lemma_note_no_duplicates(w2a, ClassificationWarning::MixedCategories);
    lemma_note_no_duplicates(w2b, ClassificationWarning::MixedCategories);
    lemma_note_no_duplicates(w1a, ClassificationWarning::MixedCategories);
    lemma_note_no_duplicates(w0, ClassificationWarning::MixedCategories);
    assert(seq![ClassificationWarning::UnknownItemType].no_duplicates());
}

/// What a response produced is never user input or an injected instruction.
pub proof fn lemma_output_is_never_user_input_or_instruction(item: ObservedItem)
    ensures
        spec_classify(item).pricing == PricingKind::Output ==> spec_classify(item).category
            != Category::UserMessage && spec_classify(item).category != Category::Instructions,
{
}

/// Every item that is not a message is shown and priced by what it is: a tool call of any kind is
/// a tool call priced from the response's output; a tool's output is tool output priced from the
/// next request's input; reasoning and agent messages are response output under their own
/// categories; compaction items are compaction and anything else is other, both of unknown
/// pricing direction.
pub proof fn lemma_items_are_classified_by_variant(item: ObservedItem)
    ensures
        (item.variant == ItemVariant::FunctionCall || item.variant == ItemVariant::CustomToolCall
            || item.variant == ItemVariant::LocalShellCall || item.variant
            == ItemVariant::ToolSearchCall || item.variant == ItemVariant::WebSearchCall
            || item.variant == ItemVariant::ImageGenerationCall) ==> spec_classify(item).category
            == Category::ToolCall && spec_classify(item).pricing == PricingKind::Output,
        (item.variant == ItemVariant::FunctionCallOutput || item.variant
            == ItemVariant::CustomToolCallOutput || item.variant == ItemVariant::ToolSearchOutput)
            ==> spec_classify(item).category == Category::ToolOutput && spec_classify(item).pricing
            == PricingKind::Input,
        item.variant == ItemVariant::Reasoning ==> spec_classify(item).category
            == Category::Reasoning && spec_classify(item).pricing == PricingKind::Output,
        item.variant == ItemVariant::AgentMessage ==> spec_classify(item).category
            == Category::AgentMessage && spec_classify(item).pricing == PricingKind::Output,
        (item.variant == ItemVariant::Compaction || item.variant == ItemVariant::CompactionTrigger
            || item.variant == ItemVariant::ContextCompaction) ==> spec_classify(item).category
            == Category::Compaction && spec_classify(item).pricing == PricingKind::Ambiguous,
        (item.variant == ItemVariant::AdditionalTools || item.variant
            == ItemVariant::ConfigurationUpdate || item.variant == ItemVariant::Other)
            ==> spec_classify(item).category == Category::Other && spec_classify(item).pricing
            == PricingKind::Ambiguous,
{
}

/// A message is priced by its role: user and developer messages are request input, assistant
/// messages response output, and system or unrecognised roles of unknown direction. Assistant
/// messages are agent messages, system messages instructions, and unrecognised roles other,
/// whatever their content.
pub proof fn lemma_messages_are_classified_by_role(item: ObservedItem)
    requires
        item.variant == ItemVariant::Message,
    ensures
        (item.role@ == "user"@ || item.role@ == "developer"@) ==> spec_classify(item).pricing
            == PricingKind::Input,
        item.role@ == "assistant"@ ==> spec_classify(item).category == Category::AgentMessage
            && spec_classify(item).pricing == PricingKind::Output,
        item.role@ == "system"@ ==> spec_classify(item).category == Category::Instructions
            && spec_classify(item).pricing == PricingKind::Ambiguous,
        (item.role@ != "user"@ && item.role@ != "developer"@ && item.role@ != "assistant"@
            && item.role@ != "system"@) ==> spec_classify(item).category == Category::Other
            && spec_classify(item).pricing == PricingKind::Ambiguous,
{
    reveal_strlit("user");
    reveal_strlit("developer");
    reveal_strlit("assistant");
    reveal_strlit("system");
    if item.role@ == "assistant"@ {
        assert(item.role@.len() != "user"@.len());
        assert(item.role@[0] != "developer"@[0]);
    }
    if item.role@ == "system"@ {
        assert(item.role@.len() != "user"@.len());
        assert(item.role@.len() != "developer"@.len());
        assert(item.role@.len() != "assistant"@.len());
    }
}

pub fn classify(item: &ObservedItem) -> (r: Classification)
    ensures
        r@ == spec_classify(*item),
        r.warnings@.no_duplicates(),
        (item.variant == ItemVariant::FunctionCall || item.variant == ItemVariant::CustomToolCall
            || item.variant == ItemVariant::LocalShellCall || item.variant
            == ItemVariant::ToolSearchCall || item.variant == ItemVariant::WebSearchCall
            || item.variant == ItemVariant::ImageGenerationCall) ==> r.category == Category::ToolCall
            && r.pricing == PricingKind::Output,
        (item.variant == ItemVariant::FunctionCallOutput || item.variant
            == ItemVariant::CustomToolCallOutput || item.variant == ItemVariant::ToolSearchOutput)
            ==> r.category == Category::ToolOutput && r.pricing == PricingKind::Input,
        item.variant == ItemVariant::Reasoning ==> r.category == Category::Reasoning,
        item.variant == ItemVariant::AgentMessage ==> r.category == Category::AgentMessage,
        (item.variant == ItemVariant::Compaction || item.variant == ItemVariant::CompactionTrigger
            || item.variant == ItemVariant::ContextCompaction) ==> r.category == Category::Compaction,
{
    proof {
        lemma_classify_warnings_are_distinct(*item);
        lemma_items_are_classified_by_variant(*item);
    }
    match item.variant {
        ItemVariant::Message => {
            let role = Role::parse(item.role.as_str());
            let mut warnings: Vec<ClassificationWarning> = Vec::new();
            let fixed = role_category(role, &mut warnings);
            proof {
                if role == Role::Unknown {
                    assert(warnings@ =~= seq![ClassificationWarning::UnknownRole]);
                } else {
                    assert(warnings@ =~= Seq::<ClassificationWarning>::empty());
                }
            }
            let parts = message_parts(item, fixed, item.content.as_slice(), &mut warnings);
            let ghost w2 = warnings@;
            let ghost sp = spec_message_parts(spec_content_item_kinds(*item), fixed, item.content@);
            assert(parts_view(parts@) == sp);
            assert(parts_view(parts@).len() == parts@.len());
            let category = match fixed {
                Some(category) => category,
                None => merge_categories(parts.as_slice(), &mut warnings),
            };
            let r = Classification { category, pricing: pricing_for_role(role), parts, warnings };
            proof {
                let m = spec_classify(*item);
                assert(r@.parts == m.parts);
                assert(r@.category == m.category);
                assert(r@.pricing == m.pricing);
                assert(r@.warnings == m.warnings);
                assert(r@ == m);
            }
            r
        },
        ItemVariant::FunctionCallOutput | ItemVariant::CustomToolCallOutput => {
            let r = Classification {
                category: Category::ToolOutput,
                pricing: pricing_kind(item),
                parts: output_parts(&item.output_entries),
                warnings: Vec::new(),
            };
            assert(r.warnings@ =~= Seq::<ClassificationWarning>::empty());
            r
        },
        ItemVariant::ConfigurationUpdate => {
            let bytes = match item.bytes {
                Some(bytes) => bytes,
                None => 0,
            };
            let mut parts: Vec<ContentPart> = Vec::new();
            parts.push(
                ContentPart {
                    kind: String::from_str(CONFIGURATION_UPDATE_KIND),
                    bytes,
                    category: Category::Other,
                    media: PartMedia::Text,
                },
            );
            proof {
                assert(parts_view(parts@) =~= spec_classify(*item).parts);
            }
            let r = Classification {
                category: Category::Other,
                pricing: pricing_kind(item),
                parts,
                warnings: Vec::new(),
            };
            assert(r.warnings@ =~= Seq::<ClassificationWarning>::empty());
            r
        },
        // The serde fallback: an item type this build does not know, so its arrival is the signal.
        ItemVariant::Other => {
            let mut warnings: Vec<ClassificationWarning> = Vec::new();
            warnings.push(ClassificationWarning::UnknownItemType);
            proof {
                assert(warnings@ =~= seq![ClassificationWarning::UnknownItemType]);
            }
            let r = Classification {
                category: Category::Other,
                pricing: pricing_kind(item),
                parts: Vec::new(),
                warnings,
            };
            assert(parts_view(r.parts@) =~= Seq::<PartModel>::empty());
            r
        },
        ItemVariant::AdditionalTools | ItemVariant::AgentMessage | ItemVariant::Reasoning
        | ItemVariant::LocalShellCall | ItemVariant::FunctionCall | ItemVariant::ToolSearchCall
        | ItemVariant::CustomToolCall | ItemVariant::ToolSearchOutput | ItemVariant::WebSearchCall
        | ItemVariant::ImageGenerationCall | ItemVariant::Compaction
        | ItemVariant::CompactionTrigger | ItemVariant::ContextCompaction => {
            let r = Classification {
                category: structural_category(item.variant),
                pricing: pricing_kind(item),
                parts: Vec::new(),
                warnings: Vec::new(),
            };
            assert(parts_view(r.parts@) =~= Seq::<PartModel>::empty());
            assert(r.warnings@ =~= Seq::<ClassificationWarning>::empty());
            r
        },
    }
}

} // verus!
