//! Accumulates model-context profiling data for a `/ctx` view.
//!
//! An adapter feeds this crate `ProfilerEvent`s as a session progresses, and the profiler
//! produces `ContextSnapshot`s describing what currently occupies the context window. A registry
//! keeps one adapter and profiler per observed thread, and a card condenses one profiler's state
//! into what the `/ctx` view shows.
mod adapter;
mod aggregate;
mod card;
mod classify;
mod estimate;
mod event;
mod item;
mod observed;
mod order;
mod pricing;
mod profiler;
mod record;
mod registry;
mod snapshot;
mod text;
mod usage;

pub use adapter::Notification;
pub use adapter::Observation;
pub use adapter::RecordFields;
pub use adapter::ResponseUsage;
pub use adapter::ThreadProfilerAdapter;
pub use adapter::TurnStatus;
pub use card::build;
pub use card::category_name;
pub use card::is_buildable;
pub use card::ContextCard;
pub use card::Contributor;
pub use card::Header;
pub use card::Row;
pub use card::Startup;
pub use card::TurnRow;
pub use card::Usage;
pub use classify::classify;
pub use classify::pricing_kind;
pub use classify::Classification;
pub use estimate::item_tokens;
pub use estimate::reasoning_tokens;
pub use estimate::text_tokens;
pub use estimate::IMAGE_TOKENS;
pub use event::InvalidationReason;
pub use event::ObservationStart;
pub use event::ProfilerEvent;
pub use item::Category;
pub use item::ClassificationWarning;
pub use item::ContentPart;
pub use item::GroupKey;
pub use item::ItemGroup;
pub use item::ItemSummary;
pub use item::PartMedia;
pub use item::PricingKind;
pub use item::TokenCost;
pub use observed::call_id;
pub use observed::item_kind;
pub use observed::ContentEntry;
pub use observed::ContentEntryKind;
pub use observed::ItemVariant;
pub use observed::ObservedItem;
pub use observed::OutputEntry;
pub use observed::OutputEntryKind;
pub use profiler::ContextProfiler;
pub use record::attached_record;
pub use record::invalidation_reason;
pub use record::to_record;
pub use record::RecordedEvent;
pub use record::RecordedKind;
pub use registry::ProfilerRegistry;
pub use snapshot::ContextSnapshot;
pub use snapshot::InitialContextSummary;
pub use snapshot::ProfilerState;
pub use snapshot::TurnDelta;
pub use usage::UsageSnapshot;
