//! Verified core of the executive: admission bookkeeping, budgets,
//! supervision decisions, agent control authority, session history
//! projections, prompt context assembly, status codecs, text bounding and
//! the small accumulators used while a turn is running.

pub mod durable_write;
pub mod control_error;
pub mod text;
pub mod agent_admission;
pub mod keyed;
pub mod ids;
pub mod budget;
pub mod supervision;
pub mod agent_status;
pub mod fragment;
pub mod metrics;
pub mod tool_tracker;
pub mod permits;
pub mod compaction;
pub mod diagnostics;
pub mod prompt_admission;
pub mod approvals;
pub mod context;
pub mod conscious;
pub mod admin;
pub mod session;
pub mod history;
pub mod recall;
pub mod context_assembly;
pub mod dasein;
pub mod agent_control;
pub mod live_runs;
pub mod runtimes;
pub mod lineage;
pub mod injection;
pub mod session_items;
pub mod broadcast_view;
pub mod agent_lifecycle;
pub mod processor_cycle;
