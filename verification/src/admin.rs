//! What the administrative surface reports: model and profile
//! descriptors, sub-agent summaries and its error.

use vstd::prelude::*;

verus! {

/// A model the daemon can switch to.
#[derive(Debug, Clone)]
pub struct ModelDescriptor {
    pub name: String,
    pub description: String,
}

/// The models on offer and the current one.
#[derive(Debug, Clone)]
pub struct ModelCatalog {
    pub models: Vec<ModelDescriptor>,
    pub current: String,
}

/// A lifecycle hook as listed to an administrator; the script's path, when
/// the hook runs one, is held as its text.
#[derive(Debug, Clone)]
pub struct HookDescriptor {
    pub name: String,
    pub source: String,
    pub point: String,
    pub priority: i32,
    pub script_path: Option<String>,
}

/// A sub-agent as listed to an administrator.
#[derive(Debug, Clone)]
pub struct SubAgentSummary {
    pub id: String,
    pub task: String,
    pub status: String,
}

/// An agent profile as listed to an administrator.
#[derive(Debug, Clone)]
pub struct AgentProfileDescriptor {
    pub name: String,
    pub risk_tier: String,
    pub tool_count: usize,
    pub max_iterations: usize,
    pub approval_policy: String,
}

/// The profiles before and after a switch, and the new risk tier.
#[derive(Debug, Clone)]
pub struct AgentProfileSwitchResult {
    pub previous: String,
    pub current: String,
    pub risk_tier: String,
}

/// An administrative operation failed.
#[derive(Debug, Clone)]
pub enum AdminServiceError {
    Operation(String),
}

} // verus!
