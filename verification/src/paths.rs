//! Well-known document paths.
//!
//! These are conventional paths that have special meaning in the workspace.
//! Agents can create arbitrary paths beyond these.
use vstd::prelude::*;

verus! {

/// Long-term curated memory.
pub const MEMORY: &'static str = "MEMORY.md";

/// Agent identity (name, nature, vibe).
pub const IDENTITY: &'static str = "IDENTITY.md";

/// Core values and principles.
pub const SOUL: &'static str = "SOUL.md";

/// Behavior instructions.
pub const AGENTS: &'static str = "AGENTS.md";

/// User context (name, preferences).
pub const USER: &'static str = "USER.md";

/// Periodic checklist for heartbeat.
pub const HEARTBEAT: &'static str = "HEARTBEAT.md";

/// Root runbook/readme.
pub const README: &'static str = "README.md";

/// Daily logs directory.
pub const DAILY_DIR: &'static str = "daily/";

/// Context directory (for identity-related docs).
pub const CONTEXT_DIR: &'static str = "context/";

/// User-editable notes for environment-specific tool guidance.
pub const TOOLS: &'static str = "TOOLS.md";

/// First-run ritual file; self-deletes after onboarding completes.
pub const BOOTSTRAP: &'static str = "BOOTSTRAP.md";

/// Admin-defined system instructions shared with all users.
pub const SYSTEM: &'static str = "SYSTEM.md";

/// User psychographic profile (JSON).
pub const PROFILE: &'static str = "context/profile.json";

/// Assistant behavioral directives (derived from profile).
pub const ASSISTANT_DIRECTIVES: &'static str = "context/assistant-directives.md";

} // verus!
