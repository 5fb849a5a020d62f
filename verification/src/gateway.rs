//! Gateway state records shared by the web handlers.
use vstd::prelude::*;

verus! {

/// Snapshot of the active (resolved) configuration exposed to the frontend.
#[derive(Debug, Clone)]
pub struct ActiveConfigSnapshot {
    pub llm_backend: String,
    pub llm_model: String,
    pub enabled_channels: Vec<String>,
    pub default_timezone: String,
}

impl Default for ActiveConfigSnapshot {
    fn default() -> (s: Self)
        ensures
            s.llm_backend@.len() == 0,
            s.llm_model@.len() == 0,
            s.enabled_channels@.len() == 0,
            s.default_timezone@.len() == 0,
    {
        ActiveConfigSnapshot {
            llm_backend: String::new(),
            llm_model: String::new(),
            enabled_channels: Vec::new(),
            default_timezone: String::new(),
        }
    }
}

/// Cheap workspace fingerprint covering the inputs of the frontend HTML build.
///
/// Timestamps are stored as `(seconds, nanoseconds)` pairs.
#[derive(Debug, Clone, PartialEq, Eq)]
pub struct FrontendCacheKey {
    /// Signature for `.system/gateway/layout.json`, or `None` if absent.
    pub layout: Option<(i64, u32)>,
    /// Signature for `.system/gateway/widgets/` (max child mtime), or `None`
    /// if the directory is empty or absent.
    pub widgets: Option<(i64, u32)>,
}

/// Cached result of the frontend HTML build, keyed by a cheap workspace
/// signature so the fast path only needs one listing per request.
#[derive(Debug, Clone)]
pub struct FrontendHtmlCache {
    /// Signature the cache is valid for.
    pub key: FrontendCacheKey,
    /// The assembled HTML, or `None` if the layout had no customizations.
    pub html: Option<String>,
}

} // verus!
