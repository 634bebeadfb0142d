//! Error taxonomy for engine operations.

use vstd::prelude::*;

verus! {

/// Errors that can occur in the headless engine.
///
/// Stylesheet fetch failures are never escalated to this type by the engine
/// core: they degrade gracefully (`NetworkError` exists for callers that
/// surface them). A script that throws or times out is reported through
/// `ScriptResult::is_error`, not through this type.
#[derive(Debug, Clone)]
pub enum Error {
    /// Failed to initialize the engine
    InitializationError(String),
    /// Failed to load a URL
    LoadError(String),
    /// Failed to render content
    RenderError(String),
    /// Failed to execute a script (for example: scripting disabled)
    ScriptError(String),
    /// Operation timed out after the given number of milliseconds
    Timeout(u64),
    /// Invalid configuration
    ConfigError(String),
    /// Network error
    NetworkError(String),
    /// Generic error
    Other(String),
}

} // verus!
