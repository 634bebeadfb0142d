//! Engine configuration and viewport dimensions.

use vstd::prelude::*;
use std::collections::HashMap;

verus! {

/// Viewport dimensions in pixels.
#[derive(Debug, Clone, Copy)]
pub struct Viewport {
    pub width: u32,
    pub height: u32,
}

impl Default for Viewport {
    /// The default viewport is 1280 x 720.
    fn default() -> (v: Viewport)
        ensures
            v.width == 1280,
            v.height == 720,
    {
        Viewport { width: 1280, height: 720 }
    }
}

/// Configuration for the headless engine.
///
/// The defaults are conservative: JavaScript runs, but inside a per-page
/// isolated context, with a bounded evaluation timeout and runtime limits.
#[derive(Debug, Clone)]
pub struct EngineConfig {
    /// User agent string to send with requests
    pub user_agent: String,
    /// Viewport dimensions
    pub viewport: Viewport,
    /// Timeout for page loads in milliseconds
    pub timeout_ms: u64,
    /// Custom HTTP headers
    pub headers: HashMap<String, String>,
    /// Whether to enable JavaScript execution
    pub enable_javascript: bool,
    /// Whether to run user script inside a per-page isolated context
    pub enable_js_isolation: bool,
    /// Whether to enable images
    pub enable_images: bool,
    /// Whether to spawn process-backed workers for stronger abort semantics
    pub use_process_worker: bool,
    /// Script execution timeout in milliseconds (applies to `evaluate_script`)
    pub script_timeout_ms: u64,
    /// Maximum loop iterations before the script engine throws (0 = unlimited)
    pub script_loop_iteration_limit: u64,
    /// Maximum recursion depth before the script engine throws
    /// (`usize::MAX` = unlimited)
    pub script_recursion_limit: usize,
    /// How many linked stylesheets may be fetched concurrently
    pub stylesheet_fetch_concurrency: usize,
    /// Whether `load_url` blocks until all linked stylesheets were fetched
    pub wait_for_stylesheets_on_load: bool,
}

impl Default for EngineConfig {
    /// Safe defaults: JavaScript on, per-page isolation on, thread-backed
    /// workers, a 5 s script timeout and a 1280 x 720 viewport.
    fn default() -> (c: EngineConfig)
        ensures
            c.viewport.width == 1280,
            c.viewport.height == 720,
            c.timeout_ms == 30000,
            c.enable_javascript,
            c.enable_js_isolation,
            c.enable_images,
            !c.use_process_worker,
            c.script_timeout_ms == 5000,
            c.script_loop_iteration_limit == 1000000,
            c.script_recursion_limit == 1024,
            c.stylesheet_fetch_concurrency == 8,
            c.wait_for_stylesheets_on_load,
            c.headers@ == Map::<String, String>::empty(),
            c.user_agent@
                == "Mozilla/5.0 (X11; Linux x86_64) Gecko/20100101 Firefox/115.0 RFOX/0.3"@,
    {
        EngineConfig {
            user_agent: "Mozilla/5.0 (X11; Linux x86_64) Gecko/20100101 Firefox/115.0 RFOX/0.3"
                .to_owned(),
            viewport: Viewport::default(),
            timeout_ms: 30000,
            headers: HashMap::new(),
            enable_javascript: true,
            enable_js_isolation: true,
            enable_images: true,
            use_process_worker: false,
            script_timeout_ms: 5000,
            script_loop_iteration_limit: 1000000,
            script_recursion_limit: 1024,
            stylesheet_fetch_concurrency: 8,
            wait_for_stylesheets_on_load: true,
        }
    }
}

} // verus!
