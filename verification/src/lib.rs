//! A lightweight headless-browsing library: DOM snapshots, CSS selector
//! matching and cascade resolution, a deterministic timer/microtask event
//! loop, a worker-isolation state model, and stack-trace parsing.

use vstd::prelude::*;
use std::collections::HashMap;

mod config;
pub mod error;
pub mod platform;
pub mod rendering;
pub mod stack_trace;
pub mod dom;
pub mod selector;
pub mod css;
pub mod events;
pub mod worker;
pub mod cache;
pub mod net;
pub mod bridge;

pub use config::EngineConfig;
pub use config::Viewport;
pub use error::Error;
pub use worker::JobSpec;
pub use worker::ScriptResult;
pub use worker::Supervisor;

verus! {

/// A textual snapshot of a rendered page.
#[derive(Debug, Clone)]
pub struct TextSnapshot {
    /// Page title
    pub title: String,
    /// Extracted text content
    pub text: String,
    /// Final URL after redirects
    pub url: String,
}

/// Console message emitted by the page.
#[derive(Debug, Clone)]
pub struct ConsoleMessage {
    /// Level such as `log`, `warn`, or `error`
    pub level: String,
    /// Textual content of the message
    pub text: String,
    /// Source/filename if one could be parsed from the stack
    pub source: Option<String>,
    /// Line number if available
    pub line: Option<u32>,
    /// Column number if available
    pub column: Option<u32>,
    /// Raw stack trace if the script engine provided one
    pub stack: Option<String>,
}

/// Information about an outgoing network request.
#[derive(Debug, Clone)]
pub struct RequestInfo {
    pub request_id: String,
    pub url: String,
    pub method: String,
    pub resource_type: Option<String>,
    pub headers: HashMap<String, String>,
}

/// A cookie retrieved from the browser.
#[derive(Debug, Clone)]
pub struct Cookie {
    pub name: String,
    pub value: String,
    pub domain: Option<String>,
    pub path: Option<String>,
    pub expires: Option<u64>,
    pub size: Option<u32>,
    pub http_only: Option<bool>,
    pub secure: Option<bool>,
    pub same_site: Option<String>,
}

/// Parameters for setting a cookie.
#[derive(Debug, Clone)]
pub struct CookieParam {
    pub name: String,
    pub value: String,
    pub url: Option<String>,
    pub domain: Option<String>,
    pub path: Option<String>,
    pub secure: Option<bool>,
    pub http_only: Option<bool>,
    pub same_site: Option<String>,
    pub expires: Option<u64>,
}

/// Action to take when a request is observed by a request handler.
#[derive(Debug, Clone)]
pub enum RequestAction {
    /// Let the request proceed normally
    Continue,
    /// Fail the request with an error reason
    Fail { error_reason: String },
    /// Fulfill the request with a custom response
    Fulfill { status: u16, headers: HashMap<String, String>, body: Vec<u8> },
}

/// Core surface of a headless engine backend. Implementations do transport
/// and script hosting; the verified library supplies the logic they decide
/// with.
pub trait Engine {
    /// Create a new engine instance with the given configuration.
    fn new(config: EngineConfig) -> Result<Self, Error> where Self: Sized;

    /// Load a URL and wait for the page to be ready.
    fn load_url(&mut self, url: &str) -> Result<(), Error>;

    /// Render the current page as a text snapshot.
    fn render_text_snapshot(&self) -> Result<TextSnapshot, Error>;

    /// Render the current page as a PNG image.
    fn render_png(&self) -> Result<Vec<u8>, Error>;

    /// Evaluate a script in the page context.
    fn evaluate_script(&mut self, script: &str) -> Result<ScriptResult, Error>;

    /// Evaluate a script in the page context without isolation.
    fn evaluate_script_in_page(&mut self, script: &str) -> Result<ScriptResult, Error>;

    /// Get cookies relevant to the current page.
    fn get_cookies(&self) -> Result<Vec<Cookie>, Error>;

    /// Set cookies on the current page.
    fn set_cookies(&mut self, cookies: Vec<CookieParam>) -> Result<(), Error>;

    /// Delete a cookie by name, optionally narrowed by url/domain/path.
    fn delete_cookie(
        &mut self,
        name: &str,
        url: Option<&str>,
        domain: Option<&str>,
        path: Option<&str>,
    ) -> Result<(), Error>;

    /// Clear all cookies for the browser context.
    fn clear_cookies(&mut self) -> Result<(), Error>;

    /// Set a single cookie with common parameters.
    fn set_cookie_simple(
        &mut self,
        name: &str,
        value: &str,
        url: Option<&str>,
        domain: Option<&str>,
        path: Option<&str>,
        expires: Option<u64>,
    ) -> Result<(), Error> {
        let param = CookieParam {
            name: name.to_owned(),
            value: value.to_owned(),
            url: match url {
                Some(s) => Some(s.to_owned()),
                None => None,
            },
            domain: match domain {
                Some(s) => Some(s.to_owned()),
                None => None,
            },
            path: match path {
                Some(s) => Some(s.to_owned()),
                None => None,
            },
            secure: None,
            http_only: None,
            same_site: None,
            expires,
        };
        let mut params: Vec<CookieParam> = Vec::new();
        params.push(param);
        self.set_cookies(params)
    }

    /// Get a named cookie if present for the current page.
    fn get_cookie_simple(&self, name: &str) -> Result<Option<Cookie>, Error> {
        let cookies = match self.get_cookies() {
            Ok(c) => c,
            Err(e) => {
                return Err(e);
            },
        };
        let mut found: Option<Cookie> = None;
        let n = cookies.len();
        let mut i: usize = 0;
        while i < n
            invariant
                i <= n,
                n == cookies@.len(),
            decreases n - i,
        {
            if found.is_none() && crate::dom::bytes_eq(
                cookies[i].name.as_str().as_bytes(),
                name.as_bytes(),
            ) {
                found = Some(cookies[i].clone());
            }
            i = i + 1;
        }
        Ok(found)
    }

    /// Clear cookies for a given domain.
    fn clear_cookies_for_domain(&mut self, domain: &str) -> Result<(), Error> {
        let cookies = match self.get_cookies() {
            Ok(c) => c,
            Err(e) => {
                return Err(e);
            },
        };
        let n = cookies.len();
        let mut i: usize = 0;
        while i < n
            invariant
                i <= n,
                n == cookies@.len(),
            decreases n - i,
        {
            let is_match = match &cookies[i].domain {
                Some(d) => crate::dom::bytes_eq(d.as_str().as_bytes(), domain.as_bytes()),
                None => false,
            };
            if is_match {
                let path: Option<&str> = match &cookies[i].path {
                    Some(p) => Some(p.as_str()),
                    None => None,
                };
                let _ = self.delete_cookie(cookies[i].name.as_str(), None, Some(domain), path);
            }
            i = i + 1;
        }
        Ok(())
    }

    /// Close the engine and clean up resources.
    fn close(self) -> Result<(), Error> where Self: Sized;
}

} // verus!
