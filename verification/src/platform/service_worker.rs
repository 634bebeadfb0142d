//! Service worker registration metadata and fetch dispatch surface.

use vstd::prelude::*;
use std::collections::HashMap;

verus! {

/// Minimal service worker registration metadata used for tests.
#[derive(Debug, Clone)]
pub struct ServiceWorkerRegistration {
    pub scope: String,
    pub script_url: String,
    pub id: String,
}

/// A fetch event that the engine can dispatch to registered workers.
#[derive(Debug, Clone)]
pub struct FetchEvent {
    pub request_url: String,
    pub method: String,
    pub headers: HashMap<String, String>,
}

/// Manager surface for service worker lifecycle and fetch interception.
pub trait ServiceWorkerManager {
    fn register(&self, scope: &str, script_url: &str) -> Result<
        ServiceWorkerRegistration,
        String,
    >;

    fn unregister(&self, scope: &str) -> Result<(), String>;

    fn list_registrations(&self) -> Vec<ServiceWorkerRegistration>;

    fn dispatch_fetch(&self, event: &FetchEvent) -> Result<Vec<u8>, String>;
}

/// A manager that registers nothing and answers every fetch with a fixed
/// synthetic body.
pub struct NoopServiceWorkerManager;

impl NoopServiceWorkerManager {
    pub fn new() -> (r: NoopServiceWorkerManager) {
        NoopServiceWorkerManager
    }

    /// Registration is always refused.
    pub fn register(&self, scope: &str, script_url: &str) -> (r: Result<
        ServiceWorkerRegistration,
        String,
    >)
        ensures
            r is Err,
            r->Err_0@ == "service workers not supported"@,
    {
        Err("service workers not supported".to_owned())
    }

    /// Unregistration always succeeds (there is nothing to remove).
    pub fn unregister(&self, scope: &str) -> (r: Result<(), String>)
        ensures
            r is Ok,
    {
        Ok(())
    }

    /// There are never any registrations.
    pub fn list_registrations(&self) -> (r: Vec<ServiceWorkerRegistration>)
        ensures
            r@.len() == 0,
    {
        Vec::new()
    }

    /// Every dispatched fetch is answered with the body `noop`.
    pub fn dispatch_fetch(&self, event: &FetchEvent) -> (r: Result<Vec<u8>, String>)
        ensures
            r is Ok,
            r->Ok_0@ == seq![110u8, 111u8, 111u8, 112u8],
    {
        let mut body: Vec<u8> = Vec::new();
        body.push(110);
        body.push(111);
        body.push(111);
        body.push(112);
        Ok(body)
    }
}

impl ServiceWorkerManager for NoopServiceWorkerManager {
    fn register(&self, scope: &str, script_url: &str) -> Result<
        ServiceWorkerRegistration,
        String,
    > {
        NoopServiceWorkerManager::register(self, scope, script_url)
    }

    fn unregister(&self, scope: &str) -> Result<(), String> {
        NoopServiceWorkerManager::unregister(self, scope)
    }

    fn list_registrations(&self) -> Vec<ServiceWorkerRegistration> {
        NoopServiceWorkerManager::list_registrations(self)
    }

    fn dispatch_fetch(&self, event: &FetchEvent) -> Result<Vec<u8>, String> {
        NoopServiceWorkerManager::dispatch_fetch(self, event)
    }
}

} // verus!
