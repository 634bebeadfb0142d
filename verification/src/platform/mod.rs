//! Platform API surface: service workers, media hooks, accessibility.
//!
//! These are deterministic, testable platform primitives with fixed no-op
//! behaviour; engines that grow a real surface replace the noop providers.

use vstd::prelude::*;

pub mod accessibility;
pub mod media;
pub mod service_worker;

pub use accessibility::AccessibilityNode;
pub use accessibility::AccessibilityProvider;
pub use accessibility::AccessibilityTree;
pub use media::MediaState;
pub use media::NoopMediaHooks;
pub use service_worker::FetchEvent;
pub use service_worker::NoopServiceWorkerManager;
pub use service_worker::ServiceWorkerManager;
pub use service_worker::ServiceWorkerRegistration;

verus! {

/// A composite provider of the platform primitives, offering a noop
/// implementation of each surface.
pub struct NoopPlatform;

impl NoopPlatform {
    pub fn new() -> (r: NoopPlatform) {
        NoopPlatform
    }

    pub fn service_worker_manager(&self) -> (r: NoopServiceWorkerManager) {
        NoopServiceWorkerManager::new()
    }

    pub fn media_hooks(&self) -> (r: NoopMediaHooks)
        ensures
            r.state == MediaState::Paused,
    {
        NoopMediaHooks::new()
    }

    pub fn accessibility_provider(&self) -> (r: accessibility::NoopAccessibility) {
        accessibility::NoopAccessibility::new()
    }
}

impl Default for NoopPlatform {
    fn default() -> (r: NoopPlatform) {
        NoopPlatform::new()
    }
}

} // verus!
