use rfheadless::platform::MediaState;
use rfheadless::platform::NoopMediaHooks;
use rfheadless::platform::NoopPlatform;
use rfheadless::platform::NoopServiceWorkerManager;
use rfheadless::platform::FetchEvent;
use rfheadless::platform::accessibility::NoopAccessibility;

#[test]
fn noop_accessibility_exports_empty_tree() {
    let a = NoopAccessibility::new();
    let t = a.export_tree();
    assert!(t.nodes.is_empty());
    assert!(t.root_id.is_none());
}

#[test]
fn noop_media_transitions_state() {
    let mut m = NoopMediaHooks::new();
    assert_eq!(m.state(), MediaState::Paused);
    m.play();
    assert_eq!(m.state(), MediaState::Playing);
    m.pause();
    assert_eq!(m.state(), MediaState::Paused);
}

#[test]
fn noop_dispatch_fetch_returns_noop_body() {
    let m = NoopServiceWorkerManager::new();
    let ev = FetchEvent {
        request_url: "https://example.com/".to_string(),
        method: "GET".to_string(),
        headers: Default::default(),
    };
    let res = m.dispatch_fetch(&ev).unwrap();
    assert_eq!(res, b"noop".to_vec());
}

#[test]
fn service_worker_noop_dispatch() {
    let m = NoopServiceWorkerManager::new();
    let ev = FetchEvent {
        request_url: "https://example.com/".into(),
        method: "GET".into(),
        headers: Default::default(),
    };
    let res = m.dispatch_fetch(&ev).expect("dispatch should succeed");
    assert_eq!(res, b"noop".to_vec());
}

#[test]
fn media_hooks_state_transitions() {
    let mut m = NoopMediaHooks::new();
    assert_eq!(m.state(), MediaState::Paused);
    m.play();
    assert_eq!(m.state(), MediaState::Playing);
    m.pause();
    assert_eq!(m.state(), MediaState::Paused);
}

#[test]
fn accessibility_noop_exports_empty() {
    let a = NoopAccessibility::new();
    let t = a.export_tree();
    assert!(t.nodes.is_empty());
    assert!(t.root_id.is_none());
}

#[test]
fn platform_composite_provides_noop_surfaces() {
    let p = NoopPlatform::new();
    let sw = p.service_worker_manager();
    assert!(sw.list_registrations().is_empty());
    let media = p.media_hooks();
    assert_eq!(media.state(), MediaState::Paused);
    let acc = p.accessibility_provider();
    let tree = acc.export_tree();
    assert!(tree.nodes.is_empty());
    assert!(p.service_worker_manager().register("scope", "url").is_err());
}
