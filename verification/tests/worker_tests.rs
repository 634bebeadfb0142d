use rfheadless::EngineConfig;
use rfheadless::Supervisor;
use rfheadless::bridge::compose_evaluation;
use rfheadless::bridge::make_job;
use rfheadless::worker::WorkerKind;
use rfheadless::worker::timeout_result;
use rfheadless::worker::script_thrown_result;
use rfheadless::worker::worker_closed_result;

#[test]
fn navigation_replaces_the_page_context() {
    let config = EngineConfig::default();
    let (mut sup, start) = Supervisor::new(&config);
    // Per-page isolation: no global worker up front.
    assert!(!start.spawn_global);
    assert_eq!(sup.active_context(), None);
    let first = sup.on_navigate();
    assert!(first.spawn_page);
    assert!(!first.drop_page);
    let page1 = sup.active_context().unwrap();
    // Navigating away tears the old context down and builds a fresh one:
    // a global set on the first page reads as undefined on the second.
    let second = sup.on_navigate();
    assert!(second.drop_page);
    assert!(second.spawn_page);
    let page2 = sup.active_context().unwrap();
    assert_ne!(page1, page2);
}

#[test]
fn abort_replaces_every_context() {
    let mut config = EngineConfig::default();
    config.enable_js_isolation = false;
    let (mut sup, start) = Supervisor::new(&config);
    assert!(start.spawn_global);
    let g1 = sup.active_context().unwrap();
    let a = sup.on_abort();
    assert!(a.drop_global);
    assert!(a.spawn_global);
    let g2 = sup.active_context().unwrap();
    // A value set via script before the abort lives in the old context;
    // the replacement is fresh.
    assert_ne!(g1, g2);
}

#[test]
fn abort_reprimes_a_loaded_page() {
    let config = EngineConfig::default();
    let (mut sup, _) = Supervisor::new(&config);
    let _ = sup.on_navigate();
    let before = sup.active_context().unwrap();
    let a = sup.on_abort();
    assert!(a.drop_page);
    assert!(a.spawn_page);
    let after = sup.active_context().unwrap();
    assert_ne!(before, after);
}

#[test]
fn timeout_result_names_the_bound() {
    let r = timeout_result(10);
    assert!(r.is_error);
    assert_eq!(r.value, "Script timed out after 10ms");
    let r2 = timeout_result(5000);
    assert_eq!(r2.value, "Script timed out after 5000ms");
}

#[test]
fn thrown_result_carries_the_engine_message() {
    let r = script_thrown_result("ReferenceError: x is not defined");
    assert!(r.is_error);
    assert_eq!(r.value, "Script thrown: ReferenceError: x is not defined");
}

#[test]
fn worker_closed_result_is_an_error() {
    let r = worker_closed_result();
    assert!(r.is_error);
    assert_eq!(r.value, "Worker closed");
}

#[test]
fn jobs_carry_the_configured_limits() {
    let mut config = EngineConfig::default();
    config.script_loop_iteration_limit = 100;
    config.script_recursion_limit = 16;
    let (sup, _) = Supervisor::new(&config);
    let job = make_job(&sup, b"1+1".to_vec());
    assert_eq!(job.loop_limit, 100);
    assert_eq!(job.recursion_limit, 16);
    assert_eq!(job.code, b"1+1".to_vec());
}

#[test]
fn worker_kind_follows_config() {
    let mut config = EngineConfig::default();
    config.use_process_worker = true;
    let (sup, _) = Supervisor::new(&config);
    assert_eq!(sup.worker_kind(), WorkerKind::Process);
}

#[test]
fn composed_evaluation_wraps_caller_code() {
    let out = compose_evaluation(b"var x = 1;", b"2 + 2");
    let text = String::from_utf8(out).unwrap();
    assert_eq!(text, "var x = 1;\n;\n(function(){try{return (2 + 2);}catch(e){throw e;}})()");
}
