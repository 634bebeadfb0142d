use rfheadless::EngineConfig;
use rfheadless::Viewport;

#[test]
fn test_default_config() {
    let config = EngineConfig::default();
    assert_eq!(config.viewport.width, 1280);
    assert_eq!(config.viewport.height, 720);
    assert!(config.enable_javascript);
    assert!(config.user_agent.contains("RFOX"));
}

#[test]
fn test_viewport() {
    let viewport = Viewport { width: 1920, height: 1080 };
    assert_eq!(viewport.width, 1920);
    assert_eq!(viewport.height, 1080);
}
