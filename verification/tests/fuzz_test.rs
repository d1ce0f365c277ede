use vnkey_core::{Engine, InputMode};

#[test]
fn test_mixed_mode_stability() {
    let mut engine = Engine::new(InputMode::Telex);
    // Simulate switching modes and configuration mid-stream
    engine.feed_str("typing some telex...");
    engine.set_mode(InputMode::Vni);
    engine.feed_str("12345");
    engine.set_mode(InputMode::Telex);
    engine.feed_str("aaeeoo");

    let mut config = engine.config().clone();
    config.spell_check = true;
    engine.set_config(config);
    engine.feed_str(" testing spell check...");

    // No panic is success
}
