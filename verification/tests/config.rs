use callout::config::{default_key, default_model, default_port, default_ptt, Config};

#[test]
fn defaults() {
    let c = Config::default();
    assert_eq!(c.port, 7878);
    assert_eq!(c.model, "base");
    assert_eq!(c.hotkey.key, "Alt");
    assert_eq!(c.hotkey.ptt, "Alt+K");
    assert_eq!(c.tts.piper_bin, None);
    assert_eq!(c.tts.voice, "");
    assert_eq!(default_port(), 7878);
    assert_eq!(default_model(), "base");
    assert_eq!(default_key(), "Alt");
    assert_eq!(default_ptt(), "Alt+K");
}
