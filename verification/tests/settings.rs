use callout::settings::{config_with_voice, VoiceEditError};

fn voice_of(text: &str) -> String {
    let v: toml::Value = toml::from_str(text).unwrap();
    v["tts"]["voice"].as_str().unwrap().to_string()
}

#[test]
fn voice_added_to_empty_config() {
    let text = config_with_voice("", "Ava (Premium)").ok().unwrap();
    assert_eq!(voice_of(&text), "Ava (Premium)");
}

#[test]
fn voice_keeps_other_settings_and_comments() {
    let content = "# my settings\nport = 9000\n\n[tts]\nvoice = \"Old\"\npiper_bin = \"/usr/bin/piper\"\n";
    let text = config_with_voice(content, "Samantha").ok().unwrap();
    assert!(text.starts_with("# my settings\nport = 9000\n"));
    assert_eq!(voice_of(&text), "Samantha");
    let v: toml::Value = toml::from_str(&text).unwrap();
    assert_eq!(v["port"].as_integer(), Some(9000));
    assert_eq!(v["tts"]["piper_bin"].as_str(), Some("/usr/bin/piper"));
}

#[test]
fn voice_set_in_inline_table() {
    let text = config_with_voice("tts = { voice = \"Old\" }\n", "Anna").ok().unwrap();
    assert_eq!(voice_of(&text), "Anna");
}

#[test]
fn voice_refused_when_tts_is_not_a_table() {
    assert!(matches!(config_with_voice("tts = 5\n", "Anna"), Err(VoiceEditError::TtsNotATable)));
}

#[test]
fn voice_refused_for_broken_config() {
    assert!(matches!(config_with_voice("[[[", "Anna"), Err(VoiceEditError::Parse(_))));
}
