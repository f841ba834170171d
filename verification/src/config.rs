//! Settings read from `~/.callout/config.toml`, and their defaults.
use vstd::prelude::*;
use crate::text::{concat2, owned};

verus! {

/// The daemon's settings.
pub struct Config {
    pub port: u16,
    pub model: String,
    pub hotkey: HotkeyConfig,
    pub tts: TtsConfig,
}

/// Keyboard settings: the key named in the configuration, and the
/// push-to-talk hotkey (a description such as "Alt+K").
pub struct HotkeyConfig {
    pub key: String,
    pub ptt: String,
}

/// Speech settings: the voice used on macOS, and the piper binary and voice
/// used on Linux.
pub struct TtsConfig {
    pub piper_bin: Option<String>,
    pub piper_voice: Option<String>,
    pub voice: String,
}

/// The port the daemon listens on unless configured otherwise.
pub fn default_port() -> (p: u16)
    ensures
        p == 7878,
{
    7878
}

/// The Whisper model used unless configured otherwise.
pub fn default_model() -> (m: String)
    ensures
        m@ == "base"@,
{
    owned("base")
}

/// The key named unless configured otherwise.
pub fn default_key() -> (k: String)
    ensures
        k@ == "Alt"@,
{
    owned("Alt")
}

/// The push-to-talk hotkey unless configured otherwise.
pub fn default_ptt() -> (k: String)
    ensures
        k@ == "Alt+K"@,
{
    owned("Alt+K")
}

impl Default for HotkeyConfig {
    fn default() -> (h: Self)
        ensures
            h.key@ == "Alt"@,
            h.ptt@ == "Alt+K"@,
    {
        HotkeyConfig { key: default_key(), ptt: default_ptt() }
    }
}

impl Default for TtsConfig {
    fn default() -> (t: Self)
        ensures
            t.piper_bin is None,
            t.piper_voice is None,
            t.voice@ == Seq::<char>::empty(),
    {
        TtsConfig { piper_bin: None, piper_voice: None, voice: String::new() }
    }
}

impl Default for Config {
    fn default() -> (c: Self)
        ensures
            c.port == 7878,
            c.model@ == "base"@,
            c.hotkey.key@ == "Alt"@,
            c.hotkey.ptt@ == "Alt+K"@,
            c.tts.piper_bin is None,
            c.tts.piper_voice is None,
            c.tts.voice@ == Seq::<char>::empty(),
    {
        Config {
            port: default_port(),
            model: default_model(),
            hotkey: HotkeyConfig::default(),
            tts: TtsConfig::default(),
        }
    }
}

/// The file name of the Whisper model of a size: "ggml-<size>.bin".
pub fn model_file_name(size: &str) -> (f: String)
    ensures
        f@ == "ggml-"@ + size@ + ".bin"@,
{
    let f = concat2("ggml-", size);
    concat2(f.as_str(), ".bin")
}

} // verus!
