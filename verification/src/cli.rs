//! The command line: what `callout` can be asked to do.
use vstd::prelude::*;

verus! {

/// The parsed command line.
pub struct Cli {
    pub command: Option<Command>,
}

/// A `callout` subcommand.
#[allow(inconsistent_fields)]
pub enum Command {
    /// Start the HTTP daemon (the default when no command is given).
    Serve,
    /// Manage TTS voices.
    Voices { cmd: VoicesCmd },
    /// Manage Whisper models.
    Model { cmd: ModelCmd },
    /// Show the configured push-to-talk hotkey.
    PttTest,
    /// Register callout as a login item (macOS).
    Install,
    /// Remove callout from the login items (macOS).
    Uninstall,
    /// Print the most recent log lines.
    Logs { lines: usize },
    /// Send a one-off spoken notification.
    Notify { message: String, agent_id: Option<String> },
    /// Ask a question and wait for a push-to-talk answer.
    Ask {
        question: String,
        choices: Vec<String>,
        timeout: u64,
        default: Option<String>,
        agent_id: Option<String>,
    },
    /// Coding-agent hook entry points (hook JSON on stdin).
    Hook { cmd: HookCmd },
}

/// `callout voices ...`
pub enum VoicesCmd {
    /// List installed voices.
    List,
    /// Set the active voice and save it to the configuration.
    Select { name: String },
    /// Open System Settings to download more voices.
    Download,
}

/// `callout model ...`
pub enum ModelCmd {
    /// Download a Whisper model.
    Download { size: String },
    /// Show downloaded models.
    List,
}

/// `callout hook ...`
pub enum HookCmd {
    /// SessionStart: register this session as an agent.
    SessionStart,
    /// PreToolUse: approve or deny the pending tool call by voice.
    PreToolUse,
    /// Stop: say that the agent finished a turn.
    Stop,
}

/// The number of log lines printed unless another is asked for.
pub const DEFAULT_LOG_LINES: usize = 100;

} // verus!
