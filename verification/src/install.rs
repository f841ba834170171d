//! The login item: the launchd property list that starts the daemon at login,
//! and the checks made before it is written.
use vstd::prelude::*;
use crate::text::{concat2, contains_seq, contains_str, replace, replace_str};

verus! {

/// The launchd label of the daemon.
pub const LABEL: &'static str = "com.callout";

/// The file name of the property list under `~/Library/LaunchAgents`.
pub const PLIST_FILENAME: &'static str = "com.callout.plist";

/// Where launchd sends the daemon's standard error, under the log directory.
pub const STDERR_LOG_NAME: &'static str = "launchd-stderr.log";

/// `s` with the five XML special characters replaced by their entities,
/// `&` first so that no entity is escaped twice.
pub open spec fn xml_escaped(s: Seq<char>) -> Seq<char> {
    replace(
        replace(
            replace(replace(replace(s, "&"@, "&amp;"@), "<"@, "&lt;"@), ">"@, "&gt;"@),
            "\""@,
            "&quot;"@,
        ),
        "'"@,
        "&apos;"@,
    )
}

/// Escapes text for use inside an XML element.
pub fn xml_escape(s: &str) -> (r: String)
    ensures
        r@ == xml_escaped(s@),
{
    let a = replace_str(s, "&", "&amp;");
    let b = replace_str(a.as_str(), "<", "&lt;");
    let c = replace_str(b.as_str(), ">", "&gt;");
    let d = replace_str(c.as_str(), "\"", "&quot;");
    replace_str(d.as_str(), "'", "&apos;")
}

/// The property list up to the program path.
pub open spec fn plist_head() -> Seq<char> {
    "<?xml version=\"1.0\" encoding=\"UTF-8\"?>\n<!DOCTYPE plist PUBLIC \"-//Apple//DTD PLIST 1.0//EN\" \"http://www.apple.com/DTDs/PropertyList-1.0.dtd\">\n<plist version=\"1.0\">\n<dict>\n    <key>Label</key>\n    <string>com.callout</string>\n    <key>ProgramArguments</key>\n    <array>\n        <string>"@
}

/// The property list between the program path and the standard-error path.
pub open spec fn plist_middle() -> Seq<char> {
    "</string>\n    </array>\n    <key>RunAtLoad</key>\n    <true/>\n    <key>KeepAlive</key>\n    <dict>\n        <key>SuccessfulExit</key>\n        <false/>\n    </dict>\n    <key>StandardErrorPath</key>\n    <string>"@
}

/// The property list after the standard-error path.
pub open spec fn plist_tail() -> Seq<char> {
    "</string>\n</dict>\n</plist>\n"@
}

/// The whole property list for the daemon at `binary`, logging to `stderr`:
/// run at load, restarted unless it exits cleanly.
pub open spec fn plist_text(binary: Seq<char>, stderr: Seq<char>) -> Seq<char> {
    plist_head() + xml_escaped(binary) + plist_middle() + xml_escaped(stderr) + plist_tail()
}

/// The property list for the daemon at `binary`, logging to `stderr`.
pub fn plist_contents(binary: &str, stderr: &str) -> (r: String)
    ensures
        r@ == plist_text(binary@, stderr@),
{
    let b = xml_escape(binary);
    let e = xml_escape(stderr);
    let r = concat2(
        "<?xml version=\"1.0\" encoding=\"UTF-8\"?>\n<!DOCTYPE plist PUBLIC \"-//Apple//DTD PLIST 1.0//EN\" \"http://www.apple.com/DTDs/PropertyList-1.0.dtd\">\n<plist version=\"1.0\">\n<dict>\n    <key>Label</key>\n    <string>com.callout</string>\n    <key>ProgramArguments</key>\n    <array>\n        <string>",
        b.as_str(),
    );
    let r = concat2(
        r.as_str(),
        "</string>\n    </array>\n    <key>RunAtLoad</key>\n    <true/>\n    <key>KeepAlive</key>\n    <dict>\n        <key>SuccessfulExit</key>\n        <false/>\n    </dict>\n    <key>StandardErrorPath</key>\n    <string>",
    );
    let r = concat2(r.as_str(), e.as_str());
    concat2(r.as_str(), "</string>\n</dict>\n</plist>\n")
}

/// A binary path that a later clean or reboot would remove: a debug build
/// under `target/debug`, or a temporary directory.
pub open spec fn is_transient_path(p: Seq<char>) -> bool {
    contains_seq(p, "/target/debug/"@) || contains_seq(p, "/var/folders/"@)
}

/// Whether installing `binary` deserves a warning that the login item will
/// break once the build artifact is gone.
pub fn looks_transient(binary: &str) -> (b: bool)
    ensures
        b == is_transient_path(binary@),
{
    contains_str(binary, "/target/debug/") || contains_str(binary, "/var/folders/")
}

/// The launchd domain of the user with id `uid` (`gui/<uid>`).
pub fn gui_domain(uid: &str) -> (d: String)
    ensures
        d@ == "gui/"@ + uid@,
{
    concat2("gui/", uid)
}

} // verus!
