use callout::install::{gui_domain, looks_transient, plist_contents, xml_escape, LABEL, PLIST_FILENAME};

#[test]
fn xml_escape_all_specials() {
    assert_eq!(xml_escape("a&b<c>d\"e'f"), "a&amp;b&lt;c&gt;d&quot;e&apos;f");
    assert_eq!(xml_escape("&lt;"), "&amp;lt;");
    assert_eq!(xml_escape("/usr/local/bin/callout"), "/usr/local/bin/callout");
}

#[test]
fn plist_has_program_and_log_paths() {
    let p = plist_contents("/Applications/My & Co/callout", "/Users/me/.callout/logs/launchd-stderr.log");
    assert!(p.starts_with("<?xml version=\"1.0\" encoding=\"UTF-8\"?>\n"));
    assert!(p.contains("    <string>com.callout</string>\n"));
    assert!(p.contains("        <string>/Applications/My &amp; Co/callout</string>\n"));
    assert!(p.contains("    <key>StandardErrorPath</key>\n    <string>/Users/me/.callout/logs/launchd-stderr.log</string>\n"));
    assert!(p.contains("<key>RunAtLoad</key>\n    <true/>"));
    assert!(p.ends_with("</dict>\n</plist>\n"));
    assert_eq!(LABEL, "com.callout");
    assert_eq!(PLIST_FILENAME, "com.callout.plist");
}

#[test]
fn plist_exact_text() {
    let expected = "<?xml version=\"1.0\" encoding=\"UTF-8\"?>
<!DOCTYPE plist PUBLIC \"-//Apple//DTD PLIST 1.0//EN\" \"http://www.apple.com/DTDs/PropertyList-1.0.dtd\">
<plist version=\"1.0\">
<dict>
    <key>Label</key>
    <string>com.callout</string>
    <key>ProgramArguments</key>
    <array>
        <string>/bin/c</string>
    </array>
    <key>RunAtLoad</key>
    <true/>
    <key>KeepAlive</key>
    <dict>
        <key>SuccessfulExit</key>
        <false/>
    </dict>
    <key>StandardErrorPath</key>
    <string>/tmp/e.log</string>
</dict>
</plist>
";
    assert_eq!(plist_contents("/bin/c", "/tmp/e.log"), expected);
}

#[test]
fn transient_binaries_are_flagged() {
    assert!(looks_transient("/Users/me/src/callout/target/debug/callout"));
    assert!(looks_transient("/var/folders/xy/T/callout"));
    assert!(!looks_transient("/Users/me/.cargo/bin/callout"));
    assert!(!looks_transient("/Users/me/src/callout/target/release/callout"));
}

#[test]
fn launchd_domain() {
    assert_eq!(gui_domain("501"), "gui/501");
}
