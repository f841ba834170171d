use callout::voices::{check_voice_choice, is_installed, list_output, parse_line, sorted_section, Voice};

fn v(name: &str, locale: &str) -> Voice {
    Voice { name: name.to_string(), locale: locale.to_string() }
}

#[test]
fn parse_say_line() {
    let voice = parse_line("Ava (Premium)       en_US    # Hello! My name is Ava.").unwrap();
    assert_eq!(voice.name, "Ava (Premium)");
    assert_eq!(voice.locale, "en_US");
    let voice = parse_line("Amélie              fr_CA    # Bonjour").unwrap();
    assert_eq!(voice.name, "Amélie");
    assert_eq!(voice.locale, "fr_CA");
}

#[test]
fn parse_rejects_bad_lines() {
    assert!(parse_line("no comment here en_US").is_none());
    assert!(parse_line("Name   nounderscore  # hi").is_none());
    assert!(parse_line("en_US # only a locale").is_none());
    assert!(parse_line("   # nothing").is_none());
}

#[test]
fn installed_voice_lookup() {
    let voices = vec![v("Samantha", "en_US"), v("Anna", "de_DE")];
    assert!(is_installed(&voices, "Anna"));
    assert!(!is_installed(&voices, "anna"));
    assert_eq!(
        check_voice_choice(&voices, "Samantha"),
        Ok("Voice set to \"Samantha\". Restart callout to apply.".to_string())
    );
    assert_eq!(
        check_voice_choice(&voices, "Zed"),
        Err("Voice \"Zed\" is not installed.\nRun 'callout voices list' to see what's available, or\n'callout voices download' to get more.".to_string())
    );
}

#[test]
fn sections_are_sorted() {
    let voices = vec![v("Zoe", "en_US"), v("Anna", "de_DE"), v("Alex", "en_GB"), v("Amélie", "fr_CA"), v("Yuna", "de_DE")];
    assert_eq!(
        sorted_section(&voices, true),
        vec![("Alex".to_string(), "en_GB".to_string()), ("Zoe".to_string(), "en_US".to_string())]
    );
    assert_eq!(
        sorted_section(&voices, false),
        vec![
            ("Anna".to_string(), "de_DE".to_string()),
            ("Yuna".to_string(), "de_DE".to_string()),
            ("Amélie".to_string(), "fr_CA".to_string())
        ]
    );
}

#[test]
fn list_marks_active_voice() {
    let voices = vec![v("Samantha", "en_US"), v("Anna", "de_DE")];
    let lines = list_output(&voices, "Samantha");
    assert_eq!(lines[0], "English voices:");
    assert_eq!(lines[1], format!("  {:<32} en_US  ← active", "Samantha"));
    assert_eq!(lines[2], "");
    assert_eq!(lines[3], "Other languages:");
    assert_eq!(lines[4], format!("  {:<32} de_DE", "Anna"));
    assert_eq!(lines[5], "");
    assert_eq!(lines[6], "Usage:");
    assert_eq!(lines.len(), 9);
}

#[test]
fn list_without_other_languages() {
    let lines = list_output(&[v("Samantha", "en_US")], "");
    assert_eq!(lines.len(), 6);
    assert_eq!(lines[2], "");
    assert_eq!(lines[3], "Usage:");
}
