use callout::logs::{latest_log_name, recent_lines};

#[test]
fn latest_log_is_greatest_dated_name() {
    let names = vec![
        "callout.log.2026-06-30".to_string(),
        "other.txt".to_string(),
        "callout.log.2026-07-02".to_string(),
        "callout.log.2026-07-01".to_string(),
        "callout.log".to_string(),
    ];
    assert_eq!(latest_log_name(&names), Some("callout.log.2026-07-02".to_string()));
    assert_eq!(latest_log_name(&vec!["x".to_string()]), None);
    assert_eq!(latest_log_name(&vec![]), None);
}

#[test]
fn recent_lines_takes_the_tail() {
    let text = "one\ntwo\r\nthree\nfour\n";
    assert_eq!(recent_lines(text, 2), vec!["three", "four"]);
    assert_eq!(recent_lines(text, 10), vec!["one", "two", "three", "four"]);
    assert_eq!(recent_lines(text, 0), Vec::<String>::new());
    assert_eq!(recent_lines("a\nb", 5), vec!["a", "b"]);
    assert_eq!(recent_lines("", 5), Vec::<String>::new());
}
