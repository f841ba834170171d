use callout::glossary::Glossary;

fn glossary_with(terms: &[&str], corrections: &[(&str, &str)]) -> Glossary {
    Glossary::new(
        terms.iter().map(|s| s.to_string()).collect(),
        corrections
            .iter()
            .map(|(k, v)| (k.to_string(), v.to_string()))
            .collect(),
    )
}

#[test]
fn whisper_prompt_merges_terms() {
    let g = glossary_with(&["Callout", "Axum"], &[]);
    let prompt = g.whisper_prompt(&["Tokio".to_string()]);
    assert!(prompt.contains("Callout"));
    assert!(prompt.contains("Axum"));
    assert!(prompt.contains("Tokio"));
}

#[test]
fn apply_corrections_replaces_all() {
    let g = glossary_with(&[], &[("callout", "Callout"), ("axum", "Axum")]);
    let result = g.apply_corrections("i use callout and axum");
    assert_eq!(result, "i use Callout and Axum");
}

#[test]
fn apply_corrections_noop_when_empty() {
    let g = Glossary::default();
    assert_eq!(g.apply_corrections("hello world"), "hello world");
}

#[test]
fn whisper_prompt_is_comma_separated_in_order() {
    let g = glossary_with(&["Assistant", "Whisper"], &[]);
    let prompt = g.whisper_prompt(&["OAuth".to_string(), "JWT".to_string()]);
    assert_eq!(prompt, "Assistant, Whisper, OAuth, JWT");
}

#[test]
fn whisper_prompt_empty_without_terms() {
    let g = Glossary::default();
    assert_eq!(g.whisper_prompt(&[]), "");
}

#[test]
fn correction_replaces_every_occurrence() {
    let g = glossary_with(&[], &[("cloud", "Assistant")]);
    assert_eq!(
        g.apply_corrections("cloud said cloud twice"),
        "Assistant said Assistant twice"
    );
}

#[test]
fn later_duplicate_correction_wins() {
    let g = glossary_with(&[], &[("cloud", "Cloud"), ("cloud", "Assistant")]);
    assert_eq!(g.apply_corrections("ask cloud"), "ask Assistant");
}

#[test]
fn corrections_leave_other_text_alone() {
    let g = glossary_with(&[], &[("Cloud", "Assistant")]);
    assert_eq!(g.apply_corrections("clouds over the bay"), "clouds over the bay");
}
