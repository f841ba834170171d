use callout::config::model_file_name;
use callout::model::{check_size, download_url, is_known_size, megabytes, model_row, sizes};

#[test]
fn known_sizes() {
    assert_eq!(sizes(), vec!["tiny", "base", "small", "medium", "large"]);
    assert!(is_known_size("medium"));
    assert!(!is_known_size("huge"));
    assert!(!is_known_size("Base"));
}

#[test]
fn unknown_size_is_refused() {
    assert_eq!(check_size("base"), Ok(()));
    assert_eq!(
        check_size("huge"),
        Err("unknown model size \"huge\". Valid: tiny, base, small, medium, large".to_string())
    );
}

#[test]
fn download_location() {
    assert_eq!(
        download_url("base"),
        "https://huggingface.co/ggerganov/whisper.cpp/resolve/main/ggml-base.bin"
    );
    assert_eq!(model_file_name("small"), "ggml-small.bin");
}

#[test]
fn sizes_in_megabytes() {
    assert_eq!(megabytes(147_951_465), 141);
    assert_eq!(megabytes(1_048_575), 0);
    assert_eq!(megabytes(u64::MAX), 17_592_186_044_415);
}

#[test]
fn model_rows() {
    assert_eq!(model_row("base", 141, true), format!("  {:<8} {:>4} MB  ← active", "base", 141));
    assert_eq!(model_row("large", 2951, false), "  large    2951 MB");
    assert_eq!(model_row("tiny", 12345, false), "  tiny     12345 MB");
}
