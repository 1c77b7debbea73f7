use nanotime::Elapsed;

#[test]
fn test_elapsed_ms_nonnegative() {
    let timer = Elapsed::start();
    let ms = timer.elapsed_ms();
    assert!(
        ms < 1000,
        "elapsed_ms() returned {} immediately after start",
        ms
    );
}

#[test]
fn test_elapsed_display_ms_format() {
    let timer = Elapsed::start();
    let display = timer.to_string();
    assert!(
        display.ends_with("ms"),
        "expected ms format, got '{}'",
        display
    );
}
