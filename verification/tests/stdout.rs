use stim_sidecar::stdout::{endpoint_in_text, extract_endpoint, strip_ansi, StdoutPattern};

fn local_pattern() -> StdoutPattern {
    StdoutPattern::new(r"Local:\s+(http://[^\s]+)").unwrap()
}

#[test]
fn removes_colors() {
    let raw = "\x1b[1m\x1b[92m  Local:\x1b[0m   http://127.0.0.1:1421/";
    assert_eq!(strip_ansi(raw), "  Local:   http://127.0.0.1:1421/");
}

#[test]
fn preserves_plain_text() {
    let raw = "Local: http://127.0.0.1:1234/";
    assert_eq!(strip_ansi(raw), "Local: http://127.0.0.1:1234/");
}

#[test]
fn returns_first_capture() {
    let pattern = local_pattern();
    let line = "  Local:   http://127.0.0.1:53321/";
    assert_eq!(
        extract_endpoint(line, &pattern).as_deref(),
        Some("http://127.0.0.1:53321/")
    );
}

#[test]
fn strips_ansi_first() {
    let pattern = local_pattern();
    let line = "\x1b[1m\x1b[92m  Local:\x1b[0m   http://127.0.0.1:1421/";
    assert_eq!(
        extract_endpoint(line, &pattern).as_deref(),
        Some("http://127.0.0.1:1421/")
    );
}

#[test]
fn returns_none_on_miss() {
    let pattern = local_pattern();
    assert_eq!(extract_endpoint("warning: nothing here", &pattern), None);
}

#[test]
fn requires_capture_group() {
    let pattern = StdoutPattern::new(r"Local:\s+http://[^\s]+").unwrap();
    assert_eq!(
        extract_endpoint("Local: http://127.0.0.1:1234/", &pattern),
        None
    );
}

#[test]
fn invalid_pattern_is_refused() {
    assert!(StdoutPattern::new("(unclosed").is_err());
    assert_eq!(local_pattern().as_str(), r"Local:\s+(http://[^\s]+)");
}

#[test]
fn strip_is_idempotent_on_example() {
    let raw = "\x1b[31mred\x1b[0m and \x1b[1;4mbold\x1b[m";
    let once = strip_ansi(raw);
    assert_eq!(once, "red and bold");
    assert_eq!(strip_ansi(&once), once);
}

#[test]
fn unterminated_escape_is_dropped() {
    assert_eq!(strip_ansi("ok\x1b[12"), "ok");
    assert_eq!(strip_ansi("a\x1bb"), "ab");
}

#[test]
fn log_text_yields_first_endpoint() {
    let pattern = local_pattern();
    let log = "compiling\r\n\x1b[32m  Local:\x1b[0m   http://127.0.0.1:5173/\r\n  Local: http://127.0.0.1:9999/\n";
    assert_eq!(
        endpoint_in_text(log, &pattern).as_deref(),
        Some("http://127.0.0.1:5173/")
    );
    assert_eq!(endpoint_in_text("nothing\nyet", &pattern), None);
    assert_eq!(endpoint_in_text("", &pattern), None);
}
