use vmsa_test::terminal::{paint, Tone};

#[test]
fn paint_wraps_text_only_when_enabled() {
    assert_eq!(paint(false, Tone::Failure, "bad"), "bad");
    assert_eq!(paint(true, Tone::Failure, "bad"), "\x1b[31mbad\x1b[0m");
    assert_eq!(paint(true, Tone::Muted, ""), "\x1b[2m\x1b[0m");
}

#[test]
fn tones_have_distinct_codes() {
    let codes: Vec<&str> = [Tone::Success, Tone::Failure, Tone::Skipped, Tone::Active, Tone::Muted]
        .iter()
        .map(|t| t.ansi())
        .collect();
    assert_eq!(codes, vec!["\x1b[32m", "\x1b[31m", "\x1b[33m", "\x1b[36m", "\x1b[2m"]);
}
