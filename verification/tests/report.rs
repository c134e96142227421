use vmsa_test::args::Target;
use vmsa_test::protocol::Counts;
use vmsa_test::report::{combined, combined_for_terminal, TargetReport};

fn report(target: Target, outcome: &'static str, passed: u32, failed: u32, skipped: u32) -> TargetReport {
    TargetReport {
        target,
        counts: Some(Counts {
            passed,
            failed,
            skipped,
        }),
        outcome,
        detail: None,
    }
}

#[test]
fn combines_isolated_boots_into_one_target_row() {
    let text = combined(&[
        report(Target::SecureEl2, "passed", 63, 0, 0),
        report(Target::SecureEl2, "passed", 1, 0, 0),
        report(Target::SecureEl2, "failed", 0, 1, 0),
        report(Target::SecureEl2, "timeout", 0, 1, 0),
    ]);

    assert_eq!(text.matches("secure-el2").count(), 1);
    assert!(text.contains("secure-el2     timeout     passed=64 failed=2 skipped=0"));
    assert!(text.contains("total          passed=64 failed=2 skipped=0"));
}

#[test]
fn groups_countless_build_failures_without_duplicate_rows() {
    let text = combined(&[
        TargetReport {
            target: Target::RootEl3,
            counts: None,
            outcome: "build-error",
            detail: Some("first build failed".into()),
        },
        TargetReport {
            target: Target::RootEl3,
            counts: None,
            outcome: "build-error",
            detail: Some("second build failed".into()),
        },
    ]);

    assert_eq!(text.matches("root-el3").count(), 1);
    assert!(text.contains("root-el3       build-error passed=0 failed=0 skipped=0"));
    assert!(!text.contains("first build failed"));
    assert!(!text.contains("second build failed"));
}

#[test]
fn preserves_detail_in_a_single_run_summary() {
    let text = combined(&[TargetReport {
        target: Target::RootEl3,
        counts: None,
        outcome: "build-error",
        detail: Some("firmware build failed".into()),
    }]);

    assert!(text.contains("root-el3       build-error passed=0 failed=0 skipped=0 firmware build failed"));
}

#[test]
fn empty_summary_has_header_and_zero_total() {
    let text = combined(&[]);
    assert_eq!(
        text,
        "aarch64-vmsa FVP test summary\ntotal          passed=0 failed=0 skipped=0\n"
    );
}

#[test]
fn rows_follow_target_order_and_total_sums_all_targets() {
    let text = combined(&[
        report(Target::RootEl3, "passed", 2, 0, 1),
        report(Target::NsEl2, "failed", 3, 4, 0),
    ]);
    assert_eq!(
        text,
        "aarch64-vmsa FVP test summary\n\
         ns-el2         failed      passed=3 failed=4 skipped=0\n\
         root-el3       passed      passed=2 failed=0 skipped=1\n\
         total          passed=5 failed=4 skipped=1\n"
    );
}

#[test]
fn equally_bad_outcomes_show_the_last_one() {
    // "malformed" and "harness-error" rank alike; the later boot names the row.
    let text = combined(&[
        report(Target::RealmEl2, "malformed", 0, 0, 0),
        report(Target::RealmEl2, "harness-error", 0, 0, 0),
    ]);
    assert!(text.contains("realm-el2      harness-error passed=0"));
}

#[test]
fn counters_saturate_instead_of_wrapping() {
    let text = combined(&[
        report(Target::NsEl2, "passed", u32::MAX, 0, 0),
        report(Target::NsEl2, "passed", 5, 0, 0),
    ]);
    assert!(text.contains(&format!("passed={}", u32::MAX)));
}

#[test]
fn colour_wraps_fields_in_ansi_codes() {
    let text = combined_for_terminal(&[report(Target::NsEl2, "passed", 1, 0, 0)], true);
    assert!(text.contains("\x1b[36mns-el2        \x1b[0m \x1b[32mpassed     \x1b[0m passed=\x1b[32m1\x1b[0m failed=\x1b[2m0\x1b[0m"));
}

#[test]
fn reports_of_other_targets_do_not_change_a_row() {
    let alone = combined(&[report(Target::RealmEl2, "failed", 1, 1, 0)]);
    let mixed = combined(&[
        report(Target::NsEl2, "passed", 3, 0, 0),
        report(Target::RealmEl2, "failed", 1, 1, 0),
        report(Target::RootEl3, "timeout", 0, 1, 0),
    ]);
    let row = |text: &str| text.lines().find(|l| l.starts_with("realm-el2")).map(str::to_owned);
    assert_eq!(row(&alone), row(&mixed));
    assert_eq!(row(&mixed).as_deref(), Some("realm-el2      failed      passed=1 failed=1 skipped=0"));
}

fn strip_ansi(text: &str) -> String {
    let mut out = String::new();
    let mut chars = text.chars();
    while let Some(c) = chars.next() {
        if c == '\x1b' {
            for d in chars.by_ref() {
                if d == 'm' {
                    break;
                }
            }
        } else {
            out.push(c);
        }
    }
    out
}

#[test]
fn coloured_summary_strips_to_the_plain_one() {
    let reports = [
        report(Target::NsEl2, "passed", 3, 0, 0),
        report(Target::SecureEl2, "failed", 1, 2, 0),
        report(Target::RootEl3, "unsupported", 0, 0, 4),
    ];
    let coloured = combined_for_terminal(&reports, true);
    assert!(coloured.contains('\x1b'));
    assert_eq!(strip_ansi(&coloured), combined(&reports));
    assert_eq!(combined_for_terminal(&reports, false), combined(&reports));
}
