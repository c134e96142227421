use vmsa_test::process::{
    outcome_meets, Completed, Expectation, FailureKind,
    add_context, parse_build_step, preparation_exit, preparation_lines, progress_bar, terminal_tone, Absorbed,
    Failure, LineSplitter, Preparation, PreparationProgress,
};
use vmsa_test::protocol::Counts;
use vmsa_test::terminal::Tone;

#[test]
fn progress_bar_scales_and_clamps() {
    assert_eq!(progress_bar(0, 4, 8, false), "[--------]");
    assert_eq!(progress_bar(1, 4, 8, false), "[##------]");
    assert_eq!(progress_bar(4, 4, 8, false), "[########]");
    assert_eq!(progress_bar(5, 4, 8, false), "[########]");
}

#[test]
fn parses_structured_build_steps() {
    assert_eq!(
        parse_build_step("VMSA-INFRA BUILD_STEP index=2 total=5 name=hafnium"),
        Some((2, 5, "hafnium".to_string()))
    );
    assert_eq!(parse_build_step("VMSA-INFRA BUILD_STEP index=0 total=5 name=hafnium"), None);
}

#[test]
fn build_step_rejects_malformed_lines() {
    assert_eq!(parse_build_step("VMSA-INFRA BUILD_STEP index=6 total=5 name=x"), None);
    assert_eq!(parse_build_step("VMSA-INFRA BUILD_STEP index=1 total=5 name="), None);
    assert_eq!(parse_build_step("VMSA-INFRA BUILD_STEP index=1 total=5 name=x extra"), None);
    assert_eq!(parse_build_step("VMSA-INFRA BUILD_STEP index=1  total=5 name=x"), None);
    assert_eq!(parse_build_step("VMSA-INFRA BUILD_STEP total=5 index=1 name=x"), None);
    assert_eq!(
        parse_build_step("VMSA-INFRA BUILD_STEP index=+1 total=5 name=tf-a"),
        Some((1, 5, "tf-a".to_string()))
    );
}

#[test]
fn progress_bar_without_total_is_empty() {
    assert_eq!(progress_bar(3, 0, 4, false), "[----]");
    assert_eq!(progress_bar(1, 2, 4, true), "[\x1b[32m##\x1b[0m\x1b[2m--\x1b[0m]");
}

#[test]
fn context_is_appended_to_the_failure_detail() {
    match add_context(Some(Failure::Build("make failed".into())), "cleanup failed") {
        Failure::Build(detail) => assert_eq!(detail, "make failed; cleanup failed"),
        other => panic!("unexpected failure {other:?}"),
    }
    match add_context(None, "reader thread panicked") {
        Failure::Io(detail) => assert_eq!(detail, "reader thread panicked"),
        other => panic!("unexpected failure {other:?}"),
    }
    match add_context(
        Some(Failure::TestTimeout {
            detail: "late".into(),
            counts: Counts { passed: 1, failed: 1, skipped: 0 },
        }),
        "x",
    ) {
        Failure::TestTimeout { detail, counts } => {
            assert_eq!(detail, "late; x");
            assert_eq!(counts, Counts { passed: 1, failed: 1, skipped: 0 });
        }
        other => panic!("unexpected failure {other:?}"),
    }
}

#[test]
fn output_lines_are_coloured_by_kind() {
    assert_eq!(terminal_tone("@@VMSA PASS a"), Some(Tone::Success));
    assert_eq!(terminal_tone("@@VMSA FAIL a reason=x"), Some(Tone::Failure));
    assert_eq!(terminal_tone("PANIC: at the start"), None);
    assert_eq!(terminal_tone("a PANIC b"), Some(Tone::Failure));
    assert_eq!(terminal_tone("@@VMSA END passed=1 failed=0 skipped=0"), Some(Tone::Success));
    assert_eq!(terminal_tone("@@VMSA END passed=1 failed=2 skipped=0"), Some(Tone::Failure));
    assert_eq!(terminal_tone("VMSA-INFRA FVP_START"), Some(Tone::Active));
    assert_eq!(terminal_tone("VMSA-INFRA CAPABILITY"), Some(Tone::Skipped));
    assert_eq!(terminal_tone("@@VMSA BEGIN protocol=1 target=x"), Some(Tone::Muted));
    assert_eq!(terminal_tone("plain output"), None);
}

#[test]
fn splitter_joins_buffers_and_strips_carriage_returns() {
    let mut splitter = LineSplitter::new();
    match splitter.absorb(b"abc") {
        Absorbed::Partial(3) => {}
        other => panic!("unexpected {other:?}"),
    }
    match splitter.absorb(b"def\r\nrest") {
        Absorbed::Line(5, bytes) => assert_eq!(bytes, b"abcdef".to_vec()),
        other => panic!("unexpected {other:?}"),
    }
    assert_eq!(splitter.end(), None);
    match splitter.absorb(b"tail\r") {
        Absorbed::Partial(5) => {}
        other => panic!("unexpected {other:?}"),
    }
    assert_eq!(splitter.end(), Some(b"tail".to_vec()));
}

#[test]
fn splitter_stops_at_an_oversized_line() {
    let mut splitter = LineSplitter::new();
    let chunk = vec![b'x'; 64 * 1024];
    match splitter.absorb(&chunk) {
        Absorbed::Partial(n) => assert_eq!(n, 64 * 1024),
        other => panic!("unexpected {other:?}"),
    }
    match splitter.absorb(b"y\n") {
        Absorbed::TooLong => {}
        other => panic!("unexpected {other:?}"),
    }
    assert!(splitter.finished());
}

#[test]
fn preparation_follows_build_steps() {
    let mut preparation = Preparation::new();
    let update = preparation.on_line("VMSA-INFRA BUILD_STEP index=2 total=5 name=tf-a-tests", true);
    assert_eq!(update.render, Some((1, 5, "building tf a tests".to_string())));
    assert!(!update.echo);
    assert!(!update.extend_deadline);
    let update = preparation.on_line("VMSA-INFRA PHASE build-complete", true);
    assert_eq!(update.render, Some((1, 5, "build steps complete".to_string())));
    assert!(update.extend_deadline);
    let update = preparation.on_line("VMSA-INFRA PHASE package-complete", true);
    assert_eq!(update.render, Some((5, 5, "firmware packaged".to_string())));
    assert_eq!(preparation.final_step(false), (5, 5));
    let update = preparation.on_line("make: compiling", false);
    assert_eq!(update.render, None);
    assert!(update.echo);
    let update = preparation.on_line("make: compiling", true);
    assert!(!update.echo);
}

#[test]
fn preparation_lines_show_both_bars() {
    let progress = PreparationProgress { target: "ns-el2", index: 2, total: 4 };
    let (overall, current) = preparation_lines(progress, 1, 2, "building", false, false, false);
    assert_eq!(overall, "firmware [######------------------] 1/4");
    assert_eq!(current, "  ns-el2         [#########---------] 1/2 building");
    let (overall, _) = preparation_lines(progress, 2, 2, "complete", true, false, false);
    assert_eq!(overall, "firmware [############------------] 2/4");
}

#[test]
fn preparation_exit_names_the_status() {
    assert!(preparation_exit(true, "exit status: 0").is_ok());
    match preparation_exit(false, "exit status: 2") {
        Err(Failure::Build(detail)) => {
            assert_eq!(detail, "firmware preparation container exited with exit status: 2")
        }
        other => panic!("unexpected {other:?}"),
    }
}

#[test]
fn preparation_step_never_exceeds_its_count() {
    let mut preparation = Preparation::new();
    for line in [
        "VMSA-INFRA PHASE prepare-start",
        "VMSA-INFRA BUILD_STEP index=5 total=5 name=last",
        "VMSA-INFRA PHASE firmware-cache-hit abc",
        "VMSA-INFRA BUILD_STEP index=6 total=5 name=bad",
        "VMSA-INFRA PHASE package-complete",
    ] {
        let update = preparation.on_line(line, true);
        if let Some((step, total, _)) = update.render {
            assert!(step <= total && total >= 1);
        }
        let (step, total) = preparation.final_step(false);
        assert!(step <= total && total >= 1);
    }
}

#[test]
fn self_check_expectations_match_outcomes() {

    let done: Result<Completed, Failure> = Ok(Completed { counts: Counts { passed: 1, failed: 1, skipped: 3 } });
    assert!(outcome_meets(&Expectation::Completes { passed: 1, failed: 1, skipped: None }, &done));
    assert!(!outcome_meets(&Expectation::Completes { passed: 1, failed: 1, skipped: Some(0) }, &done));
    let missing: Result<Completed, Failure> = Err(Failure::Malformed("missing END; container exited".into()));
    assert!(outcome_meets(&Expectation::Fails { kind: FailureKind::Malformed, holding: "missing END".into() }, &missing));
    assert!(!outcome_meets(&Expectation::Fails { kind: FailureKind::Startup, holding: "".into() }, &missing));
    assert!(!outcome_meets(&Expectation::Completes { passed: 0, failed: 0, skipped: None }, &missing));
    let hang: Result<Completed, Failure> = Err(Failure::TestTimeout {
        detail: "test t watchdog expired after 0.300s".into(),
        counts: Counts { passed: 0, failed: 1, skipped: 0 },
    });
    assert!(outcome_meets(&Expectation::TimesOutTest { holding: "test t watchdog expired".into(), failed: 1 }, &hang));
    assert!(!outcome_meets(&Expectation::TimesOutTest { holding: "test t watchdog expired".into(), failed: 0 }, &hang));
}

#[test]
fn finished_preparation_may_have_index_zero() {
    let progress = PreparationProgress { target: "ns-el2", index: 0, total: 0 };
    let (overall, _) = preparation_lines(progress, 1, 1, "complete", true, false, false);
    assert_eq!(overall, "firmware [------------------------] 0/0");
}
