use vmsa_test::process::{Failure, Stream};
use vmsa_test::protocol::{Counts, Event};
use vmsa_test::supervisor::{
    finish, Control, Effect, ExitInfo, Step, Supervisor, SupervisorLimits, POLL_INTERVAL_NS,
};

const SECOND: u64 = 1_000_000_000;

fn quiet(target: &str, termination: Option<&str>) -> Supervisor {
    Supervisor::new(SupervisorLimits::doctor(), target, termination, false)
}

fn live(target: &str) -> Supervisor {
    Supervisor::new(SupervisorLimits::production(target), target, None, true)
}

fn line(s: &mut Supervisor, now: u64, text: &str) -> Step {
    s.on_line(now, Stream::Stdout, text)
}

fn goes_on(step: &Step) -> bool {
    matches!(step.control, Control::Continue)
}

fn stop_detail(step: Step) -> String {
    match step.control {
        Control::Stop(failure) => format!("{failure:?}"),
        other => panic!("expected a stop, got {other:?}"),
    }
}

fn exit(code: Option<i32>, text: &str) -> ExitInfo {
    ExitInfo { code, text: text.to_string() }
}

#[test]
fn production_limits_depend_on_target() {
    let ns = SupervisorLimits::production("ns-el2");
    assert_eq!(ns.startup, 30_000);
    assert_eq!(ns.initial, 300_000);
    assert_eq!(ns.test, 15_000);
    assert_eq!(ns.shutdown, 5_000);
    assert_eq!(SupervisorLimits::production("realm-stage2").startup, 60_000);
}

#[test]
fn first_line_releases_the_launch_permit_once() {
    let mut s = quiet("ns-el2", None);
    let first = line(&mut s, 1, "booting");
    assert!(goes_on(&first));
    assert!(matches!(first.effects.as_slice(), [Effect::ReleaseLaunchPermit]));
    let second = line(&mut s, 2, "still booting");
    assert!(second.effects.is_empty());
}

#[test]
fn complete_run_records_events_and_finishes() {
    let mut s = quiet("ns-el2", None);
    line(&mut s, 1, "VMSA-INFRA FVP_START");
    let begin = line(&mut s, 2, "@@VMSA BEGIN protocol=1 target=ns-el2");
    assert!(goes_on(&begin));
    match begin.effects.as_slice() {
        [Effect::Record(text), Effect::Observe(Event::Begin { target })] => {
            assert_eq!(text, "@@VMSA BEGIN protocol=1 target=ns-el2");
            assert_eq!(target, "ns-el2");
        }
        other => panic!("unexpected effects {other:?}"),
    }
    assert!(goes_on(&line(&mut s, 3, "@@VMSA RUN t1")));
    assert!(goes_on(&line(&mut s, 4, "@@VMSA PASS t1")));
    assert!(goes_on(&line(&mut s, 5, "@@VMSA END passed=1 failed=0 skipped=0")));
    let counts = Counts { passed: 1, failed: 0, skipped: 0 };
    assert_eq!(s.on_exit(&exit(Some(0), "exit status: 0")).unwrap(), counts);
    assert_eq!(s.parser().observed_counts(), &counts);
}

#[test]
fn begin_for_another_target_stops_the_run() {
    let mut s = quiet("secure-el2", None);
    let step = line(&mut s, 1, "@@VMSA BEGIN protocol=1 target=ns-el2");
    assert_eq!(
        stop_detail(step),
        "Malformed(\"BEGIN target ns-el2 does not match requested secure-el2\")"
    );
}

#[test]
fn malformed_record_stops_the_run() {
    let mut s = quiet("ns-el2", None);
    let step = line(&mut s, 1, "@@VMSA RUN t1");
    assert_eq!(stop_detail(step), "Malformed(\"protocol record before BEGIN: RUN\")");
}

#[test]
fn cancellation_names_the_phase_and_time() {
    let mut s = quiet("ns-el2", None);
    let step = s.check(1_500_000_000, true);
    assert_eq!(
        stop_detail(step),
        "Cancelled(\"host cancellation requested during preparation/build after 1.500s\")"
    );
}

#[test]
fn initial_deadline_expires() {
    let mut s = quiet("ns-el2", None);
    assert!(goes_on(&s.check(5 * SECOND - 1, false)));
    assert_eq!(stop_detail(s.check(5 * SECOND, false)), "Timeout(\"preparation/build deadline expired\")");
}

#[test]
fn startup_deadline_reports_elapsed_and_limit() {
    let mut s = quiet("ns-el2", None);
    line(&mut s, SECOND, "VMSA-INFRA FVP_START");
    assert!(goes_on(&s.check(SECOND + 299_000_000, false)));
    assert_eq!(
        stop_detail(s.check(SECOND + 300_000_000, false)),
        "Timeout(\"startup deadline expired after 0.300s (limit 0.3s)\")"
    );
}

#[test]
fn phase_markers_reset_the_deadline() {
    let mut s = quiet("ns-el2", None);
    line(&mut s, 4 * SECOND, "VMSA-INFRA PHASE build-start");
    assert!(goes_on(&s.check(4 * SECOND + 299_000_000, false)));
    assert_eq!(stop_detail(s.check(4 * SECOND + 300_000_000, false)), "Timeout(\"build deadline expired\")");
}

#[test]
fn test_watchdog_records_a_failure_and_times_out() {
    let mut s = quiet("ns-el2", None);
    line(&mut s, 0, "@@VMSA BEGIN protocol=1 target=ns-el2");
    line(&mut s, SECOND, "@@VMSA RUN t1");
    assert!(goes_on(&s.check(SECOND + 299_000_000, false)));
    let step = s.check(SECOND + 300_000_000, false);
    match step.effects.as_slice() {
        [Effect::Record(text)] => {
            assert_eq!(text, "@@VMSA FAIL t1 reason=test-watchdog-timeout expected=300 actual=300")
        }
        other => panic!("unexpected effects {other:?}"),
    }
    match step.control {
        Control::Stop(Failure::TestTimeout { detail, counts }) => {
            assert_eq!(detail, "test t1 watchdog expired after 0.300s (limit 0.3s)");
            assert_eq!(counts, Counts { passed: 0, failed: 1, skipped: 0 });
        }
        other => panic!("unexpected control {other:?}"),
    }
    assert_eq!(s.parser().active_test(), None);
}

#[test]
fn destructive_run_completes_on_expected_test() {
    let mut s = quiet("ns-el2", Some("boom"));
    line(&mut s, 0, "@@VMSA BEGIN protocol=1 target=ns-el2");
    line(&mut s, 1, "@@VMSA RUN boom");
    let step = line(&mut s, 2, "@@VMSA PASS boom");
    match step.control {
        Control::Complete(counts) => assert_eq!(counts, Counts { passed: 1, failed: 0, skipped: 0 }),
        other => panic!("unexpected control {other:?}"),
    }
}

#[test]
fn destructive_run_rejects_another_completion() {
    let mut s = quiet("ns-el2", Some("boom"));
    line(&mut s, 0, "@@VMSA BEGIN protocol=1 target=ns-el2");
    line(&mut s, 1, "@@VMSA RUN other");
    assert_eq!(
        stop_detail(line(&mut s, 2, "@@VMSA FAIL other reason=bad")),
        "Malformed(\"destructive completion for other; expected boom\")"
    );
}

#[test]
fn capability_marker_before_begin_stops_the_run() {
    let mut s = quiet("ns-el2", None);
    assert_eq!(
        stop_detail(line(&mut s, 0, "VMSA-INFRA CAPABILITY")),
        "Capability(\"target baseline capability is unavailable\")"
    );
}

#[test]
fn harness_failure_names_the_active_test() {
    let mut s = quiet("ns-el2", None);
    line(&mut s, 0, "@@VMSA BEGIN protocol=1 target=ns-el2");
    line(&mut s, 1, "@@VMSA RUN t1");
    assert_eq!(
        stop_detail(line(&mut s, 2, "VMSA-INFRA HARNESS_FAILURE esr=1")),
        "Harness(\"guest reported an unrecoverable harness exception while t1 was active: VMSA-INFRA HARNESS_FAILURE esr=1\")"
    );
}

#[test]
fn live_run_echoes_and_notes_phases() {
    let mut s = live("ns-el2");
    let start = line(&mut s, SECOND, "VMSA-INFRA PHASE build-start");
    match start.effects.as_slice() {
        [Effect::ReleaseLaunchPermit, Effect::Echo { stream: Stream::Stdout, text }] => {
            assert_eq!(text, "VMSA-INFRA PHASE build-start")
        }
        other => panic!("unexpected effects {other:?}"),
    }
    let idle_early = s.on_idle(10 * SECOND);
    assert!(idle_early.effects.is_empty());
    let idle = s.on_idle(11 * SECOND);
    match idle.effects.as_slice() {
        [Effect::Note(text)] => assert_eq!(text, "vmsa-test: build still running (10.0s elapsed, 300s limit)"),
        other => panic!("unexpected effects {other:?}"),
    }
    let done = line(&mut s, 3 * SECOND / 2 + 11 * SECOND, "VMSA-INFRA PHASE build-complete");
    match done.effects.as_slice() {
        [Effect::Echo { .. }, Effect::Note(text)] => {
            assert_eq!(text, "vmsa-test: firmware build completed in 11.500s")
        }
        other => panic!("unexpected effects {other:?}"),
    }
}

#[test]
fn wait_is_bounded_by_deadline_and_poll_interval() {
    let s = quiet("ns-el2", None);
    assert_eq!(s.wait(0), POLL_INTERVAL_NS);
    assert_eq!(s.wait(5 * SECOND - 100), 100);
    assert_eq!(s.wait(6 * SECOND), 0);
}

#[test]
fn reader_error_is_an_io_failure() {
    let s = quiet("ns-el2", None);
    assert_eq!(stop_detail(s.on_reader_error("broken pipe".into())), "Io(\"broken pipe\")");
}

#[test]
fn exit_before_begin_is_classified_by_code() {
    let s = quiet("ns-el2", None);
    let d = |r: Result<Counts, Failure>| format!("{:?}", r.unwrap_err());
    assert_eq!(d(s.on_exit(&exit(Some(20), "exit status: 20"))), "Build(\"firmware build or packaging failed\")");
    assert_eq!(
        d(s.on_exit(&exit(Some(22), "exit status: 22"))),
        "Capability(\"target baseline capability is unavailable\")"
    );
    assert_eq!(
        d(s.on_exit(&exit(Some(9), "exit status: 9"))),
        "Startup(\"container exited before BEGIN with exit status: 9\")"
    );
}

#[test]
fn exit_after_begin_or_end_is_classified() {
    let mut s = quiet("ns-el2", None);
    line(&mut s, 0, "@@VMSA BEGIN protocol=1 target=ns-el2");
    assert_eq!(
        format!("{:?}", s.on_exit(&exit(Some(0), "exit status: 0")).unwrap_err()),
        "Malformed(\"missing END; container exited with exit status: 0\")"
    );
    line(&mut s, 1, "@@VMSA END passed=0 failed=0 skipped=0");
    assert_eq!(
        format!("{:?}", s.on_exit(&exit(Some(20), "exit status: 20")).unwrap_err()),
        "Build(\"container reported cleanup or packaging failure after END\")"
    );
    assert_eq!(
        format!("{:?}", s.on_exit(&exit(None, "signal: 9")).unwrap_err()),
        "Startup(\"container failed after END with signal: 9\")"
    );
}

#[test]
fn destructive_exit_without_termination_is_malformed() {
    let mut s = quiet("ns-el2", Some("boom"));
    line(&mut s, 0, "@@VMSA BEGIN protocol=1 target=ns-el2");
    line(&mut s, 1, "@@VMSA RUN boom");
    assert_eq!(
        format!("{:?}", finish(&exit(Some(0), "exit status: 0"), s.parser(), Some("boom")).unwrap_err()),
        "Malformed(\"expected PASS or FAIL during destructive test boom; active test was Some(\\\"boom\\\") and process exited with exit status: 0\")"
    );
}
