use vmsa_test::supervisor::{Control, Supervisor, SupervisorLimits};
use vmsa_test::args::Target;
use vmsa_test::process::Failure;
use vmsa_test::protocol::Counts;
use vmsa_test::run::{
    boot_report, classify_failure, continues_after, fingerprint_path_excluded, hex16, reported_capabilities,
    unplanned_report, update_fnv1a, ExitCode, FNV_OFFSET_BASIS, next_boot,
};

fn counts(passed: u32, failed: u32, skipped: u32) -> Counts {
    Counts { passed, failed, skipped }
}

fn fnv(bytes: &[u8]) -> u64 {
    let mut hash = FNV_OFFSET_BASIS;
    update_fnv1a(&mut hash, bytes);
    hash
}

#[test]
fn exit_codes_match_the_process_statuses() {
    let all = [
        (ExitCode::Success, 0),
        (ExitCode::TestsFailed, 1),
        (ExitCode::BuildFailed, 2),
        (ExitCode::StartupFailed, 3),
        (ExitCode::Malformed, 4),
        (ExitCode::Timeout, 5),
        (ExitCode::Capability, 6),
        (ExitCode::InvalidSetup, 7),
        (ExitCode::Cancelled, 130),
    ];
    for (status, code) in all {
        assert_eq!(status.code(), code);
    }
}

#[test]
fn worse_keeps_the_more_severe_status() {
    assert_eq!(ExitCode::Success.worse(ExitCode::TestsFailed), ExitCode::TestsFailed);
    assert_eq!(ExitCode::Timeout.worse(ExitCode::BuildFailed), ExitCode::Timeout);
    assert_eq!(ExitCode::Cancelled.worse(ExitCode::InvalidSetup), ExitCode::Cancelled);
    assert_eq!(ExitCode::Malformed.worse(ExitCode::Malformed), ExitCode::Malformed);
}

#[test]
fn complete_boots_are_classified_by_counts() {
    let (row, code) = boot_report(Target::NsEl2, Ok(counts(3, 0, 1)));
    assert_eq!((row.outcome, row.detail, code), ("passed", None, ExitCode::Success));
    let (row, code) = boot_report(Target::NsEl2, Ok(counts(3, 1, 0)));
    assert_eq!((row.outcome, code), ("failed", ExitCode::TestsFailed));
    assert_eq!(row.counts, Some(counts(3, 1, 0)));
    let (row, code) = boot_report(Target::NsEl2, Ok(counts(0, 0, 2)));
    assert_eq!(row.outcome, "unsupported");
    assert_eq!(row.detail.as_deref(), Some("every selected test was skipped"));
    assert_eq!(code, ExitCode::Capability);
    let (row, code) = boot_report(Target::NsEl2, Ok(counts(0, 0, 0)));
    assert_eq!(row.outcome, "invalid");
    assert_eq!(row.detail.as_deref(), Some("the filter matched no applicable tests"));
    assert_eq!(code, ExitCode::InvalidSetup);
}

#[test]
fn failed_boots_are_classified_by_kind() {
    let cases = [
        (Failure::Build("b".into()), "build-error", ExitCode::BuildFailed),
        (Failure::Startup("s".into()), "startup-error", ExitCode::StartupFailed),
        (Failure::Capability("c".into()), "unsupported", ExitCode::Capability),
        (Failure::Harness("h".into()), "harness-error", ExitCode::Malformed),
        (Failure::Malformed("m".into()), "malformed", ExitCode::Malformed),
        (Failure::Timeout("t".into()), "timeout", ExitCode::Timeout),
        (Failure::Io("i".into()), "startup-error", ExitCode::StartupFailed),
        (Failure::Cancelled("x".into()), "cancelled", ExitCode::Cancelled),
    ];
    for (failure, outcome, code) in cases {
        let (row, got) = boot_report(Target::RootEl3, Err(failure));
        assert_eq!(row.outcome, outcome);
        assert_eq!(row.counts, None);
        assert!(row.detail.is_some());
        assert_eq!(got, code);
    }
    assert_eq!(
        classify_failure(Failure::Malformed("bad".into())),
        ("malformed", ExitCode::Malformed, "bad".to_string())
    );
}

#[test]
fn test_timeout_keeps_its_counts() {
    let (row, code) = boot_report(
        Target::SecureEl2,
        Err(Failure::TestTimeout { detail: "late".into(), counts: counts(2, 1, 0) }),
    );
    assert_eq!(row.outcome, "timeout");
    assert_eq!(row.counts, Some(counts(2, 1, 0)));
    assert_eq!(row.detail.as_deref(), Some("late"));
    assert_eq!(code, ExitCode::Timeout);
}

#[test]
fn unplanned_targets_are_invalid() {
    let (row, code) = unplanned_report(Target::RealmEl2, None);
    assert_eq!(row.outcome, "invalid");
    assert_eq!(row.detail.as_deref(), Some("the filter matched no registered adapter case"));
    assert_eq!(code, ExitCode::InvalidSetup);
    let (row, _) = unplanned_report(Target::RealmEl2, Some("registry broken".into()));
    assert_eq!(row.detail.as_deref(), Some("registry broken"));
}

#[test]
fn only_a_build_failure_ends_a_target() {
    assert!(!continues_after(ExitCode::BuildFailed));
    assert!(continues_after(ExitCode::Timeout));
    assert!(continues_after(ExitCode::Success));
}

#[test]
fn fnv1a_matches_reference_values() {
    assert_eq!(fnv(b""), 0xcbf29ce484222325);
    assert_eq!(fnv(b"a"), 0xaf63dc4c8601ec8c);
    assert_eq!(fnv(b"foobar"), 0x85944171f73967e8);
}

#[test]
fn fnv1a_continues_across_chunks() {
    let mut hash = FNV_OFFSET_BASIS;
    update_fnv1a(&mut hash, b"foo");
    update_fnv1a(&mut hash, b"bar");
    assert_eq!(hash, fnv(b"foobar"));
}

#[test]
fn hex16_pads_to_sixteen_digits() {
    assert_eq!(hex16(0), "0000000000000000");
    assert_eq!(hex16(0xab), "00000000000000ab");
    assert_eq!(hex16(0xcbf29ce484222325), "cbf29ce484222325");
    assert_eq!(hex16(u64::MAX), "ffffffffffffffff");
}

#[test]
fn fingerprint_leaves_out_generated_paths() {
    assert!(fingerprint_path_excluded(".git", true));
    assert!(fingerprint_path_excluded(".git/HEAD", true));
    assert!(fingerprint_path_excluded("output\\run.log", true));
    assert!(fingerprint_path_excluded("host/target/debug/x", true));
    assert!(fingerprint_path_excluded("container/__pycache__/a.pyc", true));
    assert!(!fingerprint_path_excluded(".gitignore", true));
    assert!(!fingerprint_path_excluded("host/cli/src/run.rs", true));
    assert!(!fingerprint_path_excluded("target/harness/src/lib.rs", true));
    assert!(fingerprint_path_excluded("target/harness/src/lib.rs", false));
    assert!(fingerprint_path_excluded("target", false));
    assert!(!fingerprint_path_excluded("targets/x", false));
}

#[test]
fn capabilities_are_copied_from_the_results_log() {
    let log = "@@VMSA BEGIN protocol=1 target=ns-el2\n@@VMSA CAP rme=1\nnoise\r\n@@VMSA CAP sve=0\r\n@@VMSA END passed=0 failed=0 skipped=0";
    assert_eq!(
        reported_capabilities(log),
        "architecture_capability=rme=1\narchitecture_capability=sve=0\n"
    );
    assert_eq!(reported_capabilities(""), "");
}

#[test]
fn only_successful_runs_are_discarded_without_keep() {
    assert!(vmsa_test::run::discards_artifacts(ExitCode::Success, false));
    assert!(!vmsa_test::run::discards_artifacts(ExitCode::Success, true));
    assert!(!vmsa_test::run::discards_artifacts(ExitCode::TestsFailed, false));
    assert!(!vmsa_test::run::discards_artifacts(ExitCode::Cancelled, false));
}

#[test]
fn cancellation_is_reported_and_exits_with_130() {
    let mut supervisor = Supervisor::new(SupervisorLimits::doctor(), "ns-el2", None, false);
    let failure = match supervisor.check(2_000_000, true).control {
        Control::Stop(failure) => failure,
        other => panic!("unexpected control {other:?}"),
    };
    let (row, code) = boot_report(Target::NsEl2, Err(failure));
    assert_eq!(row.outcome, "cancelled");
    assert_eq!(code.code(), 130);
    assert_eq!(ExitCode::Timeout.worse(code), ExitCode::Cancelled);
}

#[test]
fn worse_does_not_depend_on_order() {
    let all = [
        ExitCode::Success,
        ExitCode::TestsFailed,
        ExitCode::BuildFailed,
        ExitCode::StartupFailed,
        ExitCode::Malformed,
        ExitCode::Timeout,
        ExitCode::Capability,
        ExitCode::InvalidSetup,
        ExitCode::Cancelled,
    ];
    for a in all {
        assert_eq!(a.worse(ExitCode::Success), a);
        for b in all {
            assert_eq!(a.worse(b), b.worse(a));
            for c in all {
                assert_eq!(a.worse(b).worse(c), a.worse(b.worse(c)));
            }
        }
    }
}

#[test]
fn run_status_is_the_worst_boot() {
    assert_eq!(vmsa_test::run::run_status(&[]), ExitCode::Success);
    assert_eq!(
        vmsa_test::run::run_status(&[ExitCode::TestsFailed, ExitCode::Timeout, ExitCode::Success]),
        ExitCode::Timeout
    );
    assert_eq!(
        vmsa_test::run::run_status(&[ExitCode::Cancelled, ExitCode::InvalidSetup]),
        ExitCode::Cancelled
    );
}

#[test]
fn no_boot_runs_after_a_build_failure() {
    assert_eq!(next_boot(3, &[]), Some(0));
    assert_eq!(next_boot(3, &[ExitCode::Timeout]), Some(1));
    assert_eq!(next_boot(3, &[ExitCode::Success, ExitCode::BuildFailed]), None);
    assert_eq!(next_boot(2, &[ExitCode::Success, ExitCode::TestsFailed]), None);
    assert_eq!(next_boot(0, &[]), None);
}

#[test]
fn provenance_lists_every_fact() {
    let p = vmsa_test::run::Provenance {
        test_revision: "abc".into(),
        test_dirty: "false".into(),
        test_fingerprint: "0000000000000001".into(),
        vmsa_revision: "def".into(),
        vmsa_dirty: "true".into(),
        vmsa_fingerprint: "0000000000000002".into(),
        container_image: "img".into(),
        tf_a_revision: "a".into(),
        tf_a_tests_revision: "b".into(),
        hafnium_revision: "c".into(),
        tf_rmm_revision: "d".into(),
        fvp_version: "11.27".into(),
        host_os: "linux".into(),
        host_arch: "x86_64".into(),
    };
    let text = vmsa_test::run::provenance_manifest(&p, Target::RealmEl2, None);
    assert_eq!(
        text,
        "test_repository_revision=abc\ntest_repository_dirty=false\n\
         test_repository_content_fingerprint=fnv1a64:0000000000000001\nvmsa_revision=def\nvmsa_dirty=true\n\
         vmsa_content_fingerprint=fnv1a64:0000000000000002\ncontainer_image=img\ntf_a_revision=a\n\
         tf_a_tests_revision=b\nhafnium_revision=c\ntf_rmm_revision=d\nfvp_version=11.27\nhost_os=linux\n\
         host_arch=x86_64\nboot_profile=realm-el2\nfilter=<none>\ntarget_triple=aarch64-unknown-none-softfloat\n"
    );
    assert!(vmsa_test::run::provenance_manifest(&p, Target::NsEl2, Some("map")).contains("\nfilter=map\n"));
}
