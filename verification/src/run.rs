//! How the outcome of each boot becomes a report row and an exit code, and the
//! content fingerprint recorded with every run.
use vstd::prelude::*;
use vstd::string::StringExecFns;
use crate::args::{target_name, Target};
use crate::process::{Failure, FailureKind, FailureModel};
use crate::protocol::Counts;
use crate::report::{ReportModel, TargetReport};
use crate::supervisor::{check_step, ControlModel, SupervisorModel};
use crate::text::{
    chars_of, digit_char, push_char, push_chars, same_chars, split_lines, starts_with, sub_chars,
    text_lines, views,
};

verus! {

/// The exit status of the runner, from best to worst.
#[derive(Clone, Copy, Debug, PartialEq, Eq, PartialOrd, Ord, Structural)]
pub enum ExitCode {
    Success,
    TestsFailed,
    BuildFailed,
    StartupFailed,
    Malformed,
    Timeout,
    Capability,
    InvalidSetup,
    Cancelled,
}

/// The position of `c` in the order from best to worst.
pub open spec fn severity(c: ExitCode) -> nat {
    match c {
        ExitCode::Success => 0,
        ExitCode::TestsFailed => 1,
        ExitCode::BuildFailed => 2,
        ExitCode::StartupFailed => 3,
        ExitCode::Malformed => 4,
        ExitCode::Timeout => 5,
        ExitCode::Capability => 6,
        ExitCode::InvalidSetup => 7,
        ExitCode::Cancelled => 8,
    }
}

/// The process exit code of each status.
pub open spec fn process_code(c: ExitCode) -> i32 {
    match c {
        ExitCode::Success => 0,
        ExitCode::TestsFailed => 1,
        ExitCode::BuildFailed => 2,
        ExitCode::StartupFailed => 3,
        ExitCode::Malformed => 4,
        ExitCode::Timeout => 5,
        ExitCode::Capability => 6,
        ExitCode::InvalidSetup => 7,
        ExitCode::Cancelled => 130,
    }
}

/// The worse of two statuses: the one later in the order from best to worst.
pub open spec fn worse_of(a: ExitCode, b: ExitCode) -> ExitCode {
    if severity(b) > severity(a) { b } else { a }
}

/// Combining statuses neither depends on their order nor on their grouping;
/// success changes nothing and a cancellation prevails, and the result is at
/// least as bad as each status. So the status of a run is the worst status of
/// its boots, however they are combined.
pub proof fn lemma_worse_is_maximum(a: ExitCode, b: ExitCode, c: ExitCode)
    ensures
        worse_of(a, b) == worse_of(b, a),
        worse_of(worse_of(a, b), c) == worse_of(a, worse_of(b, c)),
        worse_of(a, ExitCode::Success) == a,
        worse_of(a, ExitCode::Cancelled) == ExitCode::Cancelled,
        worse_of(a, b) == a || worse_of(a, b) == b,
        severity(worse_of(a, b)) >= severity(a),
        severity(worse_of(a, b)) >= severity(b),
{
    assert(severity(a) == severity(b) ==> a == b) by {
        match a {
            ExitCode::Success => {},
            ExitCode::TestsFailed => {},
            ExitCode::BuildFailed => {},
            ExitCode::StartupFailed => {},
            ExitCode::Malformed => {},
            ExitCode::Timeout => {},
            ExitCode::Capability => {},
            ExitCode::InvalidSetup => {},
            ExitCode::Cancelled => {},
        }
    }
}

impl ExitCode {
    /// The process exit code of this status.
    pub fn code(self) -> (r: i32)
        ensures
            r == process_code(self),
    {
        match self {
            ExitCode::Success => 0,
            ExitCode::TestsFailed => 1,
            ExitCode::BuildFailed => 2,
            ExitCode::StartupFailed => 3,
            ExitCode::Malformed => 4,
            ExitCode::Timeout => 5,
            ExitCode::Capability => 6,
            ExitCode::InvalidSetup => 7,
            ExitCode::Cancelled => 130,
        }
    }

    fn rank(self) -> (r: u8)
        ensures
            r == severity(self),
    {
        match self {
            ExitCode::Success => 0,
            ExitCode::TestsFailed => 1,
            ExitCode::BuildFailed => 2,
            ExitCode::StartupFailed => 3,
            ExitCode::Malformed => 4,
            ExitCode::Timeout => 5,
            ExitCode::Capability => 6,
            ExitCode::InvalidSetup => 7,
            ExitCode::Cancelled => 8,
        }
    }

    /// The worse of two statuses.
    pub fn worse(self, other: ExitCode) -> (r: ExitCode)
        ensures
            r == worse_of(self, other),
    {
        if other.rank() > self.rank() { other } else { self }
    }
}

/// The report outcome, exit status and detail of a failed boot.
pub open spec fn classification(f: FailureModel) -> (Seq<char>, ExitCode, Seq<char>) {
    match f.kind {
        FailureKind::Build => ("build-error"@, ExitCode::BuildFailed, f.detail),
        FailureKind::Startup => ("startup-error"@, ExitCode::StartupFailed, f.detail),
        FailureKind::Capability => ("unsupported"@, ExitCode::Capability, f.detail),
        FailureKind::Harness => ("harness-error"@, ExitCode::Malformed, f.detail),
        FailureKind::Malformed => ("malformed"@, ExitCode::Malformed, f.detail),
        FailureKind::Timeout => ("timeout"@, ExitCode::Timeout, f.detail),
        FailureKind::TestTimeout => ("timeout"@, ExitCode::Timeout, f.detail),
        FailureKind::Io => ("startup-error"@, ExitCode::StartupFailed, f.detail),
        FailureKind::Cancelled => ("cancelled"@, ExitCode::Cancelled, f.detail),
    }
}

/// The report outcome, exit status and detail of a failed boot; a test timeout,
/// which keeps its counts, is classified with them by [`boot_report`].
pub fn classify_failure(error: Failure) -> (r: (&'static str, ExitCode, String))
    requires
        error@.kind != FailureKind::TestTimeout,
    ensures
        (r.0@, r.1, r.2@) == classification(error@),
{
    match error {
        Failure::Build(detail) => ("build-error", ExitCode::BuildFailed, detail),
        Failure::Startup(detail) => ("startup-error", ExitCode::StartupFailed, detail),
        Failure::Capability(detail) => ("unsupported", ExitCode::Capability, detail),
        Failure::Harness(detail) => ("harness-error", ExitCode::Malformed, detail),
        Failure::Malformed(detail) => ("malformed", ExitCode::Malformed, detail),
        Failure::Timeout(detail) => ("timeout", ExitCode::Timeout, detail),
        Failure::TestTimeout { detail, .. } => ("timeout", ExitCode::Timeout, detail),
        Failure::Io(detail) => ("startup-error", ExitCode::StartupFailed, detail),
        Failure::Cancelled(detail) => ("cancelled", ExitCode::Cancelled, detail),
    }
}

/// A report with no counts.
pub fn failure_report(target: Target, outcome: &'static str, detail: String) -> (r: TargetReport)
    ensures
        r@ == (ReportModel { target, counts: None, outcome: outcome@, detail: Some(detail@) }),
{
    TargetReport { target, counts: None, outcome, detail: Some(detail) }
}

/// The report row and exit status of a boot that ended with `outcome`.
pub open spec fn boot_outcome(target: Target, outcome: Result<Counts, FailureModel>) -> (ReportModel, ExitCode) {
    match outcome {
        Ok(c) => if c.passed == 0 && c.failed == 0 && c.skipped == 0 {
            (
                ReportModel { target, counts: Some(c), outcome: "invalid"@, detail: Some("the filter matched no applicable tests"@) },
                ExitCode::InvalidSetup,
            )
        } else if c.passed == 0 && c.failed == 0 {
            (
                ReportModel { target, counts: Some(c), outcome: "unsupported"@, detail: Some("every selected test was skipped"@) },
                ExitCode::Capability,
            )
        } else if c.failed == 0 {
            (ReportModel { target, counts: Some(c), outcome: "passed"@, detail: None }, ExitCode::Success)
        } else {
            (ReportModel { target, counts: Some(c), outcome: "failed"@, detail: None }, ExitCode::TestsFailed)
        },
        Err(f) => if f.kind == FailureKind::TestTimeout {
            (ReportModel { target, counts: Some(f.counts), outcome: "timeout"@, detail: Some(f.detail) }, ExitCode::Timeout)
        } else {
            let (outcome, code, detail) = classification(f);
            (ReportModel { target, counts: None, outcome, detail: Some(detail) }, code)
        },
    }
}

/// The exit status that the outcome in a report row stands for.
pub open spec fn outcome_status(outcome: Seq<char>) -> ExitCode {
    if outcome == "passed"@ {
        ExitCode::Success
    } else if outcome == "failed"@ {
        ExitCode::TestsFailed
    } else if outcome == "build-error"@ {
        ExitCode::BuildFailed
    } else if outcome == "startup-error"@ {
        ExitCode::StartupFailed
    } else if outcome == "malformed"@ || outcome == "harness-error"@ {
        ExitCode::Malformed
    } else if outcome == "timeout"@ {
        ExitCode::Timeout
    } else if outcome == "unsupported"@ {
        ExitCode::Capability
    } else if outcome == "cancelled"@ {
        ExitCode::Cancelled
    } else {
        ExitCode::InvalidSetup
    }
}

/// The exit status of a boot always agrees with the outcome its report row
/// shows: a boot passes exactly when its row says `passed`.
pub proof fn lemma_status_agrees_with_row(target: Target, outcome: Result<Counts, FailureModel>)
    ensures
        boot_outcome(target, outcome).1 == outcome_status(boot_outcome(target, outcome).0.outcome),
{
    reveal_strlit("passed");
    reveal_strlit("failed");
    reveal_strlit("build-error");
    reveal_strlit("startup-error");
    reveal_strlit("malformed");
    reveal_strlit("harness-error");
    reveal_strlit("timeout");
    reveal_strlit("unsupported");
    reveal_strlit("cancelled");
    reveal_strlit("invalid");
    // The outcomes differ in their first character.
    assert("passed"@[0] == 'p' && "failed"@[0] == 'f' && "build-error"@[0] == 'b' && "startup-error"@[0] == 's');
    assert("malformed"@[0] == 'm' && "harness-error"@[0] == 'h' && "timeout"@[0] == 't');
    assert("unsupported"@[0] == 'u' && "cancelled"@[0] == 'c' && "invalid"@[0] == 'i');
}

/// How a complete boot is judged by its counts: any failed test makes it
/// `failed` with status `TestsFailed`; otherwise any passed test makes it
/// `passed`; a boot whose every test was skipped is `unsupported`; and a boot
/// that ran no test at all is `invalid`.
pub proof fn lemma_complete_boot_judged_by_counts(target: Target, c: Counts)
    ensures
        c.failed > 0 ==> boot_outcome(target, Ok(c)) == (
            ReportModel { target, counts: Some(c), outcome: "failed"@, detail: None },
            ExitCode::TestsFailed,
        ),
        c.failed == 0 && c.passed > 0 ==> boot_outcome(target, Ok(c)) == (
            ReportModel { target, counts: Some(c), outcome: "passed"@, detail: None },
            ExitCode::Success,
        ),
        c.passed == 0 && c.failed == 0 && c.skipped > 0 ==> boot_outcome(target, Ok(c)).0.outcome == "unsupported"@
            && boot_outcome(target, Ok(c)).1 == ExitCode::Capability,
        c.passed == 0 && c.failed == 0 && c.skipped == 0 ==> boot_outcome(target, Ok(c)).0.outcome == "invalid"@
            && boot_outcome(target, Ok(c)).1 == ExitCode::InvalidSetup,
        (boot_outcome(target, Ok(c)).1 == ExitCode::Success) == (c.failed == 0 && c.passed > 0),
{
}

/// The report row and exit status of a boot of `target` that ended with `outcome`:
/// a complete run passes unless a test failed, is unsupported when every test
/// was skipped and invalid when no test ran; a failed run is classified by its kind.
pub fn boot_report(target: Target, outcome: Result<Counts, Failure>) -> (r: (TargetReport, ExitCode))
    ensures
        (r.0@, r.1) == boot_outcome(
            target,
            match outcome {
                Ok(c) => Ok(c),
                Err(f) => Err(f@),
            },
        ),
{
    match outcome {
        Ok(counts) => if counts.passed == 0 && counts.failed == 0 && counts.skipped == 0 {
            (
                TargetReport {
                    target,
                    counts: Some(counts),
                    outcome: "invalid",
                    detail: Some(String::from_str("the filter matched no applicable tests")),
                },
                ExitCode::InvalidSetup,
            )
        } else if counts.passed == 0 && counts.failed == 0 {
            (
                TargetReport {
                    target,
                    counts: Some(counts),
                    outcome: "unsupported",
                    detail: Some(String::from_str("every selected test was skipped")),
                },
                ExitCode::Capability,
            )
        } else if counts.failed == 0 {
            (TargetReport { target, counts: Some(counts), outcome: "passed", detail: None }, ExitCode::Success)
        } else {
            (TargetReport { target, counts: Some(counts), outcome: "failed", detail: None }, ExitCode::TestsFailed)
        },
        Err(Failure::TestTimeout { detail, counts }) => (
            TargetReport { target, counts: Some(counts), outcome: "timeout", detail: Some(detail) },
            ExitCode::Timeout,
        ),
        Err(error) => {
            let (outcome, code, detail) = classify_failure(error);
            (failure_report(target, outcome, detail), code)
        },
    }
}

/// A cancellation ends a run with status 130: whatever the state of the
/// supervised boot, a cancellation request stops it, its report row says
/// `cancelled`, and no other status of the run can outweigh it.
pub proof fn lemma_cancellation_exits_130(s: SupervisorModel, now: u64, t: Target)
    ensures
        check_step(s, now, true).2 matches ControlModel::Stop(f) && {
            let (row, status) = boot_outcome(t, Err(f));
            &&& row.outcome == "cancelled"@
            &&& status == ExitCode::Cancelled
            &&& process_code(status) == 130
            &&& forall|c: ExitCode| worse_of(c, status) == ExitCode::Cancelled
        },
{
}

/// The report and status of a target whose boots could not be planned: the
/// planning error, or an empty plan when the filter matched no registry case.
pub fn unplanned_report(target: Target, error: Option<String>) -> (r: (TargetReport, ExitCode))
    ensures
        r.1 == ExitCode::InvalidSetup,
        r.0@ == (ReportModel {
            target,
            counts: None,
            outcome: "invalid"@,
            detail: Some(match error {
                Some(e) => e@,
                None => "the filter matched no registered adapter case"@,
            }),
        }),
{
    let detail = match error {
        Some(e) => e,
        None => String::from_str("the filter matched no registered adapter case"),
    };
    (failure_report(target, "invalid", detail), ExitCode::InvalidSetup)
}

/// Whether the remaining boots of a target still run after a boot ended with
/// `code`: firmware is built once per target, so a build failure ends the target.
pub fn continues_after(code: ExitCode) -> (r: bool)
    ensures
        r == (code != ExitCode::BuildFailed),
{
    code != ExitCode::BuildFailed
}

/// Whether the artifacts of a boot that ended with `code` are removed: those
/// of a successful boot are, unless `keep` was asked for; failed and incomplete
/// boots are always retained.
pub fn discards_artifacts(code: ExitCode, keep: bool) -> (r: bool)
    ensures
        r == (code == ExitCode::Success && !keep),
{
    code == ExitCode::Success && !keep
}

/// The status of a run whose boots ended with `codes`: the worst of them, or
/// success when there were none.
pub open spec fn run_status_of(codes: Seq<ExitCode>) -> ExitCode
    decreases codes.len(),
{
    if codes.len() == 0 {
        ExitCode::Success
    } else {
        worse_of(run_status_of(codes.drop_last()), codes.last())
    }
}

/// The status of a run is at least as bad as each of its boots, and is one of
/// them (or success when there were none).
pub proof fn lemma_run_status_is_worst(codes: Seq<ExitCode>)
    ensures
        forall|i: int| 0 <= i < codes.len() ==> severity(run_status_of(codes)) >= severity(#[trigger] codes[i]),
        run_status_of(codes) == ExitCode::Success || exists|i: int| 0 <= i < codes.len() && codes[i] == run_status_of(codes),
    decreases codes.len(),
{
    if codes.len() > 0 {
        let init = codes.drop_last();
        lemma_run_status_is_worst(init);
        lemma_worse_is_maximum(run_status_of(init), codes.last(), ExitCode::Success);
        assert forall|i: int| 0 <= i < codes.len() implies severity(run_status_of(codes)) >= severity(#[trigger] codes[i]) by {
            if i < init.len() {
                assert(codes[i] == init[i]);
            }
        }
        if run_status_of(codes) != ExitCode::Success {
            if run_status_of(codes) == codes.last() {
                assert(codes[codes.len() - 1] == run_status_of(codes));
            } else {
                let k = choose|k: int| 0 <= k < init.len() && init[k] == run_status_of(init);
                assert(codes[k] == init[k]);
            }
        }
    }
}

/// The status of a run whose boots ended with `codes`, in the order they ran.
pub fn run_status(codes: &[ExitCode]) -> (r: ExitCode)
    ensures
        r == run_status_of(codes@),
{
    let mut status = ExitCode::Success;
    let mut i: usize = 0;
    while i < codes.len()
        invariant
            i <= codes@.len(),
            status == run_status_of(codes@.take(i as int)),
        decreases codes@.len() - i,
    {
        assert(codes@.take(i + 1).drop_last() =~= codes@.take(i as int));
        status = status.worse(codes[i]);
        i = i + 1;
    }
    assert(codes@.take(i as int) =~= codes@);
    status
}

/// The boot of a target to run next, given how many boots its plan holds and
/// how the boots run so far ended: the next one, unless the plan is done or a
/// boot failed to build, after which nothing more of the target runs.
pub fn next_boot(planned: usize, finished: &[ExitCode]) -> (r: Option<usize>)
    ensures
        r == (if finished@.len() < planned && forall|i: int| 0 <= i < finished@.len() ==> #[trigger] finished@[i]
            != ExitCode::BuildFailed {
            Some(finished@.len() as usize)
        } else {
            None::<usize>
        }),
{
    let mut i: usize = 0;
    while i < finished.len()
        invariant
            i <= finished@.len(),
            forall|j: int| 0 <= j < i ==> #[trigger] finished@[j] != ExitCode::BuildFailed,
        decreases finished@.len() - i,
    {
        if !continues_after(finished[i]) {
            return None;
        }
        i = i + 1;
    }
    if finished.len() < planned { Some(finished.len()) } else { None }
}

/// What the provenance manifest of a run records of its sources and host.
pub struct Provenance {
    pub test_revision: String,
    pub test_dirty: String,
    pub test_fingerprint: String,
    pub vmsa_revision: String,
    pub vmsa_dirty: String,
    pub vmsa_fingerprint: String,
    pub container_image: String,
    pub tf_a_revision: String,
    pub tf_a_tests_revision: String,
    pub hafnium_revision: String,
    pub tf_rmm_revision: String,
    pub fvp_version: String,
    pub host_os: String,
    pub host_arch: String,
}

/// The provenance manifest of a run of `target` with `filter`: one
/// `key=value` line per fact, `<none>` standing for no filter.
pub open spec fn provenance_text(p: Provenance, target: Target, filter: Option<Seq<char>>) -> Seq<char> {
    "test_repository_revision="@ + p.test_revision@ + "\n"@
        + "test_repository_dirty="@ + p.test_dirty@ + "\n"@
        + "test_repository_content_fingerprint=fnv1a64:"@ + p.test_fingerprint@ + "\n"@
        + "vmsa_revision="@ + p.vmsa_revision@ + "\n"@
        + "vmsa_dirty="@ + p.vmsa_dirty@ + "\n"@
        + "vmsa_content_fingerprint=fnv1a64:"@ + p.vmsa_fingerprint@ + "\n"@
        + "container_image="@ + p.container_image@ + "\n"@
        + "tf_a_revision="@ + p.tf_a_revision@ + "\n"@
        + "tf_a_tests_revision="@ + p.tf_a_tests_revision@ + "\n"@
        + "hafnium_revision="@ + p.hafnium_revision@ + "\n"@
        + "tf_rmm_revision="@ + p.tf_rmm_revision@ + "\n"@
        + "fvp_version="@ + p.fvp_version@ + "\n"@
        + "host_os="@ + p.host_os@ + "\n"@
        + "host_arch="@ + p.host_arch@ + "\n"@
        + "boot_profile="@ + target_name(target) + "\n"@
        + "filter="@ + (match filter {
            Some(f) => f,
            None => "<none>"@,
        }) + "\n"@
        + "target_triple=aarch64-unknown-none-softfloat\n"@
}

fn push_line(out: &mut String, key: &str, value: &str)
    ensures
        final(out)@ == old(out)@ + key@ + value@ + "\n"@,
{
    out.append(key);
    out.append(value);
    out.append("\n");
}

/// The provenance manifest of a run; see [`provenance_text`].
pub fn provenance_manifest(p: &Provenance, target: Target, filter: Option<&str>) -> (r: String)
    ensures
        r@ == provenance_text(
            *p,
            target,
            match filter {
                Some(f) => Some(f@),
                None => None,
            },
        ),
{
    let mut out = String::new();
    push_line(&mut out, "test_repository_revision=", p.test_revision.as_str());
    push_line(&mut out, "test_repository_dirty=", p.test_dirty.as_str());
    push_line(&mut out, "test_repository_content_fingerprint=fnv1a64:", p.test_fingerprint.as_str());
    push_line(&mut out, "vmsa_revision=", p.vmsa_revision.as_str());
    push_line(&mut out, "vmsa_dirty=", p.vmsa_dirty.as_str());
    push_line(&mut out, "vmsa_content_fingerprint=fnv1a64:", p.vmsa_fingerprint.as_str());
    push_line(&mut out, "container_image=", p.container_image.as_str());
    push_line(&mut out, "tf_a_revision=", p.tf_a_revision.as_str());
    push_line(&mut out, "tf_a_tests_revision=", p.tf_a_tests_revision.as_str());
    push_line(&mut out, "hafnium_revision=", p.hafnium_revision.as_str());
    push_line(&mut out, "tf_rmm_revision=", p.tf_rmm_revision.as_str());
    push_line(&mut out, "fvp_version=", p.fvp_version.as_str());
    push_line(&mut out, "host_os=", p.host_os.as_str());
    push_line(&mut out, "host_arch=", p.host_arch.as_str());
    push_line(&mut out, "boot_profile=", target.as_str());
    let shown = match filter {
        Some(f) => f,
        None => "<none>",
    };
    push_line(&mut out, "filter=", shown);
    out.append("target_triple=aarch64-unknown-none-softfloat\n");
    out
}

/// The FNV-1a 64-bit offset basis.
pub const FNV_OFFSET_BASIS: u64 = 0xcbf2_9ce4_8422_2325;
/// The FNV-1a 64-bit prime.
pub const FNV_PRIME: u64 = 0x0000_0100_0000_01b3;

/// FNV-1a of `bytes` continued from `hash`.
pub open spec fn fnv1a(hash: u64, bytes: Seq<u8>) -> u64
    decreases bytes.len(),
{
    if bytes.len() == 0 {
        hash
    } else {
        let h = fnv1a(hash, bytes.drop_last());
        (((h ^ (bytes.last() as u64)) as nat * FNV_PRIME as nat) % 0x1_0000_0000_0000_0000) as u64
    }
}

/// Hashing in pieces gives the hash of the whole: FNV-1a over `a` followed by
/// `b` continues from the hash of `a`.
pub proof fn lemma_fnv1a_chunks(hash: u64, a: Seq<u8>, b: Seq<u8>)
    ensures
        fnv1a(hash, a + b) == fnv1a(fnv1a(hash, a), b),
    decreases b.len(),
{
    if b.len() == 0 {
        assert(a + b =~= a);
    } else {
        lemma_fnv1a_chunks(hash, a, b.drop_last());
        assert((a + b).drop_last() =~= a + b.drop_last());
        assert((a + b).last() == b.last());
    }
}

/// Continues the FNV-1a hash `hash` over `bytes`.
pub fn update_fnv1a(hash: &mut u64, bytes: &[u8])
    ensures
        *final(hash) == fnv1a(*old(hash), bytes@),
{
    let mut i: usize = 0;
    while i < bytes.len()
        invariant
            i <= bytes@.len(),
            *hash == fnv1a(*old(hash), bytes@.take(i as int)),
        decreases bytes@.len() - i,
    {
        assert(bytes@.take(i + 1).drop_last() =~= bytes@.take(i as int));
        assert(bytes@.take(i + 1).last() == bytes@[i as int]);
        *hash = *hash ^ (bytes[i] as u64);
        *hash = hash.wrapping_mul(FNV_PRIME);
        i = i + 1;
    }
    assert(bytes@.take(i as int) =~= bytes@);
}

pub open spec fn hex_digit(d: nat) -> char {
    if d < 10 { digit_char(d) }
    else if d == 10 { 'a' }
    else if d == 11 { 'b' }
    else if d == 12 { 'c' }
    else if d == 13 { 'd' }
    else if d == 14 { 'e' }
    else { 'f' }
}

/// The last `n` hexadecimal digits of `v`, most significant first.
pub open spec fn hex_digits(v: nat, n: nat) -> Seq<char>
    decreases n,
{
    if n == 0 { seq![] } else { hex_digits(v / 16, (n - 1) as nat).push(hex_digit(v % 16)) }
}

fn hex_char(d: u64) -> (r: char)
    requires
        d < 16,
    ensures
        r == hex_digit(d as nat),
{
    if d < 10 { crate::text::digit(d) }
    else if d == 10 { 'a' }
    else if d == 11 { 'b' }
    else if d == 12 { 'c' }
    else if d == 13 { 'd' }
    else if d == 14 { 'e' }
    else { 'f' }
}

/// `hash` as sixteen lower-case hexadecimal digits, as `{:016x}` writes it.
pub fn hex16(hash: u64) -> (r: String)
    ensures
        r@ == hex_digits(hash as nat, 16),
{
    let mut digits: Vec<char> = Vec::new();
    let mut v = hash;
    let mut k: usize = 0;
    while k < 16
        invariant
            k <= 16,
            digits@.len() == k,
            hex_digits(hash as nat, 16) == hex_digits(v as nat, (16 - k) as nat) + digits@.reverse(),
        decreases 16 - k,
    {
        let ghost before = digits@;
        digits.push(hex_char(v % 16));
        assert(hex_digits(v as nat, (16 - k) as nat) == hex_digits((v / 16) as nat, (16 - k - 1) as nat).push(
            hex_digit((v % 16) as nat),
        ));
        assert(digits@.reverse() =~= seq![hex_digit((v % 16) as nat)] + before.reverse());
        v = v / 16;
        k = k + 1;
    }
    assert(hex_digits(v as nat, 0) =~= Seq::<char>::empty());
    let mut r = String::new();
    let mut j: usize = 16;
    while j > 0
        invariant
            j <= 16,
            digits@.len() == 16,
            r@ == digits@.reverse().take((16 - j) as int),
        decreases j,
    {
        j = j - 1;
        push_char(&mut r, digits[j]);
        assert(digits@.reverse().take((16 - j) as int) =~= digits@.reverse().take((16 - j - 1) as int).push(digits@[j as int]));
    }
    assert(digits@.reverse().take(16) =~= digits@.reverse());
    assert(hex_digits(hash as nat, 16) =~= digits@.reverse());
    r
}

/// `path` with every backslash written as a slash.
pub open spec fn slashed(path: Seq<char>) -> Seq<char> {
    Seq::new(path.len(), |i: int| if path[i] == '\\' { '/' } else { path[i] })
}

/// `path` is `dir` or lies below it.
pub open spec fn within(path: Seq<char>, dir: Seq<char>) -> bool {
    path == dir || (dir + "/"@).is_prefix_of(path)
}

/// The paths that a repository fingerprint leaves out: version control data,
/// generated output and build state, and for another crate than this runner's
/// repository its whole `target` directory.
pub open spec fn excluded_spec(relative: Seq<char>, is_test_repository: bool) -> bool {
    let p = slashed(relative);
    within(p, ".git"@) || within(p, ".upstream-inspect"@) || within(p, "output"@) || within(p, "host/target"@)
        || within(p, "target/target"@) || within(p, "target/external"@) || within(p, "container/__pycache__"@)
        || (!is_test_repository && within(p, "target"@))
}

fn is_within(p: &Vec<char>, dir: &str) -> (r: bool)
    ensures
        r == within(p@, dir@),
{
    let d = chars_of(dir);
    if same_chars(p.as_slice(), d.as_slice()) {
        return true;
    }
    let mut with_slash = d;
    with_slash.push('/');
    proof { reveal_strlit("/"); }
    assert(with_slash@ =~= dir@ + "/"@);
    starts_with(p.as_slice(), with_slash.as_slice())
}

/// Whether a file at `relative` (below the repository root) is left out of the fingerprint.
pub fn fingerprint_path_excluded(relative: &str, is_test_repository: bool) -> (r: bool)
    ensures
        r == excluded_spec(relative@, is_test_repository),
{
    let raw = chars_of(relative);
    let mut p: Vec<char> = Vec::new();
    let mut i: usize = 0;
    while i < raw.len()
        invariant
            i <= raw@.len(),
            raw@ == relative@,
            p@ == slashed(raw@).take(i as int),
        decreases raw@.len() - i,
    {
        let c = raw[i];
        p.push(if c == '\\' { '/' } else { c });
        assert(p@ =~= slashed(raw@).take(i + 1));
        i = i + 1;
    }
    assert(p@ =~= slashed(relative@));
    is_within(&p, ".git") || is_within(&p, ".upstream-inspect") || is_within(&p, "output") || is_within(
        &p,
        "host/target",
    ) || is_within(&p, "target/target") || is_within(&p, "target/external") || is_within(&p, "container/__pycache__")
        || (!is_test_repository && is_within(&p, "target"))
}

/// The provenance lines of the capabilities that the guest reported in the first `n` result lines.
pub open spec fn capability_lines(lines: Seq<Seq<char>>, n: nat) -> Seq<char>
    decreases n,
{
    if n == 0 {
        seq![]
    } else {
        let earlier = capability_lines(lines, (n - 1) as nat);
        let line = lines[n - 1];
        if "@@VMSA CAP "@.is_prefix_of(line) {
            earlier + "architecture_capability="@ + line.skip("@@VMSA CAP "@.len() as int) + "\n"@
        } else {
            earlier
        }
    }
}

/// One `architecture_capability=NAME=VALUE` line per capability record in the results log.
pub fn reported_capabilities(results: &str) -> (r: String)
    ensures
        r@ == capability_lines(text_lines(results@), text_lines(results@).len()),
{
    let lines = split_lines(chars_of(results).as_slice());
    let ghost ls = views(lines@);
    let prefix = chars_of("@@VMSA CAP ");
    let mut out = String::new();
    let mut n: usize = 0;
    while n < lines.len()
        invariant
            n <= lines@.len(),
            ls == views(lines@),
            ls == text_lines(results@),
            prefix@ == "@@VMSA CAP "@,
            out@ == capability_lines(ls, n as nat),
        decreases lines@.len() - n,
    {
        let line = &lines[n];
        assert(ls[n as int] == line@);
        if starts_with(line.as_slice(), prefix.as_slice()) {
            let rest = sub_chars(line.as_slice(), prefix.len(), line.len());
            out.append("architecture_capability=");
            push_chars(&mut out, rest.as_slice());
            out.append("\n");
        }
        n = n + 1;
    }
    out
}

} // verus!
