//! The decisions of a supervised container run.
//!
//! The runner reads the container's output lines, watches the clock and waits
//! for the process; a [`Supervisor`] decides, for each of those events, what
//! the runner does next. Times are nanoseconds since supervision began.
use vstd::prelude::*;
use vstd::string::StringExecFns;
use crate::process::{Failure, FailureKind, FailureModel, Stream, failure};
use crate::protocol::{
    consistent, failure_line, lemma_failure_with_fields_accepted, lemma_parse_step_consistent, Counts, Event, EventModel, Parser, ParserModel, finish_spec, parse_step,
    initial_model,
};
use crate::text::{
    chars_of, push_decimal, push_seconds, push_seconds_millis, push_seconds_tenths,
    same_chars, seconds_millis_text, seconds_tenths_text, seconds_text, starts_with, decimal, is_word, pow10,
};

verus! {

/// How long each phase of a run may take, in milliseconds.
#[derive(Clone, Copy, Debug, PartialEq, Eq, Structural)]
pub struct SupervisorLimits {
    pub initial: u64,
    pub build: u64,
    pub startup: u64,
    pub suite: u64,
    pub test: u64,
    pub shutdown: u64,
}

/// The longest firmware preparation or build, in milliseconds.
pub const BUILD_TIMEOUT_MS: u64 = 300_000;
/// The longest FVP startup, in milliseconds.
pub const STARTUP_TIMEOUT_MS: u64 = 30_000;
/// The longest FVP startup for the realm stage 2 target, in milliseconds.
pub const REALM_STAGE2_STARTUP_TIMEOUT_MS: u64 = 60_000;
/// The longest wait between two test records, in milliseconds.
pub const SUITE_TIMEOUT_MS: u64 = 300_000;
/// The longest single test, in milliseconds.
pub const TEST_TIMEOUT_MS: u64 = 15_000;
/// The longest shutdown after `END`, in milliseconds.
pub const SHUTDOWN_TIMEOUT_MS: u64 = 5_000;
/// How often a running build reports that it still runs, in nanoseconds.
pub const BUILD_PROGRESS_INTERVAL_NS: u64 = 10_000_000_000;
/// The longest single wait for output, in nanoseconds.
pub const POLL_INTERVAL_NS: u64 = 250_000_000;

pub open spec fn production_limits(expected_target: Seq<char>) -> SupervisorLimits {
    SupervisorLimits {
        initial: BUILD_TIMEOUT_MS,
        build: BUILD_TIMEOUT_MS,
        startup: if expected_target == "realm-stage2"@ { REALM_STAGE2_STARTUP_TIMEOUT_MS } else { STARTUP_TIMEOUT_MS },
        suite: SUITE_TIMEOUT_MS,
        test: TEST_TIMEOUT_MS,
        shutdown: SHUTDOWN_TIMEOUT_MS,
    }
}

impl SupervisorLimits {
    /// The limits of a real test run.
    pub fn production(expected_target: &str) -> (r: Self)
        ensures
            r == production_limits(expected_target@),
    {
        let startup = if same_chars(chars_of(expected_target).as_slice(), chars_of("realm-stage2").as_slice()) {
            REALM_STAGE2_STARTUP_TIMEOUT_MS
        } else {
            STARTUP_TIMEOUT_MS
        };
        SupervisorLimits {
            initial: BUILD_TIMEOUT_MS,
            build: BUILD_TIMEOUT_MS,
            startup,
            suite: SUITE_TIMEOUT_MS,
            test: TEST_TIMEOUT_MS,
            shutdown: SHUTDOWN_TIMEOUT_MS,
        }
    }

    /// The short limits of the doctor's supervisor self-check.
    pub fn doctor() -> (r: Self)
        ensures
            r == (SupervisorLimits { initial: 5_000, build: 300, startup: 300, suite: 300, test: 300, shutdown: 300 }),
    {
        SupervisorLimits { initial: 5_000, build: 300, startup: 300, suite: 300, test: 300, shutdown: 300 }
    }
}

/// The phases of a run.
#[derive(Clone, Copy, Debug, PartialEq, Eq, Structural)]
pub enum Phase {
    PreparationOrBuild,
    Preparation,
    Build,
    Packaging,
    Startup,
    Suite,
    Test,
    Shutdown,
}

pub open spec fn phase_name(p: Phase) -> Seq<char> {
    match p {
        Phase::PreparationOrBuild => "preparation/build"@,
        Phase::Preparation => "preparation"@,
        Phase::Build => "build"@,
        Phase::Packaging => "packaging"@,
        Phase::Startup => "startup"@,
        Phase::Suite => "suite"@,
        Phase::Test => "test"@,
        Phase::Shutdown => "shutdown"@,
    }
}

fn phase_text(p: Phase) -> (r: &'static str)
    ensures
        r@ == phase_name(p),
{
    match p {
        Phase::PreparationOrBuild => "preparation/build",
        Phase::Preparation => "preparation",
        Phase::Build => "build",
        Phase::Packaging => "packaging",
        Phase::Startup => "startup",
        Phase::Suite => "suite",
        Phase::Test => "test",
        Phase::Shutdown => "shutdown",
    }
}

/// Something the runner does for the supervisor, in the order given.
#[derive(Debug)]
pub enum Effect {
    /// Lets other runs start their container handshake.
    ReleaseLaunchPermit,
    /// Shows a line of container output on the terminal.
    Echo { stream: Stream, text: String },
    /// Prints a note on standard error.
    Note(String),
    /// Appends a line to the run's results log; if that fails the run stops with an I/O failure.
    Record(String),
    /// Hands an accepted record, with the current line, to the run's observer.
    Observe(Event),
}

pub enum EffectModel {
    ReleaseLaunchPermit,
    Echo { stream: Stream, text: Seq<char> },
    Note(Seq<char>),
    Record(Seq<char>),
    Observe(EventModel),
}

impl View for Effect {
    type V = EffectModel;

    open spec fn view(&self) -> EffectModel {
        match self {
            Effect::ReleaseLaunchPermit => EffectModel::ReleaseLaunchPermit,
            Effect::Echo { stream, text } => EffectModel::Echo { stream: *stream, text: text@ },
            Effect::Note(t) => EffectModel::Note(t@),
            Effect::Record(t) => EffectModel::Record(t@),
            Effect::Observe(e) => EffectModel::Observe(e@),
        }
    }
}

/// How the run goes on after the effects.
#[derive(Debug)]
pub enum Control {
    /// Keep supervising.
    Continue,
    /// Terminate the container and fail the run.
    Stop(Failure),
    /// Terminate the container; the run completed with these counts.
    Complete(Counts),
}

pub enum ControlModel {
    Continue,
    Stop(FailureModel),
    Complete(Counts),
}

impl View for Control {
    type V = ControlModel;

    open spec fn view(&self) -> ControlModel {
        match self {
            Control::Continue => ControlModel::Continue,
            Control::Stop(f) => ControlModel::Stop(f@),
            Control::Complete(c) => ControlModel::Complete(*c),
        }
    }
}

/// The effects and the control of one supervision step.
#[derive(Debug)]
pub struct Step {
    pub effects: Vec<Effect>,
    pub control: Control,
}

pub open spec fn effect_views(es: Seq<Effect>) -> Seq<EffectModel> {
    es.map_values(|e: Effect| e@)
}

/// The state of a supervised run.
pub struct SupervisorModel {
    pub limits: SupervisorLimits,
    pub expected_target: Seq<char>,
    pub termination: Option<Seq<char>>,
    pub stream_live: bool,
    pub phase: Phase,
    pub phase_started_at: u64,
    pub deadline: u64,
    pub next_build_progress: u64,
    /// The running test and when it started.
    pub active: Option<(Seq<char>, u64)>,
    pub parser: ParserModel,
    pub permit_held: bool,
}

/// The decision state of one supervised run.
pub struct Supervisor {
    limits: SupervisorLimits,
    expected_target: String,
    termination: Option<String>,
    stream_live: bool,
    phase: Phase,
    phase_started_at: u64,
    deadline: u64,
    next_build_progress: u64,
    active_name: Option<String>,
    active_started: u64,
    parser: Parser,
    permit_held: bool,
}

impl View for Supervisor {
    type V = SupervisorModel;

    closed spec fn view(&self) -> SupervisorModel {
        SupervisorModel {
            limits: self.limits,
            expected_target: self.expected_target@,
            termination: match self.termination {
                Some(t) => Some(t@),
                None => None,
            },
            stream_live: self.stream_live,
            phase: self.phase,
            phase_started_at: self.phase_started_at,
            deadline: self.deadline,
            next_build_progress: self.next_build_progress,
            active: match self.active_name {
                Some(n) => Some((n@, self.active_started)),
                None => None,
            },
            parser: self.parser@,
            permit_held: self.permit_held,
        }
    }
}

/// `ms` milliseconds after `now`, at most the largest time.
pub open spec fn after(now: u64, ms: u64) -> u64 {
    if now + ms * 1_000_000 > u64::MAX { u64::MAX } else { (now + ms * 1_000_000) as u64 }
}

/// The time from `since` to `now`, or none when `now` is earlier.
pub open spec fn elapsed(now: u64, since: u64) -> u64 {
    if now >= since { (now - since) as u64 } else { 0 }
}

pub open spec fn with_phase(s: SupervisorModel, phase: Phase, started: u64, deadline: u64) -> SupervisorModel {
    SupervisorModel { phase, phase_started_at: started, deadline, ..s }
}

/// The supervisor at the start of a run.
pub open spec fn start_model(
    limits: SupervisorLimits,
    expected_target: Seq<char>,
    termination: Option<Seq<char>>,
    stream_live: bool,
) -> SupervisorModel {
    SupervisorModel {
        limits,
        expected_target,
        termination,
        stream_live,
        phase: Phase::PreparationOrBuild,
        phase_started_at: 0,
        deadline: after(0, limits.initial),
        next_build_progress: BUILD_PROGRESS_INTERVAL_NS,
        active: None,
        parser: initial_model(),
        permit_held: true,
    }
}

/// The protocol completion that the host writes for a test whose watchdog expired.
pub open spec fn watchdog_completion(name: Seq<char>, limit_ms: u64, elapsed_ns: u64) -> Seq<char> {
    "@@VMSA FAIL "@ + name + " reason=test-watchdog-timeout expected="@ + decimal(limit_ms as nat) + " actual="@
        + decimal((elapsed_ns / 1_000_000) as nat)
}

/// What the supervisor does when a deadline has passed: it fails the run, and a
/// running test is failed by a watchdog completion first.
pub open spec fn expired_step(s: SupervisorModel, now: u64) -> (SupervisorModel, Seq<EffectModel>, ControlModel) {
    match s.active {
        Some((name, started)) => {
            let spent = elapsed(now, started);
            let detail = "test "@ + name + " watchdog expired after "@ + seconds_millis_text(spent as nat) + "s (limit "@
                + seconds_text(s.limits.test as nat) + "s)"@;
            let completion = watchdog_completion(name, s.limits.test, spent);
            let (p, res) = parse_step(s.parser, completion);
            let s1 = SupervisorModel { parser: p, ..s };
            match res {
                Err(e) => (s1, seq![], ControlModel::Stop(failure(FailureKind::Malformed, "host watchdog completion was rejected: "@ + e))),
                Ok(_) => (
                    s1,
                    seq![EffectModel::Record(completion)] + if s.stream_live {
                        seq![EffectModel::Echo { stream: Stream::Stdout, text: completion }]
                    } else {
                        seq![]
                    },
                    ControlModel::Stop(FailureModel { kind: FailureKind::TestTimeout, detail, counts: p.counts }),
                ),
            }
        },
        None => {
            let detail = if s.phase == Phase::Startup {
                "startup deadline expired after "@ + seconds_millis_text(elapsed(now, s.phase_started_at) as nat) + "s (limit "@
                    + seconds_text(s.limits.startup as nat) + "s)"@
            } else {
                phase_name(s.phase) + " deadline expired"@
            };
            (s, seq![], ControlModel::Stop(failure(FailureKind::Timeout, detail)))
        },
    }
}

/// What the supervisor does at the top of each wait: stop on cancellation, then on
/// an expired deadline, else go on.
pub open spec fn check_step(s: SupervisorModel, now: u64, cancelled: bool) -> (SupervisorModel, Seq<EffectModel>, ControlModel) {
    if cancelled {
        (s, seq![], ControlModel::Stop(failure(
            FailureKind::Cancelled,
            "host cancellation requested during "@ + phase_name(s.phase) + " after "@ + seconds_millis_text(
                elapsed(now, s.phase_started_at) as nat,
            ) + "s"@,
        )))
    } else if now >= s.deadline {
        expired_step(s, now)
    } else {
        (s, seq![], ControlModel::Continue)
    }
}

/// The infrastructure phase markers: they start phases and reset deadlines, and
/// live runs note how long the finished phase took.
pub open spec fn marker_step(s: SupervisorModel, now: u64, text: Seq<char>) -> (SupervisorModel, Seq<EffectModel>) {
    let spent = seconds_millis_text(elapsed(now, s.phase_started_at) as nat);
    if text == "VMSA-INFRA PHASE prepare-start"@ {
        (with_phase(s, Phase::Preparation, now, after(now, s.limits.build)), seq![])
    } else if text == "VMSA-INFRA PHASE prepare-complete"@ && s.stream_live {
        (s, seq![EffectModel::Note("vmsa-test: preparation completed in "@ + spent + "s"@)])
    } else if text == "VMSA-INFRA PHASE build-start"@ {
        (
            SupervisorModel {
                next_build_progress: (if now + BUILD_PROGRESS_INTERVAL_NS > u64::MAX { u64::MAX } else { (now + BUILD_PROGRESS_INTERVAL_NS) as u64 }),
                ..with_phase(s, Phase::Build, now, after(now, s.limits.build))
            },
            seq![],
        )
    } else if text == "VMSA-INFRA PHASE build-complete"@ {
        (
            with_phase(s, Phase::Packaging, now, after(now, s.limits.build)),
            if s.stream_live {
                seq![EffectModel::Note("vmsa-test: firmware build completed in "@ + spent + "s"@)]
            } else {
                seq![]
            },
        )
    } else if text == "VMSA-INFRA PHASE package-complete"@ && s.stream_live {
        (s, seq![EffectModel::Note("vmsa-test: packaging completed in "@ + spent + "s"@)])
    } else {
        (s, seq![])
    }
}

pub open spec fn later(now: u64, ns: u64) -> u64 {
    if now + ns > u64::MAX { u64::MAX } else { (now + ns) as u64 }
}

/// What an accepted record does after it has been recorded.
pub open spec fn event_step(s: SupervisorModel, now: u64, ev: EventModel, effects: Seq<EffectModel>) -> (SupervisorModel, Seq<EffectModel>, ControlModel) {
    match ev {
        EventModel::Begin { target } => if target != s.expected_target {
            (s, effects, ControlModel::Stop(failure(
                FailureKind::Malformed,
                "BEGIN target "@ + target + " does not match requested "@ + s.expected_target,
            )))
        } else {
            (with_phase(s, Phase::Suite, s.phase_started_at, after(now, s.limits.suite)), effects.push(EffectModel::Observe(ev)), ControlModel::Continue)
        },
        EventModel::Run { name } => (
            SupervisorModel { active: Some((name, now)), ..with_phase(s, Phase::Test, s.phase_started_at, after(now, s.limits.test)) },
            effects.push(EffectModel::Observe(ev)),
            ControlModel::Continue,
        ),
        EventModel::Pass { name } => completion_step(s, now, name, effects.push(EffectModel::Observe(ev))),
        EventModel::Fail { name, reason } => completion_step(s, now, name, effects.push(EffectModel::Observe(ev))),
        EventModel::Skip { .. } => (
            with_phase(s, Phase::Suite, s.phase_started_at, after(now, s.limits.suite)),
            effects.push(EffectModel::Observe(ev)),
            ControlModel::Continue,
        ),
        EventModel::End(_) => (
            with_phase(s, Phase::Shutdown, s.phase_started_at, after(now, s.limits.shutdown)),
            effects.push(EffectModel::Observe(ev)),
            ControlModel::Continue,
        ),
        EventModel::Capability { .. } => (s, effects.push(EffectModel::Observe(ev)), ControlModel::Continue),
    }
}

/// A test completed: a live run notes how long it took; a destructive run ends
/// here when the expected test completed, and fails when another did.
pub open spec fn completion_step(s: SupervisorModel, now: u64, name: Seq<char>, effects: Seq<EffectModel>) -> (SupervisorModel, Seq<EffectModel>, ControlModel) {
    let note = match s.active {
        Some((active, started)) => if s.stream_live {
            seq![EffectModel::Note("vmsa-test: test "@ + active + " completed in "@ + seconds_millis_text(
                elapsed(now, started) as nat,
            ) + "s (watchdog limit "@ + seconds_text(s.limits.test as nat) + "s)"@)]
        } else {
            seq![]
        },
        None => seq![],
    };
    let s1 = SupervisorModel { active: None, ..s };
    match s.termination {
        Some(expected) => if expected != name {
            (s1, effects + note, ControlModel::Stop(failure(
                FailureKind::Malformed,
                "destructive completion for "@ + name + "; expected "@ + expected,
            )))
        } else {
            (s1, effects + note, ControlModel::Complete(s1.parser.counts))
        },
        None => (with_phase(s1, Phase::Suite, s.phase_started_at, after(now, s.limits.suite)), effects + note, ControlModel::Continue),
    }
}

/// The effects of a line before any record: the release of the launch permit
/// while it is held, the echo of a live run, and the note of a phase marker.
pub open spec fn early_effects(s: SupervisorModel, now: u64, stream: Stream, text: Seq<char>) -> Seq<EffectModel> {
    (if s.permit_held { seq![EffectModel::ReleaseLaunchPermit] } else { seq![] }) + (if s.stream_live {
        seq![EffectModel::Echo { stream, text }]
    } else {
        seq![]
    }) + marker_step(SupervisorModel { permit_held: false, ..s }, now, text).1
}

/// The state after a line's phase marker, and after `FVP_START` before `BEGIN`,
/// which starts the startup phase.
pub open spec fn marked_state(s: SupervisorModel, now: u64, text: Seq<char>) -> SupervisorModel {
    let s1 = marker_step(SupervisorModel { permit_held: false, ..s }, now, text).0;
    if text == "VMSA-INFRA FVP_START"@ && !s1.parser.began {
        SupervisorModel {
            next_build_progress: later(now, BUILD_PROGRESS_INTERVAL_NS),
            ..with_phase(s1, Phase::Startup, now, after(now, s1.limits.startup))
        }
    } else {
        s1
    }
}

/// What the supervisor does with a line of container output.
pub open spec fn line_step(s: SupervisorModel, now: u64, stream: Stream, text: Seq<char>) -> (SupervisorModel, Seq<EffectModel>, ControlModel) {
    let s2 = marked_state(s, now, text);
    let effects = early_effects(s, now, stream, text);
    if text == "VMSA-INFRA CAPABILITY"@ && !s2.parser.began {
        (s2, effects, ControlModel::Stop(failure(FailureKind::Capability, "target baseline capability is unavailable"@)))
    } else if "VMSA-INFRA HARNESS_FAILURE"@.is_prefix_of(text) {
        (s2, effects, ControlModel::Stop(failure(
            FailureKind::Harness,
            "guest reported an unrecoverable harness exception while "@ + match s2.parser.active {
                Some(a) => a,
                None => "no test"@,
            } + " was active: "@ + text,
        )))
    } else {
        let (p, res) = parse_step(s2.parser, text);
        let s3 = SupervisorModel { parser: p, ..s2 };
        match res {
            Err(m) => (s3, effects, ControlModel::Stop(failure(FailureKind::Malformed, m))),
            Ok(None) => (s3, effects, ControlModel::Continue),
            Ok(Some(ev)) => event_step(s3, now, ev, effects.push(EffectModel::Record(text))),
        }
    }
}

/// What the supervisor does when no line came within the wait: a live run notes
/// every ten seconds that a build, packaging or startup still runs.
pub open spec fn idle_step(s: SupervisorModel, now: u64) -> (SupervisorModel, Seq<EffectModel>, ControlModel) {
    let spent = seconds_tenths_text(elapsed(now, s.phase_started_at) as nat);
    let next = later(now, BUILD_PROGRESS_INTERVAL_NS);
    if s.stream_live && (s.phase == Phase::Build || s.phase == Phase::Packaging) && now >= s.next_build_progress {
        (
            SupervisorModel { next_build_progress: next, ..s },
            seq![EffectModel::Note("vmsa-test: "@ + phase_name(s.phase) + " still running ("@ + spent + "s elapsed, "@
                + seconds_text(s.limits.build as nat) + "s limit)"@)],
            ControlModel::Continue,
        )
    } else if s.stream_live && s.phase == Phase::Startup && now >= s.next_build_progress {
        (
            SupervisorModel { next_build_progress: next, ..s },
            seq![EffectModel::Note("vmsa-test: FVP startup still running ("@ + spent + "s elapsed, "@ + seconds_text(
                s.limits.startup as nat,
            ) + "s limit)"@)],
            ControlModel::Continue,
        )
    } else {
        (s, seq![], ControlModel::Continue)
    }
}

/// A cancellation request always stops the run, whatever its state, with no
/// effect and no change.
pub proof fn lemma_cancellation_stops(s: SupervisorModel, now: u64)
    ensures
        check_step(s, now, true).0 == s,
        check_step(s, now, true).1.len() == 0,
        check_step(s, now, true).2 matches ControlModel::Stop(f) && f.kind == FailureKind::Cancelled,
{
}

/// Before its deadline, a run that is not cancelled goes on unchanged.
pub proof fn lemma_check_before_deadline(s: SupervisorModel, now: u64)
    requires
        now < s.deadline,
    ensures
        check_step(s, now, false) == (s, Seq::<EffectModel>::empty(), ControlModel::Continue),
{
}

/// Once its deadline has passed, a run stops: with a timeout when no test is
/// running, and with a test timeout only when one is.
pub proof fn lemma_deadline_stops(s: SupervisorModel, now: u64)
    requires
        now >= s.deadline,
    ensures
        check_step(s, now, false).2 matches ControlModel::Stop(f) && {
            &&& s.active is None ==> f.kind == FailureKind::Timeout
            &&& f.kind == FailureKind::TestTimeout ==> s.active is Some
        },
{
}

/// Waiting without output never stops a run, and changes nothing but when the
/// next progress note is due.
pub proof fn lemma_idle_never_stops(s: SupervisorModel, now: u64)
    ensures
        idle_step(s, now).2 == ControlModel::Continue,
        idle_step(s, now).0 == (SupervisorModel { next_build_progress: idle_step(s, now).0.next_build_progress, ..s }),
{
}

/// The effects of a line are its early effects, followed, when the line is an
/// accepted record, by the record itself and what the record does.
proof fn lemma_line_effects(s: SupervisorModel, now: u64, stream: Stream, text: Seq<char>)
    ensures
        ({
            let es = line_step(s, now, stream, text).1;
            let pre = early_effects(s, now, stream, text);
            let s2 = marked_state(s, now, text);
            ||| es == pre
            ||| parse_step(s2.parser, text).1 matches Ok(Some(ev)) && es == event_step(
                SupervisorModel { parser: parse_step(s2.parser, text).0, ..s2 },
                now,
                ev,
                pre.push(EffectModel::Record(text)),
            ).1
        }),
{
}

/// The launch permit is given up with the first line of output: a line
/// releases it, as its first effect, exactly when it was still held, and no
/// line leaves it held.
pub proof fn lemma_permit_released_once(s: SupervisorModel, now: u64, stream: Stream, text: Seq<char>)
    ensures
        !line_step(s, now, stream, text).0.permit_held,
        s.permit_held ==> line_step(s, now, stream, text).1.len() > 0 && line_step(s, now, stream, text).1[0]
            == EffectModel::ReleaseLaunchPermit,
        !s.permit_held ==> forall|i: int|
            0 <= i < line_step(s, now, stream, text).1.len() ==> !(#[trigger] line_step(s, now, stream, text).1[i] is ReleaseLaunchPermit),
{
    let es = line_step(s, now, stream, text).1;
    let pre = early_effects(s, now, stream, text);
    let s2 = marked_state(s, now, text);
    lemma_line_effects(s, now, stream, text);
    assert(forall|i: int| 0 <= i < pre.len() ==> (#[trigger] pre[i] is ReleaseLaunchPermit) ==> i == 0 && s.permit_held);
    if s.permit_held {
        assert(pre[0] == EffectModel::ReleaseLaunchPermit);
    }
    if es != pre {
        let ev = parse_step(s2.parser, text).1->Ok_0->Some_0;
        let rec = pre.push(EffectModel::Record(text));
        lemma_event_step_shape(SupervisorModel { parser: parse_step(s2.parser, text).0, ..s2 }, now, ev, rec);
        assert(es[0] == rec[0]);
        assert forall|i: int| 0 <= i < es.len() && !s.permit_held implies !(#[trigger] es[i] is ReleaseLaunchPermit) by {
            if i < rec.len() {
                assert(es[i] == rec[i]);
            }
        }
    }
}

/// Every record that the runner hands to the observer was written to the
/// results log just before: an observation follows the record of its line.
pub proof fn lemma_observed_after_recorded(s: SupervisorModel, now: u64, stream: Stream, text: Seq<char>)
    ensures
        forall|i: int|
            0 <= i < line_step(s, now, stream, text).1.len() && (#[trigger] line_step(s, now, stream, text).1[i]) is Observe
                ==> i > 0 && line_step(s, now, stream, text).1[i - 1] == EffectModel::Record(text),
{
    let es = line_step(s, now, stream, text).1;
    let pre = early_effects(s, now, stream, text);
    let s2 = marked_state(s, now, text);
    lemma_line_effects(s, now, stream, text);
    assert(forall|i: int| 0 <= i < pre.len() ==> !(#[trigger] pre[i] is Observe));
    if es != pre {
        let ev = parse_step(s2.parser, text).1->Ok_0->Some_0;
        let rec = pre.push(EffectModel::Record(text));
        lemma_event_step_shape(SupervisorModel { parser: parse_step(s2.parser, text).0, ..s2 }, now, ev, rec);
        assert forall|i: int| 0 <= i < es.len() && (#[trigger] es[i]) is Observe implies i > 0 && es[i - 1]
            == EffectModel::Record(text) by {
            if i < rec.len() {
                assert(es[i] == rec[i]);
            } else if i > rec.len() {
                assert(es[i] is Note);
            } else {
                assert(es[i - 1] == rec[i - 1]);
            }
        }
    }
}

/// The effects of an accepted record: those before it, then its observation,
/// then at most notes.
proof fn lemma_event_step_shape(s: SupervisorModel, now: u64, ev: EventModel, effects: Seq<EffectModel>)
    ensures
        ({
            let es = event_step(s, now, ev, effects).1;
            &&& effects.is_prefix_of(es)
            &&& es.len() > effects.len() ==> es[effects.len() as int] == EffectModel::Observe(ev)
            &&& forall|i: int| effects.len() < i < es.len() ==> (#[trigger] es[i]) is Note
        }),
{
    let obs = effects.push(EffectModel::Observe(ev));
    match ev {
        EventModel::Pass { name } => {
            let es = completion_step(s, now, name, obs).1;
            assert(es.subrange(0, obs.len() as int) =~= obs);
            assert(es[effects.len() as int] == obs[effects.len() as int]);
            assert forall|i: int| effects.len() < i < es.len() implies (#[trigger] es[i]) is Note by {}
        },
        EventModel::Fail { name, reason } => {
            let es = completion_step(s, now, name, obs).1;
            assert(es.subrange(0, obs.len() as int) =~= obs);
            assert(es[effects.len() as int] == obs[effects.len() as int]);
            assert forall|i: int| effects.len() < i < es.len() implies (#[trigger] es[i]) is Note by {}
        },
        _ => {},
    }
}

/// The supervisor reads every line with the protocol parser: whatever arrives,
/// and whenever a deadline passes, its parser stays consistent.
pub proof fn lemma_supervisor_parser_consistent(s: SupervisorModel, now: u64, stream: Stream, text: Seq<char>, cancelled: bool)
    requires
        consistent(s.parser),
    ensures
        consistent(line_step(s, now, stream, text).0.parser),
        consistent(check_step(s, now, cancelled).0.parser),
        consistent(idle_step(s, now).0.parser),
{
    let s2 = marked_state(s, now, text);
    assert(s2.parser == s.parser);
    lemma_parse_step_consistent(s2.parser, text);
    if let Some((name, started)) = s.active {
        lemma_parse_step_consistent(s.parser, watchdog_completion(name, s.limits.test, elapsed(now, started)));
    }
}

/// A destructive run completes only when the test it names completes, and
/// then with the counts the parser observed.
pub proof fn lemma_destructive_completion(s: SupervisorModel, now: u64, stream: Stream, text: Seq<char>)
    ensures
        line_step(s, now, stream, text).2 matches ControlModel::Complete(c) ==> {
            &&& s.termination matches Some(expected) && (parse_step(s.parser, text).1 == Ok::<Option<EventModel>, Seq<char>>(
                Some(EventModel::Pass { name: expected }),
            ) || exists|reason: Seq<char>| parse_step(s.parser, text).1 == Ok::<Option<EventModel>, Seq<char>>(
                Some(EventModel::Fail { name: expected, reason }),
            ))
            &&& c == parse_step(s.parser, text).0.counts
        },
{
    let s2 = marked_state(s, now, text);
    assert(s2.parser == s.parser);
    if let ControlModel::Complete(c) = line_step(s, now, stream, text).2 {
        if let Ok(Some(EventModel::Fail { name, reason })) = parse_step(s.parser, text).1 {
            assert(parse_step(s.parser, text).1 == Ok::<Option<EventModel>, Seq<char>>(
                Some(EventModel::Fail { name: s.termination->Some_0, reason }),
            ));
        }
    }
}

/// A run completes only when its stream ended, the container exited with status
/// 0 and no destructive test was expected; it then has the counts the stream declared.
pub proof fn lemma_exit_completes_only_cleanly(code: Option<i32>, status: Seq<char>, p: ParserModel, termination: Option<Seq<char>>)
    requires
        exit_spec(code, status, p, termination) is Ok,
    ensures
        termination is None,
        p.began && p.ended && p.active is None,
        code == Some(0i32),
        exit_spec(code, status, p, termination) == Ok::<Counts, FailureModel>(p.counts),
{
}

/// A test that outlives its watchdog ends the run as a test timeout: the host
/// records a failure record for it, and the counts of the timeout include that
/// failure.
pub proof fn lemma_watchdog_times_out(s: SupervisorModel, now: u64)
    requires
        now >= s.deadline,
        consistent(s.parser),
        s.active matches Some((name, _)) && s.parser.active == Some(name),
        s.parser.counts.failed < u32::MAX,
    ensures
        ({
            let (name, started) = s.active->Some_0;
            let (q, effects, control) = check_step(s, now, false);
            &&& control matches ControlModel::Stop(f) && f.kind == FailureKind::TestTimeout && f.counts == Counts {
                failed: (s.parser.counts.failed + 1) as u32,
                ..s.parser.counts
            }
            &&& effects.len() > 0
            &&& effects[0] == EffectModel::Record(watchdog_completion(name, s.limits.test, elapsed(now, started)))
            &&& q.parser.active is None
            &&& q.parser.completed == s.parser.completed.insert(name)
        }),
{
    let (name, started) = s.active->Some_0;
    let spent = elapsed(now, started);
    let reason = "test-watchdog-timeout"@;
    reveal_strlit("test-watchdog-timeout");
    reveal_strlit("@@VMSA FAIL ");
    reveal_strlit(" reason=");
    reveal_strlit(" expected=");
    reveal_strlit(" actual=");
    reveal_strlit(" reason=test-watchdog-timeout expected=");
    assert(pow10(20) == 100_000_000_000_000_000_000) by {
        reveal_with_fuel(pow10, 21);
    }
    assert(watchdog_completion(name, s.limits.test, spent) =~= failure_line(
        name,
        reason,
        s.limits.test as nat,
        (spent / 1_000_000) as nat,
    ));
    assert(is_word(reason));
    lemma_failure_with_fields_accepted(s.parser, name, reason, s.limits.test as nat, (spent / 1_000_000) as nat);
}

/// A protocol record is no infrastructure marker: it leaves the phase and
/// deadlines as they were and is read by the parser.
proof fn lemma_record_is_no_marker(s: SupervisorModel, now: u64, text: Seq<char>)
    requires
        crate::protocol::result_prefix().is_prefix_of(text),
    ensures
        marked_state(s, now, text) == (SupervisorModel { permit_held: false, ..s }),
        text != "VMSA-INFRA CAPABILITY"@,
        !"VMSA-INFRA HARNESS_FAILURE"@.is_prefix_of(text),
{
    reveal_strlit("@@VMSA");
    reveal_strlit("VMSA-INFRA CAPABILITY");
    reveal_strlit("VMSA-INFRA HARNESS_FAILURE");
    reveal_strlit("VMSA-INFRA FVP_START");
    reveal_strlit("VMSA-INFRA PHASE prepare-start");
    reveal_strlit("VMSA-INFRA PHASE prepare-complete");
    reveal_strlit("VMSA-INFRA PHASE build-start");
    reveal_strlit("VMSA-INFRA PHASE build-complete");
    reveal_strlit("VMSA-INFRA PHASE package-complete");
    assert("@@VMSA"@[0] == '@');
    assert(text.subrange(0, 6)[0] == text[0]);
    assert(text[0] == '@');
    assert("VMSA-INFRA CAPABILITY"@[0] == 'V' && "VMSA-INFRA HARNESS_FAILURE"@[0] == 'V' && "VMSA-INFRA FVP_START"@[0] == 'V');
    assert("VMSA-INFRA PHASE prepare-start"@[0] == 'V' && "VMSA-INFRA PHASE prepare-complete"@[0] == 'V');
    assert("VMSA-INFRA PHASE build-start"@[0] == 'V' && "VMSA-INFRA PHASE build-complete"@[0] == 'V');
    assert("VMSA-INFRA PHASE package-complete"@[0] == 'V');
    assert("VMSA-INFRA HARNESS_FAILURE"@.is_prefix_of(text) ==> text.subrange(0, 26)[0] == text[0]);
}

/// An accepted `RUN` record starts the test watchdog: the run goes on with
/// that test running since now, in the test phase, and its deadline is the
/// test limit from now.
pub proof fn lemma_run_starts_watchdog(s: SupervisorModel, now: u64, stream: Stream, text: Seq<char>, name: Seq<char>)
    requires
        parse_step(s.parser, text).1 == Ok::<Option<EventModel>, Seq<char>>(Some(EventModel::Run { name })),
    ensures
        ({
            let (q, _, control) = line_step(s, now, stream, text);
            &&& control == ControlModel::Continue
            &&& q.deadline == after(now, s.limits.test)
            &&& q.active == Some((name, now))
            &&& q.phase == Phase::Test
            &&& q.limits == s.limits
        }),
{
    lemma_record_is_no_marker(s, now, text);
}

/// Every accepted record sets the deadline the original phases give it: after
/// `BEGIN`, a skip or a completed test of a normal run, the suite limit from
/// now; after `END`, the shutdown limit from now; a capability leaves the
/// deadline as it was.
pub proof fn lemma_record_deadlines(s: SupervisorModel, now: u64, stream: Stream, text: Seq<char>, ev: EventModel)
    requires
        parse_step(s.parser, text).1 == Ok::<Option<EventModel>, Seq<char>>(Some(ev)),
    ensures
        ({
            let (q, _, control) = line_step(s, now, stream, text);
            &&& ev is Begin && control == ControlModel::Continue ==> q.deadline == after(now, s.limits.suite) && q.phase
                == Phase::Suite
            &&& ev is Skip ==> control == ControlModel::Continue && q.deadline == after(now, s.limits.suite) && q.phase
                == Phase::Suite
            &&& ev is End ==> control == ControlModel::Continue && q.deadline == after(now, s.limits.shutdown) && q.phase
                == Phase::Shutdown
            &&& (ev is Pass || ev is Fail) && s.termination is None ==> control == ControlModel::Continue && q.deadline
                == after(now, s.limits.suite) && q.phase == Phase::Suite && q.active is None
            &&& ev is Capability ==> control == ControlModel::Continue && q.deadline == s.deadline && q.phase == s.phase
        }),
{
    lemma_record_is_no_marker(s, now, text);
}

/// The phase markers start their phases with their limits from now: the
/// preparation and the build with the build limit, packaging after the build
/// with the build limit, and FVP startup (before `BEGIN`) with the startup limit.
pub proof fn lemma_marker_deadlines(s: SupervisorModel, now: u64, stream: Stream)
    ensures
        line_step(s, now, stream, "VMSA-INFRA PHASE prepare-start"@).0.phase == Phase::Preparation,
        line_step(s, now, stream, "VMSA-INFRA PHASE prepare-start"@).0.deadline == after(now, s.limits.build),
        line_step(s, now, stream, "VMSA-INFRA PHASE build-start"@).0.phase == Phase::Build,
        line_step(s, now, stream, "VMSA-INFRA PHASE build-start"@).0.deadline == after(now, s.limits.build),
        line_step(s, now, stream, "VMSA-INFRA PHASE build-complete"@).0.phase == Phase::Packaging,
        line_step(s, now, stream, "VMSA-INFRA PHASE build-complete"@).0.deadline == after(now, s.limits.build),
        !s.parser.began ==> line_step(s, now, stream, "VMSA-INFRA FVP_START"@).0.phase == Phase::Startup,
        !s.parser.began ==> line_step(s, now, stream, "VMSA-INFRA FVP_START"@).0.deadline == after(now, s.limits.startup),
        line_step(s, now, stream, "VMSA-INFRA PHASE prepare-start"@).2 == ControlModel::Continue,
        line_step(s, now, stream, "VMSA-INFRA PHASE build-start"@).2 == ControlModel::Continue,
        line_step(s, now, stream, "VMSA-INFRA PHASE build-complete"@).2 == ControlModel::Continue,
        line_step(s, now, stream, "VMSA-INFRA FVP_START"@).2 == ControlModel::Continue,
{
    reveal_strlit("@@VMSA");
    reveal_strlit("VMSA-INFRA CAPABILITY");
    reveal_strlit("VMSA-INFRA HARNESS_FAILURE");
    reveal_strlit("VMSA-INFRA FVP_START");
    reveal_strlit("VMSA-INFRA PHASE prepare-start");
    reveal_strlit("VMSA-INFRA PHASE prepare-complete");
    reveal_strlit("VMSA-INFRA PHASE build-start");
    reveal_strlit("VMSA-INFRA PHASE build-complete");
    reveal_strlit("VMSA-INFRA PHASE package-complete");
    let h = "VMSA-INFRA HARNESS_FAILURE"@;
    let m1 = "VMSA-INFRA PHASE prepare-start"@;
    let m2 = "VMSA-INFRA PHASE build-start"@;
    let m3 = "VMSA-INFRA PHASE build-complete"@;
    let f = "VMSA-INFRA FVP_START"@;
    assert(m1[11] == 'P' && m2[11] == 'P' && m3[11] == 'P' && h[11] == 'H');
    assert(!h.is_prefix_of(m1) && !h.is_prefix_of(m2) && !h.is_prefix_of(m3) && !h.is_prefix_of(f)) by {
        assert(m1.subrange(0, 26)[11] == m1[11]);
        assert(m2.subrange(0, 26)[11] == m2[11]);
        assert(m3.subrange(0, 26)[11] == m3[11]);
    }
    assert(!"@@VMSA"@.is_prefix_of(m1) && !"@@VMSA"@.is_prefix_of(m2) && !"@@VMSA"@.is_prefix_of(m3)
        && !"@@VMSA"@.is_prefix_of(f)) by {
        assert(m1.subrange(0, 6)[0] == m1[0]);
        assert(m2.subrange(0, 6)[0] == m2[0]);
        assert(m3.subrange(0, 6)[0] == m3[0]);
        assert(f.subrange(0, 6)[0] == f[0]);
    }
    assert("VMSA-INFRA PHASE prepare-complete"@[18] == 'r' && "VMSA-INFRA PHASE package-complete"@[18] == 'a');
}

/// `r` is the executable form of the step `m` from state `old_s` to `new_s`.
pub open spec fn step_is(r: Step, new_s: SupervisorModel, m: (SupervisorModel, Seq<EffectModel>, ControlModel)) -> bool {
    &&& new_s == m.0
    &&& effect_views(r.effects@) == m.1
    &&& r.control@ == m.2
}

fn append_chars(out: &mut String, s: &str)
    ensures
        final(out)@ == old(out)@ + s@,
{
    out.append(s);
}

impl Supervisor {
    /// A supervisor for a run that expects `BEGIN` to name `expected_target`; a
    /// destructive run names the test expected to end its boot in `termination`.
    pub fn new(limits: SupervisorLimits, expected_target: &str, termination: Option<&str>, stream_live: bool) -> (r: Self)
        ensures
            r@ == start_model(
                limits,
                expected_target@,
                match termination {
                    Some(t) => Some(t@),
                    None => None,
                },
                stream_live,
            ),
    {
        let deadline = if limits.initial > (u64::MAX / 1_000_000) { u64::MAX } else { limits.initial * 1_000_000 };
        Supervisor {
            limits,
            expected_target: String::from_str(expected_target),
            termination: match termination {
                Some(t) => Some(String::from_str(t)),
                None => None,
            },
            stream_live,
            phase: Phase::PreparationOrBuild,
            phase_started_at: 0,
            deadline,
            next_build_progress: BUILD_PROGRESS_INTERVAL_NS,
            active_name: None,
            active_started: 0,
            parser: Parser::new(),
            permit_held: true,
        }
    }

    /// The protocol parser of the run.
    pub fn parser(&self) -> (r: &Parser)
        ensures
            r@ == self@.parser,
    {
        &self.parser
    }

    /// How long the runner may wait for the next line at time `now`: until the
    /// deadline, and at most a quarter second.
    pub fn wait(&self, now: u64) -> (r: u64)
        ensures
            r == (if self@.deadline <= now { 0 } else if self@.deadline - now < POLL_INTERVAL_NS {
                (self@.deadline - now) as u64
            } else {
                POLL_INTERVAL_NS
            }),
    {
        if self.deadline <= now {
            0
        } else if self.deadline - now < POLL_INTERVAL_NS {
            self.deadline - now
        } else {
            POLL_INTERVAL_NS
        }
    }
}

fn after_exec(now: u64, ms: u64) -> (r: u64)
    ensures
        r == after(now, ms),
{
    if ms > (u64::MAX - now) / 1_000_000 {
        assert(now + ms * 1_000_000 > u64::MAX) by (nonlinear_arith)
            requires
                ms > (u64::MAX - now) / 1_000_000,
                now <= u64::MAX,
        {}
        u64::MAX
    } else {
        assert(now + ms * 1_000_000 <= u64::MAX) by (nonlinear_arith)
            requires
                ms <= (u64::MAX - now) / 1_000_000,
                now <= u64::MAX,
        {}
        now + ms * 1_000_000
    }
}

fn later_exec(now: u64, ns: u64) -> (r: u64)
    ensures
        r == later(now, ns),
{
    now.saturating_add(ns)
}

fn elapsed_exec(now: u64, since: u64) -> (r: u64)
    ensures
        r == elapsed(now, since),
{
    if now >= since { now - since } else { 0 }
}


/// `Some("name")` or `None`, as `{:?}` writes an optional test name.
pub open spec fn debug_name(a: Option<Seq<char>>) -> Seq<char> {
    match a {
        Some(n) => "Some(\""@ + n + "\")"@,
        None => "None"@,
    }
}

/// How a run ends when its container process exits with `code` (`status` is
/// how the exit is written): a complete stream with a zero exit completes the
/// run; anything else is classified by how far the stream got.
pub open spec fn exit_spec(code: Option<i32>, status: Seq<char>, p: ParserModel, termination: Option<Seq<char>>) -> Result<Counts, FailureModel> {
    match termination {
        Some(expected) => if p.ended {
            Err(failure(FailureKind::Malformed, "destructive test "@ + expected + " returned normally instead of terminating its boot"@))
        } else {
            Err(failure(
                FailureKind::Malformed,
                "expected PASS or FAIL during destructive test "@ + expected + "; active test was "@ + debug_name(p.active)
                    + " and process exited with "@ + status,
            ))
        },
        None => if p.ended {
            match finish_spec(p) {
                Err(m) => Err(failure(FailureKind::Malformed, m)),
                Ok(c) => if code == Some(0i32) {
                    Ok(c)
                } else if code == Some(20i32) {
                    Err(failure(FailureKind::Build, "container reported cleanup or packaging failure after END"@))
                } else {
                    Err(failure(FailureKind::Startup, "container failed after END with "@ + status))
                },
            }
        } else if p.began {
            Err(failure(FailureKind::Malformed, "missing END; container exited with "@ + status))
        } else if code == Some(20i32) {
            Err(failure(FailureKind::Build, "firmware build or packaging failed"@))
        } else if code == Some(22i32) {
            Err(failure(FailureKind::Capability, "target baseline capability is unavailable"@))
        } else {
            Err(failure(FailureKind::Startup, "container exited before BEGIN with "@ + status))
        },
    }
}

/// How a container process exited.
pub struct ExitInfo {
    /// The exit code, when the process exited by itself.
    pub code: Option<i32>,
    /// How the exit status is written, such as `exit status: 9`.
    pub text: String,
}

fn message(kind: FailureKind, text: String) -> (r: Control)
    ensures
        r@ == ControlModel::Stop(failure(kind, text@)),
{
    Control::Stop(Failure::new(kind, text))
}

fn copy_text(s: &String) -> (r: String)
    ensures
        r@ == s@,
{
    String::from_str(s.as_str())
}

impl Supervisor {
    /// The check at the top of each wait at time `now`: a cancellation request
    /// or an expired deadline stops the run.
    pub fn check(&mut self, now: u64, cancelled: bool) -> (r: Step)
        ensures
            step_is(r, final(self)@, check_step(old(self)@, now, cancelled)),
    {
        if cancelled {
            let mut m = String::from_str("host cancellation requested during ");
            append_chars(&mut m, phase_text(self.phase));
            m.append(" after ");
            push_seconds_millis(&mut m, elapsed_exec(now, self.phase_started_at));
            m.append("s");
            let r = Step { effects: Vec::new(), control: message(FailureKind::Cancelled, m) };
            assert(effect_views(r.effects@) =~= Seq::<EffectModel>::empty());
            return r;
        }
        if now < self.deadline {
            let r = Step { effects: Vec::new(), control: Control::Continue };
            assert(effect_views(r.effects@) =~= Seq::<EffectModel>::empty());
            return r;
        }
        let active = match &self.active_name {
            Some(name) => copy_text(name),
            None => {
                let detail = if self.phase == Phase::Startup {
                    let mut d = String::from_str("startup deadline expired after ");
                    push_seconds_millis(&mut d, elapsed_exec(now, self.phase_started_at));
                    d.append("s (limit ");
                    push_seconds(&mut d, self.limits.startup);
                    d.append("s)");
                    d
                } else {
                    let mut d = String::from_str(phase_text(self.phase));
                    d.append(" deadline expired");
                    d
                };
                let r = Step { effects: Vec::new(), control: message(FailureKind::Timeout, detail) };
                assert(effect_views(r.effects@) =~= Seq::<EffectModel>::empty());
                return r;
            },
        };
        let spent = elapsed_exec(now, self.active_started);
        let mut detail = String::from_str("test ");
        detail.append(active.as_str());
        detail.append(" watchdog expired after ");
        push_seconds_millis(&mut detail, spent);
        detail.append("s (limit ");
        push_seconds(&mut detail, self.limits.test);
        detail.append("s)");
        let mut completion = String::from_str("@@VMSA FAIL ");
        completion.append(active.as_str());
        completion.append(" reason=test-watchdog-timeout expected=");
        push_decimal(&mut completion, self.limits.test);
        completion.append(" actual=");
        push_decimal(&mut completion, spent / 1_000_000);
        assert(completion@ =~= watchdog_completion(active@, self.limits.test, spent));
        match self.parser.parse_line(completion.as_str()) {
            Err(e) => {
                let mut m = String::from_str("host watchdog completion was rejected: ");
                m.append(e.as_str());
                let r = Step { effects: Vec::new(), control: message(FailureKind::Malformed, m) };
                assert(effect_views(r.effects@) =~= Seq::<EffectModel>::empty());
                r
            },
            Ok(_) => {
                let mut effects: Vec<Effect> = Vec::new();
                effects.push(Effect::Record(copy_text(&completion)));
                if self.stream_live {
                    effects.push(Effect::Echo { stream: Stream::Stdout, text: copy_text(&completion) });
                }
                let counts = *self.parser.observed_counts();
                let r = Step { effects, control: Control::Stop(Failure::TestTimeout { detail, counts }) };
                assert(effect_views(r.effects@) =~= seq![EffectModel::Record(completion@)] + if self.stream_live {
                    seq![EffectModel::Echo { stream: Stream::Stdout, text: completion@ }]
                } else {
                    seq![]
                });
                r
            },
        }
    }

    fn note_phase(&self, effects: &mut Vec<Effect>, now: u64, head: &str)
        ensures
            effect_views(final(effects)@) == effect_views(old(effects)@).push(EffectModel::Note(
                head@ + seconds_millis_text(elapsed(now, self@.phase_started_at) as nat) + "s"@,
            )),
    {
        let mut m = String::from_str(head);
        push_seconds_millis(&mut m, elapsed_exec(now, self.phase_started_at));
        m.append("s");
        let ghost before = effect_views(effects@);
        effects.push(Effect::Note(m));
        assert(effect_views(effects@) =~= before.push(EffectModel::Note(m@)));
    }

    fn markers(&mut self, now: u64, line: &Vec<char>, effects: &mut Vec<Effect>)
        ensures
            final(self)@ == marker_step(old(self)@, now, line@).0,
            effect_views(final(effects)@) == effect_views(old(effects)@) + marker_step(old(self)@, now, line@).1,
    {
        let ghost before = effect_views(effects@);
        if same_chars(line.as_slice(), chars_of("VMSA-INFRA PHASE prepare-start").as_slice()) {
            self.phase = Phase::Preparation;
            self.phase_started_at = now;
            self.deadline = after_exec(now, self.limits.build);
            assert(effect_views(effects@) =~= before + Seq::<EffectModel>::empty());
        } else if same_chars(line.as_slice(), chars_of("VMSA-INFRA PHASE prepare-complete").as_slice()) && self.stream_live {
            self.note_phase(effects, now, "vmsa-test: preparation completed in ");
            assert(effect_views(effects@) =~= before + marker_step(old(self)@, now, line@).1);
        } else if same_chars(line.as_slice(), chars_of("VMSA-INFRA PHASE build-start").as_slice()) {
            self.phase = Phase::Build;
            self.phase_started_at = now;
            self.deadline = after_exec(now, self.limits.build);
            self.next_build_progress = later_exec(now, BUILD_PROGRESS_INTERVAL_NS);
            assert(effect_views(effects@) =~= before + Seq::<EffectModel>::empty());
        } else if same_chars(line.as_slice(), chars_of("VMSA-INFRA PHASE build-complete").as_slice()) {
            if self.stream_live {
                self.note_phase(effects, now, "vmsa-test: firmware build completed in ");
            }
            self.phase = Phase::Packaging;
            self.phase_started_at = now;
            self.deadline = after_exec(now, self.limits.build);
            assert(effect_views(effects@) =~= before + marker_step(old(self)@, now, line@).1);
        } else if same_chars(line.as_slice(), chars_of("VMSA-INFRA PHASE package-complete").as_slice()) && self.stream_live {
            self.note_phase(effects, now, "vmsa-test: packaging completed in ");
            assert(effect_views(effects@) =~= before + marker_step(old(self)@, now, line@).1);
        } else {
            assert(effect_views(effects@) =~= before + Seq::<EffectModel>::empty());
        }
    }

    fn completion(&mut self, now: u64, name: String, effects: Vec<Effect>) -> (r: Step)
        ensures
            step_is(r, final(self)@, completion_step(old(self)@, now, name@, effect_views(effects@))),
    {
        let mut effects = effects;
        let ghost before = effect_views(effects@);
        match &self.active_name {
            Some(active) => {
                if self.stream_live {
                    let mut m = String::from_str("vmsa-test: test ");
                    m.append(active.as_str());
                    m.append(" completed in ");
                    push_seconds_millis(&mut m, elapsed_exec(now, self.active_started));
                    m.append("s (watchdog limit ");
                    push_seconds(&mut m, self.limits.test);
                    m.append("s)");
                    effects.push(Effect::Note(m));
                    assert(effect_views(effects@) =~= before + seq![EffectModel::Note(m@)]);
                } else {
                    assert(effect_views(effects@) =~= before + Seq::<EffectModel>::empty());
                }
            },
            None => {
                assert(effect_views(effects@) =~= before + Seq::<EffectModel>::empty());
            },
        }
        self.active_name = None;
        match &self.termination {
            Some(expected) => {
                if !same_chars(chars_of(expected.as_str()).as_slice(), chars_of(name.as_str()).as_slice()) {
                    let mut m = String::from_str("destructive completion for ");
                    m.append(name.as_str());
                    m.append("; expected ");
                    m.append(expected.as_str());
                    return Step { effects, control: message(FailureKind::Malformed, m) };
                }
                let counts = *self.parser.observed_counts();
                Step { effects, control: Control::Complete(counts) }
            },
            None => {
                self.phase = Phase::Suite;
                self.deadline = after_exec(now, self.limits.suite);
                Step { effects, control: Control::Continue }
            },
        }
    }

    fn accepted(&mut self, now: u64, event: Event, effects: Vec<Effect>) -> (r: Step)
        ensures
            step_is(r, final(self)@, event_step(old(self)@, now, event@, effect_views(effects@))),
    {
        let mut effects = effects;
        let ghost before = effect_views(effects@);
        match event {
            Event::Begin { target } => {
                if !same_chars(chars_of(target.as_str()).as_slice(), chars_of(self.expected_target.as_str()).as_slice()) {
                    let mut m = String::from_str("BEGIN target ");
                    m.append(target.as_str());
                    m.append(" does not match requested ");
                    m.append(self.expected_target.as_str());
                    return Step { effects, control: message(FailureKind::Malformed, m) };
                }
                self.phase = Phase::Suite;
                self.deadline = after_exec(now, self.limits.suite);
                let ev = Event::Begin { target };
                let ghost evm = ev@;
                effects.push(Effect::Observe(ev));
                assert(effect_views(effects@) =~= before.push(EffectModel::Observe(evm)));
                Step { effects, control: Control::Continue }
            },
            Event::Run { name } => {
                self.phase = Phase::Test;
                self.deadline = after_exec(now, self.limits.test);
                self.active_name = Some(copy_text(&name));
                self.active_started = now;
                let ev = Event::Run { name };
                let ghost evm = ev@;
                effects.push(Effect::Observe(ev));
                assert(effect_views(effects@) =~= before.push(EffectModel::Observe(evm)));
                Step { effects, control: Control::Continue }
            },
            Event::Pass { name } => {
                let done = copy_text(&name);
                let ev = Event::Pass { name };
                let ghost evm = ev@;
                effects.push(Effect::Observe(ev));
                assert(effect_views(effects@) =~= before.push(EffectModel::Observe(evm)));
                self.completion(now, done, effects)
            },
            Event::Fail { name, reason } => {
                let done = copy_text(&name);
                let ev = Event::Fail { name, reason };
                let ghost evm = ev@;
                effects.push(Effect::Observe(ev));
                assert(effect_views(effects@) =~= before.push(EffectModel::Observe(evm)));
                self.completion(now, done, effects)
            },
            Event::Skip { name, reason } => {
                self.phase = Phase::Suite;
                self.deadline = after_exec(now, self.limits.suite);
                let ev = Event::Skip { name, reason };
                let ghost evm = ev@;
                effects.push(Effect::Observe(ev));
                assert(effect_views(effects@) =~= before.push(EffectModel::Observe(evm)));
                Step { effects, control: Control::Continue }
            },
            Event::End(counts) => {
                self.phase = Phase::Shutdown;
                self.deadline = after_exec(now, self.limits.shutdown);
                let ev = Event::End(counts);
                let ghost evm = ev@;
                effects.push(Effect::Observe(ev));
                assert(effect_views(effects@) =~= before.push(EffectModel::Observe(evm)));
                Step { effects, control: Control::Continue }
            },
            Event::Capability { name, value } => {
                let ev = Event::Capability { name, value };
                let ghost evm = ev@;
                effects.push(Effect::Observe(ev));
                assert(effect_views(effects@) =~= before.push(EffectModel::Observe(evm)));
                Step { effects, control: Control::Continue }
            },
        }
    }

    /// A line of container output arrived at time `now`.
    #[verifier::rlimit(40)]
    #[verifier::spinoff_prover]
    pub fn on_line(&mut self, now: u64, stream: Stream, text: &str) -> (r: Step)
        ensures
            step_is(r, final(self)@, line_step(old(self)@, now, stream, text@)),
    {
        let mut effects: Vec<Effect> = Vec::new();
        if self.permit_held {
            effects.push(Effect::ReleaseLaunchPermit);
        }
        self.permit_held = false;
        if self.stream_live {
            effects.push(Effect::Echo { stream, text: String::from_str(text) });
        }
        assert(effect_views(effects@) =~= (if old(self)@.permit_held { seq![EffectModel::ReleaseLaunchPermit] } else { seq![] })
            + if self.stream_live { seq![EffectModel::Echo { stream, text: text@ }] } else { seq![] });
        let line = chars_of(text);
        self.markers(now, &line, &mut effects);
        if same_chars(line.as_slice(), chars_of("VMSA-INFRA FVP_START").as_slice()) && !self.parser.has_begun() {
            self.phase_started_at = now;
            self.deadline = after_exec(now, self.limits.startup);
            self.next_build_progress = later_exec(now, BUILD_PROGRESS_INTERVAL_NS);
            self.phase = Phase::Startup;
        }
        if same_chars(line.as_slice(), chars_of("VMSA-INFRA CAPABILITY").as_slice()) && !self.parser.has_begun() {
            return Step {
                effects,
                control: message(FailureKind::Capability, String::from_str("target baseline capability is unavailable")),
            };
        }
        if starts_with(line.as_slice(), chars_of("VMSA-INFRA HARNESS_FAILURE").as_slice()) {
            let mut m = String::from_str("guest reported an unrecoverable harness exception while ");
            match self.parser.active_test() {
                Some(a) => m.append(a),
                None => m.append("no test"),
            }
            m.append(" was active: ");
            m.append(text);
            return Step { effects, control: message(FailureKind::Harness, m) };
        }
        match self.parser.parse_line(text) {
            Err(m) => Step { effects, control: message(FailureKind::Malformed, m) },
            Ok(None) => Step { effects, control: Control::Continue },
            Ok(Some(event)) => {
                let ghost before = effect_views(effects@);
                effects.push(Effect::Record(String::from_str(text)));
                assert(effect_views(effects@) =~= before.push(EffectModel::Record(text@)));
                self.accepted(now, event, effects)
            },
        }
    }

    /// No line arrived within the wait that ended at time `now`.
    pub fn on_idle(&mut self, now: u64) -> (r: Step)
        ensures
            step_is(r, final(self)@, idle_step(old(self)@, now)),
    {
        let in_build = self.phase == Phase::Build || self.phase == Phase::Packaging;
        if self.stream_live && in_build && now >= self.next_build_progress {
            let mut m = String::from_str("vmsa-test: ");
            append_chars(&mut m, phase_text(self.phase));
            m.append(" still running (");
            push_seconds_tenths(&mut m, elapsed_exec(now, self.phase_started_at));
            m.append("s elapsed, ");
            push_seconds(&mut m, self.limits.build);
            m.append("s limit)");
            self.next_build_progress = later_exec(now, BUILD_PROGRESS_INTERVAL_NS);
            let mut effects: Vec<Effect> = Vec::new();
            effects.push(Effect::Note(m));
            assert(effect_views(effects@) =~= seq![EffectModel::Note(m@)]);
            return Step { effects, control: Control::Continue };
        }
        if self.stream_live && self.phase == Phase::Startup && now >= self.next_build_progress {
            let mut m = String::from_str("vmsa-test: FVP startup still running (");
            push_seconds_tenths(&mut m, elapsed_exec(now, self.phase_started_at));
            m.append("s elapsed, ");
            push_seconds(&mut m, self.limits.startup);
            m.append("s limit)");
            self.next_build_progress = later_exec(now, BUILD_PROGRESS_INTERVAL_NS);
            let mut effects: Vec<Effect> = Vec::new();
            effects.push(Effect::Note(m));
            assert(effect_views(effects@) =~= seq![EffectModel::Note(m@)]);
            return Step { effects, control: Control::Continue };
        }
        let r = Step { effects: Vec::new(), control: Control::Continue };
        assert(effect_views(r.effects@) =~= Seq::<EffectModel>::empty());
        r
    }

    /// Reading the container's output failed with `message`.
    pub fn on_reader_error(&self, message: String) -> (r: Step)
        ensures
            effect_views(r.effects@) == Seq::<EffectModel>::empty(),
            r.control@ == ControlModel::Stop(failure(FailureKind::Io, message@)),
    {
        let r = Step { effects: Vec::new(), control: Control::Stop(Failure::Io(message)) };
        assert(effect_views(r.effects@) =~= Seq::<EffectModel>::empty());
        r
    }

    /// The container process exited: the outcome of the run.
    pub fn on_exit(&self, status: &ExitInfo) -> (r: Result<Counts, Failure>)
        ensures
            match exit_spec(status.code, status.text@, self@.parser, self@.termination) {
                Ok(c) => r == Ok::<Counts, Failure>(c),
                Err(f) => r is Err && r->Err_0@ == f,
            },
    {
        finish(status, &self.parser, match &self.termination {
            Some(t) => Some(t.as_str()),
            None => None,
        })
    }
}

/// How a run ends when its container process exits: see [`exit_spec`].
pub fn finish(status: &ExitInfo, parser: &Parser, expected_termination: Option<&str>) -> (r: Result<Counts, Failure>)
    ensures
        match exit_spec(
            status.code,
            status.text@,
            parser@,
            match expected_termination {
                Some(t) => Some(t@),
                None => None,
            },
        ) {
            Ok(c) => r == Ok::<Counts, Failure>(c),
            Err(f) => r is Err && r->Err_0@ == f,
        },
{
    if let Some(expected) = expected_termination {
        if parser.has_ended() {
            let mut m = String::from_str("destructive test ");
            m.append(expected);
            m.append(" returned normally instead of terminating its boot");
            return Err(Failure::Malformed(m));
        }
        let mut m = String::from_str("expected PASS or FAIL during destructive test ");
        m.append(expected);
        m.append("; active test was ");
        let ghost head = m@;
        match parser.active_test() {
            Some(a) => {
                m.append("Some(\"");
                m.append(a);
                m.append("\")");
                assert(m@ =~= head + debug_name(parser@.active));
            },
            None => {
                m.append("None");
                assert(m@ =~= head + debug_name(parser@.active));
            },
        }
        m.append(" and process exited with ");
        m.append(status.text.as_str());
        return Err(Failure::Malformed(m));
    }
    if parser.has_ended() {
        let counts = match parser.finish() {
            Ok(c) => c,
            Err(m) => return Err(Failure::Malformed(m)),
        };
        return match status.code {
            Some(0) => Ok(counts),
            Some(20) => Err(Failure::Build(String::from_str("container reported cleanup or packaging failure after END"))),
            _ => {
                let mut m = String::from_str("container failed after END with ");
                m.append(status.text.as_str());
                Err(Failure::Startup(m))
            },
        };
    }
    if parser.has_begun() {
        let mut m = String::from_str("missing END; container exited with ");
        m.append(status.text.as_str());
        return Err(Failure::Malformed(m));
    }
    match status.code {
        Some(20) => Err(Failure::Build(String::from_str("firmware build or packaging failed"))),
        Some(22) => Err(Failure::Capability(String::from_str("target baseline capability is unavailable"))),
        _ => {
            let mut m = String::from_str("container exited before BEGIN with ");
            m.append(status.text.as_str());
            Err(Failure::Startup(m))
        },
    }
}
} // verus!
