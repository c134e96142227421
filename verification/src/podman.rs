//! What the runner concludes from the Podman commands it runs.
//!
//! Each check is a short sequence of commands; the runner runs the command that
//! a probe names and hands its output to the check, which answers with the next
//! probe, success or an error.
use vstd::prelude::*;
use vstd::string::StringExecFns;
use crate::text::{chars_of, push_char, same_chars, string_of, trim, trim_chars};

verus! {

/// Why Podman cannot serve the runner.
#[derive(Debug)]
pub struct PodmanError {
    message: String,
}

impl View for PodmanError {
    type V = Seq<char>;

    closed spec fn view(&self) -> Seq<char> {
        self.message@
    }
}

/// The output of a finished Podman command, its streams decoded as text.
pub struct CommandOutput {
    pub success: bool,
    pub stdout: String,
    pub stderr: String,
}

/// The advice shown with every Podman error where Podman runs in a machine (Windows).
pub open spec fn machine_hint_text() -> Seq<char> {
    "\nOn Windows, initialize and start the Podman machine with:\n  podman machine init\n  podman machine start"@
}

impl PodmanError {
    /// An error with `message`.
    pub fn unavailable(message: String) -> (r: Self)
        ensures
            r@ == message@,
    {
        PodmanError { message }
    }

    /// The error text; where Podman runs in a machine it ends with how to start it.
    pub fn display(&self, machine_hint: bool) -> (r: String)
        ensures
            r@ == self@ + if machine_hint { machine_hint_text() } else { Seq::<char>::empty() },
    {
        let mut r = String::from_str(self.message.as_str());
        if machine_hint {
            r.append("\nOn Windows, initialize and start the Podman machine with:\n  podman machine init\n  podman machine start");
        }
        r
    }
}

/// What a failed command reports: its trimmed error stream, or its trimmed
/// output when the error stream is blank.
pub open spec fn command_detail(out_stdout: Seq<char>, out_stderr: Seq<char>) -> Seq<char> {
    if trim(out_stderr).len() == 0 { trim(out_stdout) } else { trim(out_stderr) }
}

pub open spec fn command_error(action: Seq<char>, stdout: Seq<char>, stderr: Seq<char>) -> Seq<char> {
    "Podman "@ + action + " failed: "@ + command_detail(stdout, stderr)
}

/// The error of a Podman command that failed while doing `action`.
pub fn command_failure(action: &str, output: &CommandOutput) -> (r: PodmanError)
    ensures
        r@ == command_error(action@, output.stdout@, output.stderr@),
{
    let stderr = trim_chars(chars_of(output.stderr.as_str()).as_slice());
    let stdout = trim_chars(chars_of(output.stdout.as_str()).as_slice());
    let detail = if stderr.len() == 0 { stdout } else { stderr };
    let mut m = String::from_str("Podman ");
    m.append(action);
    m.append(" failed: ");
    m.append(string_of(detail.as_slice()).as_str());
    PodmanError { message: m }
}

/// The commands that check the container engine.
#[derive(Clone, Copy, Debug, PartialEq, Eq, Structural)]
pub enum EngineProbe {
    /// `podman --version`
    Version,
    /// `podman info --format {{.Host.OS}}`
    Info,
    /// `podman info --format {{.Host.Os}}`, for Podman versions that name the field so.
    InfoFallback,
}

impl EngineProbe {
    /// The Podman arguments of this probe.
    pub fn arguments(self) -> (r: Vec<&'static str>)
        ensures
            r@.len() == (if self == EngineProbe::Version { 1nat } else { 3nat }),
            self == EngineProbe::Version ==> r@[0]@ == "--version"@,
            self != EngineProbe::Version ==> r@[0]@ == "info"@ && r@[1]@ == "--format"@,
            self == EngineProbe::Info ==> r@[2]@ == "{{.Host.OS}}"@,
            self == EngineProbe::InfoFallback ==> r@[2]@ == "{{.Host.Os}}"@,
    {
        match self {
            EngineProbe::Version => vec!["--version"],
            EngineProbe::Info => vec!["info", "--format", "{{.Host.OS}}"],
            EngineProbe::InfoFallback => vec!["info", "--format", "{{.Host.Os}}"],
        }
    }
}

/// The error or next probe after `probe` produced an output.
pub open spec fn engine_step(probe: EngineProbe, success: bool, stdout: Seq<char>, stderr: Seq<char>) -> Result<Option<EngineProbe>, Seq<char>> {
    match probe {
        EngineProbe::Version => if !success {
            Err(command_error("version check"@, stdout, stderr))
        } else {
            Ok(Some(EngineProbe::Info))
        },
        EngineProbe::Info => if !success {
            Ok(Some(EngineProbe::InfoFallback))
        } else if trim(stdout) != "linux"@ {
            Err("Podman is not providing Linux containers"@)
        } else {
            Ok(None)
        },
        EngineProbe::InfoFallback => if !success {
            Err(command_error("info"@, stdout, stderr))
        } else if trim(stdout) != "linux"@ {
            Err("Podman is not providing Linux containers"@)
        } else {
            Ok(None)
        },
    }
}

pub open spec fn podman_result_is<T>(r: Result<T, PodmanError>, m: Result<T, Seq<char>>) -> bool {
    match m {
        Ok(v) => r == Ok::<T, PodmanError>(v),
        Err(e) => r is Err && r->Err_0@ == e,
    }
}

fn is_linux(output: &CommandOutput) -> (r: bool)
    ensures
        r == (trim(output.stdout@) == "linux"@),
{
    let t = trim_chars(chars_of(output.stdout.as_str()).as_slice());
    same_chars(t.as_slice(), chars_of("linux").as_slice())
}

/// Checks the engine: the version command must succeed, and the host must run
/// Linux containers. `Ok(Some(p))` asks for probe `p` next; `Ok(None)` means ready.
pub fn validate_engine(probe: EngineProbe, output: &CommandOutput) -> (r: Result<Option<EngineProbe>, PodmanError>)
    ensures
        podman_result_is(r, engine_step(probe, output.success, output.stdout@, output.stderr@)),
{
    match probe {
        EngineProbe::Version => {
            if !output.success {
                return Err(command_failure("version check", output));
            }
            Ok(Some(EngineProbe::Info))
        },
        EngineProbe::Info | EngineProbe::InfoFallback => {
            if !output.success {
                if probe == EngineProbe::Info {
                    return Ok(Some(EngineProbe::InfoFallback));
                }
                return Err(command_failure("info", output));
            }
            if !is_linux(output) {
                return Err(PodmanError::unavailable(String::from_str("Podman is not providing Linux containers")));
            }
            Ok(None)
        },
    }
}

/// The commands that make sure the firmware cache volume exists.
#[derive(Clone, Copy, Debug, PartialEq, Eq, Structural)]
pub enum VolumeProbe {
    /// `podman volume inspect <volume>`
    Inspect,
    /// `podman volume create <volume>`
    Create,
}

pub open spec fn volume_step(probe: VolumeProbe, success: bool, stdout: Seq<char>, stderr: Seq<char>) -> Result<Option<VolumeProbe>, Seq<char>> {
    match probe {
        VolumeProbe::Inspect => if success { Ok(None) } else { Ok(Some(VolumeProbe::Create)) },
        VolumeProbe::Create => if success {
            Ok(None)
        } else {
            Err(command_error("cache volume creation"@, stdout, stderr))
        },
    }
}

/// Makes sure the cache volume exists: an existing volume is kept, a missing one created.
pub fn ensure_cache_volume(probe: VolumeProbe, output: &CommandOutput) -> (r: Result<Option<VolumeProbe>, PodmanError>)
    ensures
        podman_result_is(r, volume_step(probe, output.success, output.stdout@, output.stderr@)),
{
    match probe {
        VolumeProbe::Inspect => if output.success { Ok(None) } else { Ok(Some(VolumeProbe::Create)) },
        VolumeProbe::Create => if output.success {
            Ok(None)
        } else {
            Err(command_failure("cache volume creation", output))
        },
    }
}

/// The position of an engine probe in the order the check runs them.
pub open spec fn engine_probe_order(p: EngineProbe) -> nat {
    match p {
        EngineProbe::Version => 0,
        EngineProbe::Info => 1,
        EngineProbe::InfoFallback => 2,
    }
}

/// The engine and volume checks only move forward: each probe asks for a later
/// one, so each check ends after at most three, respectively two, commands.
pub proof fn lemma_probes_advance(
    engine: EngineProbe,
    volume: VolumeProbe,
    success: bool,
    stdout: Seq<char>,
    stderr: Seq<char>,
)
    ensures
        engine_step(engine, success, stdout, stderr) matches Ok(Some(next)) ==> engine_probe_order(next)
            > engine_probe_order(engine),
        volume_step(volume, success, stdout, stderr) matches Ok(Some(next)) ==> volume == VolumeProbe::Inspect
            && next == VolumeProbe::Create,
{
}

/// `s` with every carriage return and line feed written as a space.
pub open spec fn one_line(s: Seq<char>) -> Seq<char> {
    Seq::new(s.len(), |i: int| if s[i] == '\r' || s[i] == '\n' { ' ' } else { s[i] })
}

/// The FVP version text: its trimmed output, or its trimmed error stream when
/// the output is blank, on one line.
pub open spec fn fvp_version_spec(success: bool, stdout: Seq<char>, stderr: Seq<char>) -> Result<Seq<char>, Seq<char>> {
    if !success {
        Err(command_error("FVP startup check"@, stdout, stderr))
    } else {
        let version = if trim(stdout).len() == 0 { trim(stderr) } else { trim(stdout) };
        if version.len() == 0 {
            Err("FVP version command returned no version text"@)
        } else {
            Ok(one_line(version))
        }
    }
}

/// The version of the FVP from the output of `FVP_Base_RevC-2xAEMvA --version`.
pub fn fvp_version(output: &CommandOutput) -> (r: Result<String, PodmanError>)
    ensures
        match fvp_version_spec(output.success, output.stdout@, output.stderr@) {
            Ok(v) => r is Ok && r->Ok_0@ == v,
            Err(e) => r is Err && r->Err_0@ == e,
        },
{
    if !output.success {
        return Err(command_failure("FVP startup check", output));
    }
    let stdout = trim_chars(chars_of(output.stdout.as_str()).as_slice());
    let stderr = trim_chars(chars_of(output.stderr.as_str()).as_slice());
    let version = if stdout.len() == 0 { stderr } else { stdout };
    if version.len() == 0 {
        return Err(PodmanError::unavailable(String::from_str("FVP version command returned no version text")));
    }
    let mut r = String::new();
    let mut i: usize = 0;
    while i < version.len()
        invariant
            i <= version@.len(),
            r@ == one_line(version@).take(i as int),
        decreases version@.len() - i,
    {
        let c = version[i];
        push_char(&mut r, if c == '\r' || c == '\n' { ' ' } else { c });
        assert(r@ =~= one_line(version@).take(i + 1));
        i = i + 1;
    }
    assert(r@ =~= one_line(version@));
    Ok(r)
}

/// Checks that the FVP starts: its version command succeeds with some text.
pub fn validate_fvp(output: &CommandOutput) -> (r: Result<(), PodmanError>)
    ensures
        match fvp_version_spec(output.success, output.stdout@, output.stderr@) {
            Ok(_) => r is Ok,
            Err(e) => r is Err && r->Err_0@ == e,
        },
{
    match fvp_version(output) {
        Ok(_) => Ok(()),
        Err(e) => Err(e),
    }
}

/// The image architecture that a host architecture runs, as Podman names it.
pub open spec fn image_architecture(host: Seq<char>) -> Option<Seq<char>> {
    if host == "x86_64"@ {
        Some("amd64"@)
    } else if host == "aarch64"@ {
        Some("arm64"@)
    } else {
        None
    }
}

pub open spec fn architecture_check_spec(host: Seq<char>, success: bool, stdout: Seq<char>, stderr: Seq<char>) -> Result<(), Seq<char>> {
    if !success {
        Err(command_error("image architecture inspection"@, stdout, stderr))
    } else {
        match image_architecture(host) {
            None => Err("unsupported host architecture: "@ + host),
            Some(expected) => if trim(stdout) != expected {
                Err("the pinned image does not provide the current host architecture ("@ + expected + ")"@)
            } else {
                Ok(())
            },
        }
    }
}

/// Checks the output of the image architecture inspection against the host architecture `host`.
pub fn check_image_architecture(host: &str, output: &CommandOutput) -> (r: Result<(), PodmanError>)
    ensures
        podman_result_is(r, architecture_check_spec(host@, output.success, output.stdout@, output.stderr@)),
{
    if !output.success {
        return Err(command_failure("image architecture inspection", output));
    }
    let h = chars_of(host);
    let expected = if same_chars(h.as_slice(), chars_of("x86_64").as_slice()) {
        "amd64"
    } else if same_chars(h.as_slice(), chars_of("aarch64").as_slice()) {
        "arm64"
    } else {
        let mut m = String::from_str("unsupported host architecture: ");
        m.append(host);
        return Err(PodmanError::unavailable(m));
    };
    let actual = trim_chars(chars_of(output.stdout.as_str()).as_slice());
    if !same_chars(actual.as_slice(), chars_of(expected).as_slice()) {
        let mut m = String::from_str("the pinned image does not provide the current host architecture (");
        m.append(expected);
        m.append(")");
        return Err(PodmanError::unavailable(m));
    }
    Ok(())
}

/// The host directories that a container mounts; the runner knows their paths.
#[derive(Clone, Copy, Debug, PartialEq, Eq, Structural)]
pub enum MountSource {
    /// This runner's repository.
    Repository,
    /// The checkout under test.
    Crate,
    /// The directory of the run's artifacts.
    Output,
}

/// One argument of a Podman command line.
#[derive(Debug)]
pub enum Argument {
    /// A plain argument.
    Text(String),
    /// `type=bind,src=<path of source>,dst=<destination>`, with `,ro=true` when read-only.
    BindMount { source: MountSource, destination: &'static str, read_only: bool },
}

pub enum ArgumentModel {
    Text(Seq<char>),
    BindMount { source: MountSource, destination: Seq<char>, read_only: bool },
}

impl View for Argument {
    type V = ArgumentModel;

    open spec fn view(&self) -> ArgumentModel {
        match self {
            Argument::Text(t) => ArgumentModel::Text(t@),
            Argument::BindMount { source, destination, read_only } => ArgumentModel::BindMount {
                source: *source,
                destination: destination@,
                read_only: *read_only,
            },
        }
    }
}

pub open spec fn argument_views(args: Seq<Argument>) -> Seq<ArgumentModel> {
    args.map_values(|a: Argument| a@)
}

pub open spec fn text_args(ts: Seq<Seq<char>>) -> Seq<ArgumentModel> {
    ts.map_values(|t: Seq<char>| ArgumentModel::Text(t))
}

/// Where each source is mounted in the container, and whether read-only.
pub open spec fn mount_of(source: MountSource) -> ArgumentModel {
    match source {
        MountSource::Repository => ArgumentModel::BindMount { source, destination: "/workspace/tests"@, read_only: false },
        MountSource::Crate => ArgumentModel::BindMount { source, destination: "/workspace/aarch64-vmsa"@, read_only: true },
        MountSource::Output => ArgumentModel::BindMount { source, destination: "/output"@, read_only: false },
    }
}

/// The arguments of `podman run` for a test run of `target` in a container
/// named `name`: the repository, the checkout under test (read-only), the cache
/// volume and the run's output directory mounted, then the container's runner.
pub open spec fn run_arguments_spec(
    name: Seq<char>,
    image: Seq<char>,
    cache_volume: Seq<char>,
    target: Seq<char>,
    filter: Option<Seq<char>>,
) -> Seq<ArgumentModel> {
    text_args(seq!["run"@, "--rm"@, "--name"@, name, "--env"@, "VMSA_RUN_ID="@ + name, "--mount"@])
        + seq![mount_of(MountSource::Repository)] + text_args(seq!["--mount"@]) + seq![mount_of(MountSource::Crate)]
        + text_args(seq!["--mount"@, "type=volume,src="@ + cache_volume + ",dst=/cache"@, "--mount"@])
        + seq![mount_of(MountSource::Output)]
        + text_args(seq![
        "--workdir"@,
        "/workspace/tests"@,
        "--entrypoint"@,
        "python3"@,
        image,
        "-B"@,
        "/workspace/tests/container/run.py"@,
        target,
    ]) + match filter {
        Some(f) => text_args(seq!["--filter"@, f]),
        None => Seq::<ArgumentModel>::empty(),
    }
}

fn text(s: &str) -> (r: Argument)
    ensures
        r@ == ArgumentModel::Text(s@),
{
    Argument::Text(String::from_str(s))
}

fn mount(source: MountSource) -> (r: Argument)
    ensures
        r@ == mount_of(source),
{
    match source {
        MountSource::Repository => Argument::BindMount { source, destination: "/workspace/tests", read_only: false },
        MountSource::Crate => Argument::BindMount { source, destination: "/workspace/aarch64-vmsa", read_only: true },
        MountSource::Output => Argument::BindMount { source, destination: "/output", read_only: false },
    }
}

fn push_arg(args: &mut Vec<Argument>, a: Argument)
    ensures
        argument_views(final(args)@) == argument_views(old(args)@).push(a@),
{
    let ghost before = args@;
    args.push(a);
    assert(argument_views(args@) =~= argument_views(before).push(a@));
}

/// The arguments of `podman run` for a test run; see [`run_arguments_spec`].
pub fn run_arguments(name: &str, image: &str, cache_volume: &str, target: &str, filter: Option<&str>) -> (r: Vec<Argument>)
    ensures
        argument_views(r@) == run_arguments_spec(
            name@,
            image@,
            cache_volume@,
            target@,
            match filter {
                Some(f) => Some(f@),
                None => None,
            },
        ),
{
    let mut args: Vec<Argument> = Vec::new();
    push_arg(&mut args, text("run"));
    push_arg(&mut args, text("--rm"));
    push_arg(&mut args, text("--name"));
    push_arg(&mut args, text(name));
    push_arg(&mut args, text("--env"));
    let mut env = String::from_str("VMSA_RUN_ID=");
    env.append(name);
    push_arg(&mut args, Argument::Text(env));
    push_arg(&mut args, text("--mount"));
    push_arg(&mut args, mount(MountSource::Repository));
    push_arg(&mut args, text("--mount"));
    push_arg(&mut args, mount(MountSource::Crate));
    push_arg(&mut args, text("--mount"));
    let mut volume = String::from_str("type=volume,src=");
    volume.append(cache_volume);
    volume.append(",dst=/cache");
    push_arg(&mut args, Argument::Text(volume));
    push_arg(&mut args, text("--mount"));
    push_arg(&mut args, mount(MountSource::Output));
    push_arg(&mut args, text("--workdir"));
    push_arg(&mut args, text("/workspace/tests"));
    push_arg(&mut args, text("--entrypoint"));
    push_arg(&mut args, text("python3"));
    push_arg(&mut args, text(image));
    push_arg(&mut args, text("-B"));
    push_arg(&mut args, text("/workspace/tests/container/run.py"));
    push_arg(&mut args, text(target));
    if let Some(f) = filter {
        push_arg(&mut args, text("--filter"));
        push_arg(&mut args, text(f));
    }
    let ghost spec = run_arguments_spec(
        name@,
        image@,
        cache_volume@,
        target@,
        match filter {
            Some(f) => Some(f@),
            None => None,
        },
    );
    assert(argument_views(args@) =~= spec);
    args
}

/// The arguments of `podman run` that check that `source` can be mounted:
/// writable for the repository (`test -w`), readable for the checkout (`test -r`).
pub open spec fn mount_check_arguments_spec(source: MountSource, image: Seq<char>) -> Seq<ArgumentModel> {
    let m = mount_of(source);
    text_args(seq!["run"@, "--rm"@, "--mount"@]) + seq![m] + text_args(seq![
        "--entrypoint"@,
        "/usr/bin/test"@,
        image,
        if m->read_only { "-r"@ } else { "-w"@ },
        m->destination,
    ])
}

/// The arguments of `podman run` that check the mount of `source`; see [`mount_check_arguments_spec`].
pub fn mount_check_arguments(source: MountSource, image: &str) -> (r: Vec<Argument>)
    ensures
        argument_views(r@) == mount_check_arguments_spec(source, image@),
{
    let mut args: Vec<Argument> = Vec::new();
    push_arg(&mut args, text("run"));
    push_arg(&mut args, text("--rm"));
    push_arg(&mut args, text("--mount"));
    push_arg(&mut args, mount(source));
    push_arg(&mut args, text("--entrypoint"));
    push_arg(&mut args, text("/usr/bin/test"));
    push_arg(&mut args, text(image));
    match source {
        MountSource::Crate => {
            push_arg(&mut args, text("-r"));
            push_arg(&mut args, text("/workspace/aarch64-vmsa"));
        },
        MountSource::Repository => {
            push_arg(&mut args, text("-w"));
            push_arg(&mut args, text("/workspace/tests"));
        },
        MountSource::Output => {
            push_arg(&mut args, text("-w"));
            push_arg(&mut args, text("/output"));
        },
    }
    assert(argument_views(args@) =~= mount_check_arguments_spec(source, image@));
    args
}

/// A bind mount of the checkout under test.
pub open spec fn mounts_checkout(a: ArgumentModel) -> bool {
    a matches ArgumentModel::BindMount { source: MountSource::Crate, .. }
}

/// A writable bind mount of the checkout under test.
pub open spec fn mounts_checkout_writable(a: ArgumentModel) -> bool {
    a matches ArgumentModel::BindMount { source: MountSource::Crate, read_only: false, .. }
}

/// The checkout under test is always mounted read-only: a test run mounts it
/// exactly once, read-only, and so does the check of its mount.
pub proof fn lemma_checkout_mounted_read_only(
    name: Seq<char>,
    image: Seq<char>,
    cache_volume: Seq<char>,
    target: Seq<char>,
    filter: Option<Seq<char>>,
)
    ensures
        ({
            let args = run_arguments_spec(name, image, cache_volume, target, filter);
            &&& args[9] == mount_of(MountSource::Crate)
            &&& forall|i: int| 0 <= i < args.len() ==> !mounts_checkout_writable(#[trigger] args[i])
            &&& forall|i: int| 0 <= i < args.len() && i != 9 ==> !mounts_checkout(#[trigger] args[i])
        }),
        forall|i: int| 0 <= i < mount_check_arguments_spec(MountSource::Crate, image).len()
            ==> !mounts_checkout_writable(#[trigger] mount_check_arguments_spec(MountSource::Crate, image)[i]),
{
    let args = run_arguments_spec(name, image, cache_volume, target, filter);
    assert forall|i: int| 0 <= i < args.len() implies !mounts_checkout_writable(#[trigger] args[i]) && (i != 9
        ==> !mounts_checkout(args[i])) by {
        if i < 7 {
        } else if i == 7 || i == 9 {
        } else if i < 13 {
        } else if i == 13 {
        } else {
        }
    }
}

} // verus!
