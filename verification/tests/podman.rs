use vmsa_test::podman::{
    check_image_architecture, command_failure, ensure_cache_volume, fvp_version, validate_engine, validate_fvp,
    CommandOutput, EngineProbe, PodmanError, VolumeProbe, mount_check_arguments, MountSource,
};

fn output(success: bool, stdout: &str, stderr: &str) -> CommandOutput {
    CommandOutput { success, stdout: stdout.to_string(), stderr: stderr.to_string() }
}

fn message(error: PodmanError) -> String {
    error.display(false)
}

#[test]
fn failure_prefers_the_error_stream() {
    assert_eq!(
        message(command_failure("info", &output(false, "out", "  err text \n"))),
        "Podman info failed: err text"
    );
    assert_eq!(
        message(command_failure("info", &output(false, " out text\n", " \n"))),
        "Podman info failed: out text"
    );
}

#[test]
fn machine_hint_is_appended_on_request() {
    let error = PodmanError::unavailable("gone".to_string());
    assert_eq!(error.display(false), "gone");
    assert_eq!(
        error.display(true),
        "gone\nOn Windows, initialize and start the Podman machine with:\n  podman machine init\n  podman machine start"
    );
}

#[test]
fn probe_arguments() {
    assert_eq!(EngineProbe::Version.arguments(), vec!["--version"]);
    assert_eq!(EngineProbe::Info.arguments(), vec!["info", "--format", "{{.Host.OS}}"]);
    assert_eq!(EngineProbe::InfoFallback.arguments(), vec!["info", "--format", "{{.Host.Os}}"]);
}

#[test]
fn engine_check_walks_the_probes() {
    assert_eq!(
        validate_engine(EngineProbe::Version, &output(true, "podman version 5", "")).unwrap(),
        Some(EngineProbe::Info)
    );
    assert_eq!(
        validate_engine(EngineProbe::Info, &output(false, "", "unknown field")).unwrap(),
        Some(EngineProbe::InfoFallback)
    );
    assert_eq!(validate_engine(EngineProbe::InfoFallback, &output(true, "linux\n", "")).unwrap(), None);
    assert_eq!(validate_engine(EngineProbe::Info, &output(true, " linux ", "")).unwrap(), None);
}

#[test]
fn engine_check_errors() {
    assert_eq!(
        message(validate_engine(EngineProbe::Version, &output(false, "", "not found")).unwrap_err()),
        "Podman version check failed: not found"
    );
    assert_eq!(
        message(validate_engine(EngineProbe::InfoFallback, &output(false, "", "broken")).unwrap_err()),
        "Podman info failed: broken"
    );
    assert_eq!(
        message(validate_engine(EngineProbe::Info, &output(true, "windows", "")).unwrap_err()),
        "Podman is not providing Linux containers"
    );
}

#[test]
fn cache_volume_is_created_when_missing() {
    assert_eq!(ensure_cache_volume(VolumeProbe::Inspect, &output(true, "[]", "")).unwrap(), None);
    assert_eq!(
        ensure_cache_volume(VolumeProbe::Inspect, &output(false, "", "no such volume")).unwrap(),
        Some(VolumeProbe::Create)
    );
    assert_eq!(ensure_cache_volume(VolumeProbe::Create, &output(true, "vol", "")).unwrap(), None);
    assert_eq!(
        message(ensure_cache_volume(VolumeProbe::Create, &output(false, "", "denied")).unwrap_err()),
        "Podman cache volume creation failed: denied"
    );
}

#[test]
fn fvp_version_is_one_trimmed_line() {
    assert_eq!(fvp_version(&output(true, "\n Fast Models 11.27\r\nBuild 19\n", "")).unwrap(), "Fast Models 11.27  Build 19");
    assert_eq!(fvp_version(&output(true, "  ", "on stderr\n")).unwrap(), "on stderr");
    assert_eq!(
        message(fvp_version(&output(true, " ", "\n")).unwrap_err()),
        "FVP version command returned no version text"
    );
    assert_eq!(
        message(fvp_version(&output(false, "", "exec failed")).unwrap_err()),
        "Podman FVP startup check failed: exec failed"
    );
    assert!(validate_fvp(&output(true, "v1", "")).is_ok());
    assert!(validate_fvp(&output(true, "", "")).is_err());
}

#[test]
fn image_architecture_must_match_the_host() {
    assert!(check_image_architecture("x86_64", &output(true, "amd64\n", "")).is_ok());
    assert!(check_image_architecture("aarch64", &output(true, "arm64", "")).is_ok());
    assert_eq!(
        message(check_image_architecture("x86_64", &output(true, "arm64", "")).unwrap_err()),
        "the pinned image does not provide the current host architecture (amd64)"
    );
    assert_eq!(
        message(check_image_architecture("riscv64", &output(true, "riscv64", "")).unwrap_err()),
        "unsupported host architecture: riscv64"
    );
    assert_eq!(
        message(check_image_architecture("x86_64", &output(false, "", "no image")).unwrap_err()),
        "Podman image architecture inspection failed: no image"
    );
}

fn shown(arguments: Vec<vmsa_test::podman::Argument>) -> Vec<String> {
    arguments
        .into_iter()
        .map(|a| match a {
            vmsa_test::podman::Argument::Text(t) => t,
            vmsa_test::podman::Argument::BindMount { source, destination, read_only } => {
                format!("{source:?}->{destination}{}", if read_only { " ro" } else { "" })
            }
        })
        .collect()
}

#[test]
fn test_run_mounts_the_checkout_read_only() {
    let args = shown(vmsa_test::podman::run_arguments("vmsa-1", "img", "cache", "ns-el2", Some("map")));
    assert_eq!(
        args,
        vec![
            "run", "--rm", "--name", "vmsa-1", "--env", "VMSA_RUN_ID=vmsa-1", "--mount", "Repository->/workspace/tests",
            "--mount", "Crate->/workspace/aarch64-vmsa ro", "--mount", "type=volume,src=cache,dst=/cache", "--mount",
            "Output->/output", "--workdir", "/workspace/tests", "--entrypoint", "python3", "img", "-B",
            "/workspace/tests/container/run.py", "ns-el2", "--filter", "map",
        ]
    );
    let without = shown(vmsa_test::podman::run_arguments("n", "img", "cache", "root-el3", None));
    assert_eq!(without.last().map(String::as_str), Some("root-el3"));
}

#[test]
fn mount_checks_test_access() {
    assert_eq!(
        shown(mount_check_arguments(MountSource::Crate, "img")),
        vec!["run", "--rm", "--mount", "Crate->/workspace/aarch64-vmsa ro", "--entrypoint", "/usr/bin/test", "img", "-r", "/workspace/aarch64-vmsa"]
    );
    assert_eq!(
        shown(mount_check_arguments(MountSource::Repository, "img")),
        vec!["run", "--rm", "--mount", "Repository->/workspace/tests", "--entrypoint", "/usr/bin/test", "img", "-w", "/workspace/tests"]
    );
}
