use cargo_sandbox::interpose::{decide_spawn, project_local_tmpdir, sandbox_exec_args, SpawnDecision};
use cargo_sandbox::config::{SandboxConfig, SandboxNetworkConfig, SandboxOption, SandboxPackageConfig};
use cargo_sandbox::kind::ProcessKind;

fn strs(v: &[&str]) -> Vec<Vec<u8>> {
    v.iter().map(|s| s.as_bytes().to_vec()).collect()
}

fn texts(v: Vec<Vec<u8>>) -> Vec<String> {
    v.into_iter().map(|s| String::from_utf8(s).unwrap()).collect()
}

#[test]
fn other_programs_are_spawned_unchanged() {
    let d = decide_spawn(&SandboxConfig::default(), b"/bin/sh", &strs(&["sh", "-c", "true"]), &strs(&["PATH=/bin"]), true);
    assert!(matches!(d, Some(SpawnDecision::Unsandboxed)));
    let d = decide_spawn(&SandboxConfig::default(), b"-rustc", &strs(&["-rustc"]), &strs(&[]), true);
    assert!(matches!(d, Some(SpawnDecision::Unsandboxed)));
}

#[test]
fn build_script_is_sandboxed() {
    let bin = b"/p/target/debug/build/foo-abc/build-script-build";
    let env = strs(&["CARGO_MANIFEST_DIR=/p"]);
    match decide_spawn(&SandboxConfig::default(), bin, &strs(&["build-script-build"]), &env, true) {
        Some(SpawnDecision::Sandboxed(kind, _)) => assert_eq!(
            kind,
            ProcessKind::BuildScript {
                package: "foo".to_string(),
                target_dir: b"/p/target".to_vec(),
                manifest_dir: b"/p".to_vec(),
            }
        ),
        other => panic!("unexpected decision {other:?}"),
    }
}

#[test]
fn dash_path_is_refused_only_when_checked() {
    let bin = b"-x/target/debug/build/foo-abc/build-script-build";
    let env = strs(&["CARGO_MANIFEST_DIR=/p"]);
    let args = strs(&["build-script-build"]);
    assert!(matches!(decide_spawn(&SandboxConfig::default(), bin, &args, &env, true), Some(SpawnDecision::Refused)));
    assert!(matches!(
        decide_spawn(&SandboxConfig::default(), bin, &args, &env, false),
        Some(SpawnDecision::Sandboxed(_, _))
    ));
}

#[test]
fn unclassifiable_process_gives_none() {
    // A build script without `CARGO_MANIFEST_DIR`.
    let bin = b"/p/target/debug/build/foo-abc/build-script-build";
    assert!(decide_spawn(&SandboxConfig::default(), bin, &strs(&["build-script-build"]), &strs(&[]), true).is_none());
}

#[test]
fn sandbox_exec_arguments() {
    let args = sandbox_exec_args(b"(version 1)", b"/p/rustc", &strs(&["rustc", "--edition", "2021"]));
    assert_eq!(
        texts(args),
        vec!["/usr/bin/sandbox-exec", "-p", "(version 1)", "/p/rustc", "--edition", "2021"]
    );
    let args = sandbox_exec_args(b"P", b"/x", &strs(&[]));
    assert_eq!(texts(args), vec!["/usr/bin/sandbox-exec", "-p", "P", "/x"]);
}

#[test]
fn tmpdir_is_joined_onto_target_dir() {
    assert_eq!(project_local_tmpdir(b"/p/target"), b"/p/target/sandbox-tmp".to_vec());
    assert_eq!(project_local_tmpdir(b"/p/target/"), b"/p/target/sandbox-tmp".to_vec());
    assert_eq!(project_local_tmpdir(b""), b"sandbox-tmp".to_vec());
    let joined = std::path::Path::new("/q/target").join("sandbox-tmp");
    assert_eq!(project_local_tmpdir(b"/q/target"), joined.to_str().unwrap().as_bytes().to_vec());
}

fn package(default_: Option<SandboxOption>) -> SandboxPackageConfig {
    SandboxPackageConfig { default_, network: SandboxNetworkConfig::default(), paths: vec![] }
}

#[test]
fn configured_allow_and_warn_disable_the_sandbox() {
    let bin = b"/p/target/debug/build/foo-abc/build-script-build";
    let env = strs(&["CARGO_MANIFEST_DIR=/p"]);
    let args = strs(&["build-script-build"]);

    let mut config = SandboxConfig::default();
    config.build_scripts.insert("foo".to_string(), package(Some(SandboxOption::Allow)));
    assert!(matches!(decide_spawn(&config, bin, &args, &env, true), Some(SpawnDecision::Allowed(_))));

    config.build_scripts.insert("foo".to_string(), package(Some(SandboxOption::Warn)));
    assert!(matches!(decide_spawn(&config, bin, &args, &env, true), Some(SpawnDecision::Warned(_, _))));

    config.build_scripts.insert("foo".to_string(), package(Some(SandboxOption::Deny)));
    match decide_spawn(&config, bin, &args, &env, true) {
        Some(SpawnDecision::Sandboxed(_, c)) => assert_eq!(c.default_, Some(SandboxOption::Deny)),
        other => panic!("unexpected decision {other:?}"),
    }

    // A global `allow` applies to every package without an entry.
    let mut config = SandboxConfig::default();
    config.global = Some(SandboxOption::Allow);
    assert!(matches!(decide_spawn(&config, bin, &args, &env, true), Some(SpawnDecision::Allowed(_))));
    config.build_scripts.insert("foo".to_string(), package(Some(SandboxOption::Deny)));
    assert!(matches!(
        decide_spawn(&config, bin, &args, &env, true),
        Some(SpawnDecision::Sandboxed(_, _))
    ));
}

#[test]
fn warned_dash_path_is_refused() {
    let bin = b"-x/target/debug/build/foo-abc/build-script-build";
    let env = strs(&["CARGO_MANIFEST_DIR=/p"]);
    let args = strs(&["build-script-build"]);
    let mut config = SandboxConfig::default();
    config.global = Some(SandboxOption::Warn);
    assert!(matches!(decide_spawn(&config, bin, &args, &env, true), Some(SpawnDecision::Refused)));
    match decide_spawn(&config, bin, &args, &env, false) {
        Some(SpawnDecision::Warned(_, c)) => assert_eq!(c.default_, Some(SandboxOption::Warn)),
        other => panic!("unexpected decision {other:?}"),
    }
    config.global = Some(SandboxOption::Allow);
    assert!(matches!(decide_spawn(&config, bin, &args, &env, true), Some(SpawnDecision::Allowed(_))));
}
