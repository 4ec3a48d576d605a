use cargo_sandbox::kind::ProcessKind;

fn strs(v: &[&str]) -> Vec<Vec<u8>> {
    v.iter().map(|s| s.as_bytes().to_vec()).collect()
}

#[test]
fn build_script_is_classified_by_its_directory() {
    let bin = b"/p/target/debug/build/foo-bar-abc123/build-script-build";
    let env = strs(&["PATH=/bin", "CARGO_MANIFEST_DIR=/p", "CARGO_MANIFEST_DIR=/other"]);
    let kind = ProcessKind::parse(bin, &strs(&["build-script-build"]), &env);
    assert_eq!(
        kind,
        ProcessKind::BuildScript {
            package: "foo-bar".to_string(),
            target_dir: b"/p/target".to_vec(),
            manifest_dir: b"/p".to_vec(),
        }
    );
    assert_eq!(kind.package(), "foo-bar");
    assert_eq!(kind.target_dir(), b"/p/target");
    assert_eq!(kind.manifest_dir(), b"/p");
    assert!(!kind.is_other());
}

#[test]
fn rustc_is_classified_by_package_and_externs() {
    let args = strs(&[
        "rustc",
        "--crate-name",
        "foo",
        "--extern",
        "serde=/p/target/debug/deps/libserde.rlib",
        "--extern",
        "proc_macro",
        "--out-dir",
        "/p/target/debug/deps",
    ]);
    let env = strs(&["CARGO_PKG_NAME=foo", "CARGO_MANIFEST_DIR=/p"]);
    let kind = ProcessKind::parse(b"/toolchain/bin/rustc", &args, &env);
    assert_eq!(
        kind,
        ProcessKind::Rustc {
            package: "foo".to_string(),
            externs: vec!["serde".to_string(), "proc_macro".to_string()],
            target_dir: b"/p/target".to_vec(),
            manifest_dir: b"/p".to_vec(),
        }
    );
}

#[test]
fn rustc_target_dir_from_out_dir_variable() {
    let args = strs(&["rustc", "src/lib.rs"]);
    let env = strs(&["OUT_DIR=/q/target/release/build/x-1/out", "CARGO_PKG_NAME=x", "CARGO_MANIFEST_DIR=/q"]);
    let kind = ProcessKind::parse(b"rustc", &args, &env);
    assert_eq!(kind.target_dir(), b"/q/target");
    assert_eq!(kind.package(), "x");
}

#[test]
fn rustc_queries_are_not_sandboxed() {
    for q in ["-vV", "-", "--print=target-spec-json"] {
        let kind = ProcessKind::parse(b"/bin/rustc", &strs(&["rustc", q]), &strs(&[]));
        assert_eq!(kind, ProcessKind::Other);
        assert!(kind.is_other());
    }
}

#[test]
fn other_programs_are_not_sandboxed() {
    let kind = ProcessKind::parse(b"/usr/bin/cc", &strs(&["cc", "-c", "foo.c"]), &strs(&[]));
    assert_eq!(kind, ProcessKind::Other);
}

#[test]
fn unclassifiable_invocations() {
    // No file name.
    assert_eq!(ProcessKind::try_parse(b"/", &strs(&[]), &strs(&[])), None);
    // Build script without a manifest directory.
    assert_eq!(
        ProcessKind::try_parse(b"/p/target/debug/build/foo-1/build-script-build", &strs(&[]), &strs(&[])),
        None
    );
    // Build directory without a `-`.
    assert_eq!(
        ProcessKind::try_parse(
            b"/p/target/debug/build/foo/build-script-build",
            &strs(&[]),
            &strs(&["CARGO_MANIFEST_DIR=/p"])
        ),
        None
    );
    // Build script outside a `target` directory.
    assert_eq!(
        ProcessKind::try_parse(b"/p/out/build/foo-1/build-script-build", &strs(&[]), &strs(&["CARGO_MANIFEST_DIR=/p"])),
        None
    );
    // rustc without CARGO_PKG_NAME.
    assert_eq!(
        ProcessKind::try_parse(b"rustc", &strs(&["rustc", "--out-dir", "/p/target/d"]), &strs(&["CARGO_MANIFEST_DIR=/p"])),
        None
    );
    // `--extern` without its value.
    assert_eq!(
        ProcessKind::try_parse(
            b"rustc",
            &strs(&["rustc", "--out-dir", "/p/target/d", "--extern"]),
            &strs(&["CARGO_PKG_NAME=a", "CARGO_MANIFEST_DIR=/p"])
        ),
        None
    );
    // Package name that is not UTF-8.
    let env = vec![b"CARGO_PKG_NAME=\xff".to_vec(), b"CARGO_MANIFEST_DIR=/p".to_vec()];
    assert_eq!(ProcessKind::try_parse(b"rustc", &strs(&["rustc", "--out-dir", "/p/target/d"]), &env), None);
}

#[test]
fn try_parse_agrees_with_parse() {
    let env = strs(&["CARGO_MANIFEST_DIR=/p"]);
    let bin = b"/p/target/debug/build/foo-1/build-script-build";
    assert_eq!(
        ProcessKind::try_parse(bin, &strs(&[]), &env),
        Some(ProcessKind::parse(bin, &strs(&[]), &env))
    );
}

#[test]
fn extern_value_is_consumed_before_out_dir_check() {
    let args = strs(&["rustc", "--extern", "--out-dir", "--out-dir", "/p/target/x"]);
    let env = strs(&["CARGO_PKG_NAME=a", "CARGO_MANIFEST_DIR=/p"]);
    let kind = ProcessKind::parse(b"rustc", &args, &env);
    assert_eq!(
        kind,
        ProcessKind::Rustc {
            package: "a".to_string(),
            externs: vec!["--out-dir".to_string()],
            target_dir: b"/p/target".to_vec(),
            manifest_dir: b"/p".to_vec(),
        }
    );
}
