use cargo_sandbox::cli::{
    cargo_program, file_stem, insert_libraries, invoked_as_subcommand, pid_walk_step, warning_header, PidWalk,
};
use cargo_sandbox::log_analyzer::SandboxLogKind;

#[test]
fn cargo_program_choice() {
    assert_eq!(cargo_program(Some(b"/home/u/.cargo/bin/cargo")), b"/home/u/.cargo/bin/cargo".to_vec());
    assert_eq!(cargo_program(Some(b"/home/u/.cargo/bin/cargo-sandbox")), b"cargo".to_vec());
    assert_eq!(cargo_program(Some(b"C:/bin/cargo-sandbox.exe")), b"cargo".to_vec());
    assert_eq!(cargo_program(None), b"cargo".to_vec());
    assert_eq!(cargo_program(Some(b"/")), b"/".to_vec());
}

#[test]
fn file_stems_match_std() {
    for p in ["a.tar.gz", ".bashrc", "/x/y", "dir/file.rs", "", "/", "a.", "x/..", "cargo-sandbox.exe"] {
        let expected = std::path::Path::new(p).file_stem().map(|s| s.to_str().unwrap().as_bytes().to_vec());
        assert_eq!(file_stem(p.as_bytes()), expected, "stem of {p:?}");
    }
}

#[test]
fn interceptor_is_appended() {
    assert_eq!(insert_libraries(Some(b"/a.dylib"), b"/i"), b"/a.dylib:/i".to_vec());
    assert_eq!(insert_libraries(Some(b""), b"/i"), b":/i".to_vec());
    assert_eq!(insert_libraries(None, b"/i"), b"/i".to_vec());
}

#[test]
fn subcommand_invocation_is_detected() {
    assert!(invoked_as_subcommand(Some(b"sandbox")));
    assert!(!invoked_as_subcommand(Some(b"build")));
    assert!(!invoked_as_subcommand(None));
}

#[test]
fn warning_headers() {
    assert_eq!(
        warning_header(SandboxLogKind::Rustc, "foo"),
        "hit sandbox restriction in the compilation of `foo`: "
    );
    assert_eq!(
        warning_header(SandboxLogKind::BuildScript, "foo"),
        "hit sandbox restriction in `foo`'s build script:"
    );
}

#[test]
fn pid_walk() {
    assert_eq!(pid_walk_step(0, None, b"cargo-sandbox"), PidWalk::Done(0));
    assert_eq!(pid_walk_step(7, None, b"cargo-sandbox"), PidWalk::Done(0));
    assert_eq!(pid_walk_step(7, Some((b"cargo-sandbox", 1)), b"cargo-sandbox"), PidWalk::Done(7));
    assert_eq!(pid_walk_step(7, Some((b"cargo", 3)), b"cargo-sandbox"), PidWalk::Visit(3));
}

#[test]
fn never_runs_itself() {
    let values: [Option<&[u8]>; 5] = [
        None,
        Some(b"cargo-sandbox"),
        Some(b"/bin/cargo-sandbox"),
        Some(b"/bin/cargo-sandbox.exe"),
        Some(b"/bin/cargo"),
    ];
    for v in values {
        assert_ne!(file_stem(&cargo_program(v)), Some(b"cargo-sandbox".to_vec()));
    }
}
