use cargo_sandbox::cli::insert_libraries;
use cargo_sandbox::env::{override_env, override_env_with_library};

fn strs(v: &[&str]) -> Vec<Vec<u8>> {
    v.iter().map(|s| s.as_bytes().to_vec()).collect()
}

fn texts(v: Vec<Vec<u8>>) -> Vec<String> {
    v.into_iter().map(|s| String::from_utf8(s).unwrap()).collect()
}

#[test]
fn interceptor_is_removed_and_tmpdir_replaced() {
    let env = strs(&[
        "HOME=/u",
        "DYLD_INSERT_LIBRARIES=/a/libfoo.dylib:/x/cargo-sandbox-interceptor:/b/libbar.dylib",
        "TMPDIR=/var/folders/xyz",
        "PATH=/bin",
    ]);
    let r = texts(override_env("/p/target/sandbox-tmp", &env, false));
    assert_eq!(
        r,
        vec![
            "HOME=/u",
            "DYLD_INSERT_LIBRARIES=/a/libfoo.dylib:/b/libbar.dylib",
            "TMPDIR=/p/target/sandbox-tmp",
            "PATH=/bin",
        ]
    );
}

#[test]
fn only_interceptor_leaves_empty_list() {
    let env = strs(&["DYLD_INSERT_LIBRARIES=/x/cargo-sandbox-interceptor"]);
    let r = texts(override_env("/t", &env, false));
    assert_eq!(r, vec!["DYLD_INSERT_LIBRARIES=", "TMPDIR=/t"]);
}

#[test]
fn tmpdir_is_appended_when_missing() {
    let env = strs(&["A=1"]);
    assert_eq!(texts(override_env("/t", &env, false)), vec!["A=1", "TMPDIR=/t"]);
    assert_eq!(texts(override_env("/t", &vec![], false)), vec!["TMPDIR=/t"]);
}

#[test]
fn only_the_variable_itself_is_replaced() {
    let env = strs(&["TMPDIRX=1", "TMPDIR=/old"]);
    assert_eq!(texts(override_env("/t", &env, false)), vec!["TMPDIRX=1", "TMPDIR=/t"]);
    let env = strs(&["TMPDIR_OLD=/a", "TMPDIR=/b"]);
    assert_eq!(texts(override_env("/t", &env, false)), vec!["TMPDIR_OLD=/a", "TMPDIR=/t"]);
    let env = strs(&["TMPX=1", "TEMPLATE=2"]);
    assert_eq!(texts(override_env("/t", &env, true)), vec!["TMPX=1", "TEMPLATE=2", "TMP=/t", "TEMP=/t"]);
}

#[test]
fn windows_sets_tmp_and_temp() {
    let env = strs(&["TEMP=/a", "X=1"]);
    assert_eq!(texts(override_env("/t", &env, true)), vec!["TEMP=/t", "X=1", "TMP=/t"]);
}

#[test]
fn other_library_names() {
    let env = strs(&["DYLD_INSERT_LIBRARIES=/l/libinterpose_sandbox.dylib:/m/x.dylib"]);
    let r = texts(override_env_with_library(b"libinterpose_sandbox.dylib", "/t", &env, false));
    assert_eq!(r, vec!["DYLD_INSERT_LIBRARIES=/m/x.dylib", "TMPDIR=/t"]);
}

#[test]
fn empty_library_segments_are_kept() {
    let env = strs(&["DYLD_INSERT_LIBRARIES=:/a:"]);
    let r = texts(override_env("/t", &env, false));
    assert_eq!(r, vec!["DYLD_INSERT_LIBRARIES=:/a:", "TMPDIR=/t"]);
}

#[test]
fn non_utf8_entries_are_passed_through() {
    let env = vec![b"K=\xff\xfe".to_vec()];
    let r = override_env("/t", &env, false);
    assert_eq!(r, vec![b"K=\xff\xfe".to_vec(), b"TMPDIR=/t".to_vec()]);
}

#[test]
fn inserted_interceptor_is_taken_out_again() {
    let libs = insert_libraries(Some(b"/a/libfoo.dylib:/b/libbar.dylib"), b"/x/bin/cargo-sandbox-interceptor");
    let mut entry = b"DYLD_INSERT_LIBRARIES=".to_vec();
    entry.extend(libs);
    let r = texts(override_env("/t", &vec![entry], false));
    assert_eq!(r, vec!["DYLD_INSERT_LIBRARIES=/a/libfoo.dylib:/b/libbar.dylib", "TMPDIR=/t"]);

    let libs = insert_libraries(None, b"/x/bin/cargo-sandbox-interceptor");
    let mut entry = b"DYLD_INSERT_LIBRARIES=".to_vec();
    entry.extend(libs);
    let r = texts(override_env("/t", &vec![entry], false));
    assert_eq!(r, vec!["DYLD_INSERT_LIBRARIES=", "TMPDIR=/t"]);
}

#[test]
fn override_env_twice_changes_nothing() {
    let env = strs(&[
        "DYLD_INSERT_LIBRARIES=/a/libfoo.dylib:/x/cargo-sandbox-interceptor",
        "TMP=/old",
        "TMPDIR=/var/folders/xyz",
    ]);
    for windows in [false, true] {
        let once = override_env("/p/target/sandbox-tmp", &env, windows);
        let twice = override_env("/p/target/sandbox-tmp", &once, windows);
        assert_eq!(twice, once);
    }
}
