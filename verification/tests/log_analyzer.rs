use cargo_sandbox::kind::ProcessKind;
use cargo_sandbox::log_analyzer::{
    frame_log_entries, group_warnings, log_stream_predicate, LogParseError, SandboxLogKind, SandboxLogMessage,
};
use cargo_sandbox::policy::policy_message;

fn parse(text: &str) -> (String, SandboxLogKind, String) {
    let m = SandboxLogMessage::from_event_message(text).unwrap();
    (m.message, m.kind, m.package)
}

#[test]
fn build_script_violation() {
    let (m, k, p) = parse(
        "Sandbox: ping(123) deny(1) network-outbound /private/var/run/mDNSResponder\ninterpose-sandbox(456, build-script, foo)",
    );
    assert_eq!(m, "ping(123) deny(1) network-outbound /private/var/run/mDNSResponder");
    assert_eq!(k, SandboxLogKind::BuildScript);
    assert_eq!(p, "foo");
}

#[test]
fn duplicate_reports_are_stripped() {
    let (m, k, p) = parse("3 duplicate reports for Sandbox: curl(7) deny(1) file-read-data /x\ninterpose-sandbox(1, rustc, bar)");
    assert_eq!(m, "curl(7) deny(1) file-read-data /x");
    assert_eq!(k, SandboxLogKind::Rustc);
    assert_eq!(p, "bar");
    let (m, _, _) = parse("1 duplicate report for Sandbox: cc(7) deny(1) x\ninterpose-sandbox(1, rustc, bar)");
    assert_eq!(m, "cc(7) deny(1) x");
}

#[test]
fn last_marker_counts() {
    let (m, _, p) = parse("a\ninterpose-sandbox(1, rustc, x)\ninterpose-sandbox(2, build-script, y, z)");
    assert_eq!(m, "a\ninterpose-sandbox(1, rustc, x)");
    assert_eq!(p, "y, z");
}

#[test]
fn unknown_kind_is_an_error() {
    let r = SandboxLogMessage::from_event_message("Sandbox: x\ninterpose-sandbox(1, linker, foo)");
    assert_eq!(r.unwrap_err(), LogParseError::UnknownKind);
}

#[test]
fn malformed_messages() {
    assert!(SandboxLogMessage::try_from_event_message("Sandbox: x").is_none());
    assert!(SandboxLogMessage::try_from_event_message("x\ninterpose-sandbox(1, rustc, foo").is_none());
    assert!(SandboxLogMessage::try_from_event_message("x\ninterpose-sandbox(1)").is_none());
    assert!(SandboxLogMessage::try_from_event_message("x\ninterpose-sandbox(1, rustc)").is_none());
    assert!(SandboxLogMessage::try_from_event_message("x\ninterpose-sandbox(1, rustc, foo)").is_some());
}

#[test]
fn logged_origin_is_read_back() {
    let kind = ProcessKind::BuildScript {
        package: "my-sys".to_string(),
        target_dir: b"/p/target".to_vec(),
        manifest_dir: b"/p".to_vec(),
    };
    let text = format!("Sandbox: sh(9) deny(1) file-read-data /etc/hosts\n{}", policy_message(4242, &kind));
    let (m, k, p) = parse(&text);
    assert_eq!(m, "sh(9) deny(1) file-read-data /etc/hosts");
    assert_eq!(k, SandboxLogKind::BuildScript);
    assert_eq!(p, "my-sys");
}

#[test]
fn predicate_names_the_pid() {
    assert_eq!(
        log_stream_predicate(123),
        r#"process == "kernel" AND sender == "Sandbox" AND eventMessage CONTAINS "interpose-sandbox(123, ""#
    );
    assert_eq!(
        log_stream_predicate(0),
        r#"process == "kernel" AND sender == "Sandbox" AND eventMessage CONTAINS "interpose-sandbox(0, ""#
    );
}

#[test]
fn frames_of_a_log_stream() {
    let stream = b"Filtering the log data using \"x\"\n[{\n  \"a\" : {\"b\": 1},\n  \"eventMessage\" : \"m1\"\n},{\n  \"eventMessage\" : \"m2\"\n}]\n";
    let frames = frame_log_entries(stream);
    let frames: Vec<String> = frames.into_iter().map(|f| String::from_utf8(f).unwrap()).collect();
    assert_eq!(
        frames,
        vec![
            "{\n  \"a\" : {\"b\": 1},\n  \"eventMessage\" : \"m1\"\n}".to_string(),
            "{\n  \"eventMessage\" : \"m2\"\n}".to_string(),
        ]
    );
    for f in &frames {
        assert!(f.ends_with("\n}"));
    }
}

#[test]
fn frames_of_truncated_streams() {
    assert!(frame_log_entries(b"").is_empty());
    assert!(frame_log_entries(b"header only").is_empty());
    assert!(frame_log_entries(b"h\n[{\n \"x\": 1").is_empty());
}

fn msg(m: &str, kind: SandboxLogKind, p: &str) -> SandboxLogMessage {
    SandboxLogMessage { message: m.to_string(), kind, package: p.to_string() }
}

#[test]
fn warnings_are_grouped_and_deduplicated() {
    let entries = vec![
        msg("a", SandboxLogKind::BuildScript, "foo"),
        msg("b", SandboxLogKind::Rustc, "foo"),
        msg("c", SandboxLogKind::BuildScript, "foo"),
        msg("a", SandboxLogKind::BuildScript, "foo"),
        msg("d", SandboxLogKind::BuildScript, "bar"),
        msg("b", SandboxLogKind::Rustc, "foo"),
    ];
    let w = group_warnings(&entries);
    assert_eq!(w.len(), 3);
    assert_eq!((w[0].kind, w[0].package.as_str()), (SandboxLogKind::BuildScript, "foo"));
    assert_eq!(w[0].messages, vec!["a".to_string(), "c".to_string()]);
    assert_eq!((w[1].kind, w[1].package.as_str()), (SandboxLogKind::Rustc, "foo"));
    assert_eq!(w[1].messages, vec!["b".to_string()]);
    assert_eq!((w[2].kind, w[2].package.as_str()), (SandboxLogKind::BuildScript, "bar"));
    assert_eq!(w[2].messages, vec!["d".to_string()]);
    assert!(group_warnings(&vec![]).is_empty());
}

#[test]
fn predicate_needle_matches_only_own_messages() {
    let pred = log_stream_predicate(12);
    let needle = pred.split("CONTAINS \"").nth(1).unwrap().strip_suffix('"').unwrap().to_string();
    let kind = ProcessKind::Rustc { package: "foo".to_string(), externs: vec![], target_dir: vec![], manifest_dir: vec![] };
    assert!(policy_message(12, &kind).starts_with(&needle));
    assert!(!policy_message(123, &kind).contains(&needle));
    assert!(!policy_message(1, &kind).contains(&needle));
    assert!(!policy_message(-12, &kind).contains(&needle));
}
