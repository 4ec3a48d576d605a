use cargo_sandbox::config::{SandboxNetworkConfig, SandboxOption, SandboxPackageConfig, SandboxPathConfig};
use cargo_sandbox::kind::ProcessKind;
use cargo_sandbox::policy::{
    allow_network, boolean, extra_rules, network_rules, policy_message, quote_str, warn_profile, xcode_dir,
};

#[test]
fn quoting_escapes() {
    assert_eq!(quote_str("a\"b\n"), "\"a\\\"b\\n\"");
    assert_eq!(quote_str("plain"), "\"plain\"");
}

#[test]
fn scheme_booleans() {
    assert_eq!(boolean(true), "#t");
    assert_eq!(boolean(false), "#f");
}

#[test]
fn messages_name_the_origin() {
    let bs = ProcessKind::BuildScript { package: "foo".to_string(), target_dir: vec![], manifest_dir: vec![] };
    assert_eq!(policy_message(456, &bs), "interpose-sandbox(456, build-script, foo)");
    let rc = ProcessKind::Rustc { package: "bar".to_string(), externs: vec![], target_dir: vec![], manifest_dir: vec![] };
    assert_eq!(policy_message(0, &rc), "interpose-sandbox(0, rustc, bar)");
    assert_eq!(policy_message(-5, &rc), "interpose-sandbox(-5, rustc, bar)");
    assert_eq!(policy_message(i32::MIN, &rc), "interpose-sandbox(-2147483648, rustc, bar)");
}

#[test]
fn network_flag() {
    let mut c = SandboxPackageConfig { default_: None, network: SandboxNetworkConfig::default(), paths: vec![] };
    assert!(!allow_network(&c));
    c.network.all = Some(SandboxOption::Deny);
    assert!(!allow_network(&c));
    c.network.all = Some(SandboxOption::Warn);
    assert!(allow_network(&c));
    c.network.all = Some(SandboxOption::Allow);
    assert!(allow_network(&c));
}

#[test]
fn network_rules_follow_local_and_external() {
    let none = SandboxNetworkConfig::default();
    assert_eq!(network_rules(&none), "");
    let local = SandboxNetworkConfig { all: None, local: Some(SandboxOption::Allow), external: None };
    assert_eq!(network_rules(&local), "(allow network* (remote ip \"localhost:*\"))\n");
    assert_ne!(network_rules(&local), network_rules(&none));
    let mixed = SandboxNetworkConfig {
        all: Some(SandboxOption::Deny),
        local: Some(SandboxOption::Warn),
        external: Some(SandboxOption::Allow),
    };
    assert_eq!(
        network_rules(&mixed),
        "(deny network*)\n(allow network* (remote ip \"*:*\"))\n(allow network* (with report) (remote ip \"localhost:*\"))\n"
    );
}

#[test]
fn rules_for_configured_paths() {
    let paths = vec![
        SandboxPathConfig { path: b"/a".to_vec(), default_: Some(SandboxOption::Allow), read: None, write: Some(SandboxOption::Deny), execute: None },
        SandboxPathConfig { path: b"/b".to_vec(), default_: None, read: Some(SandboxOption::Warn), write: None, execute: Some(SandboxOption::Allow) },
        SandboxPathConfig { path: b"/c".to_vec(), default_: None, read: None, write: None, execute: None },
    ];
    let quoted = vec!["\"/a\"".to_string(), "\"/b\"".to_string(), "\"/c\"".to_string()];
    assert_eq!(
        extra_rules(&paths, &quoted),
        "(allow process-exec file* (subpath \"/a\"))\n(deny file-write* (subpath \"/a\"))\n(allow file-read* (with report) (subpath \"/b\"))\n(allow process-exec (subpath \"/b\"))\n"
    );
    assert_eq!(extra_rules(&vec![], &vec![]), "");
}

#[test]
fn xcode_directories() {
    assert_eq!(xcode_dir(b"/Applications/Xcode.app/Contents/Developer"), b"/Applications/Xcode.app".to_vec());
    assert_eq!(xcode_dir(b"/Library/Developer/CommandLineTools/SDKs"), b"/Library/Developer/CommandLineTools".to_vec());
    assert_eq!(xcode_dir(b"/Library/Developer/CommandLineTools"), b"/Library/Developer/CommandLineTools".to_vec());
    assert_eq!(xcode_dir(b"/Developer"), b"/Developer".to_vec());
    assert_eq!(xcode_dir(b"Contents/Developer/"), b"".to_vec());
}

#[test]
fn warn_profile_reports_instead_of_denying() {
    let policy = "(version 1)\n(deny default)\n(allow file-read* (subpath \"/a\"))\n(deny file-write* (subpath \"/b\"))\n";
    assert_eq!(
        warn_profile(policy),
        "(version 1)\n(allow default (with report))\n(allow file-read* (subpath \"/a\"))\n(allow file-write* (with report) (subpath \"/b\"))\n"
    );
    // Quoted strings and comments are left as they are.
    let policy = "; (deny x\n(allow file* (subpath \"/(deny \\\" y\"))\n";
    assert_eq!(warn_profile(policy), policy);
    assert_eq!(warn_profile(""), "");
}
