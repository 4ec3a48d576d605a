use cargo_sandbox::config::{
    PackageConfigs, SandboxConfig, SandboxNetworkConfig, SandboxOption, SandboxPackageConfig, SandboxPathConfig,
};
use cargo_sandbox::kind::ProcessKind;

fn path(p: &str, read: Option<SandboxOption>) -> SandboxPathConfig {
    SandboxPathConfig { path: p.as_bytes().to_vec(), default_: None, read, write: None, execute: None }
}

fn paths_of(c: &SandboxPackageConfig) -> Vec<(String, Option<SandboxOption>)> {
    c.paths.iter().map(|p| (String::from_utf8(p.path.clone()).unwrap(), p.read)).collect()
}

fn build_script(package: &str) -> ProcessKind {
    ProcessKind::BuildScript {
        package: package.to_string(),
        target_dir: b"/p/target".to_vec(),
        manifest_dir: b"/p".to_vec(),
    }
}

fn rustc(externs: &[&str]) -> ProcessKind {
    ProcessKind::Rustc {
        package: "app".to_string(),
        externs: externs.iter().map(|s| s.to_string()).collect(),
        target_dir: b"/p/target".to_vec(),
        manifest_dir: b"/p".to_vec(),
    }
}

fn global_deny() -> SandboxConfig {
    let mut c = SandboxConfig::default();
    c.global = Some(SandboxOption::Deny);
    c.paths.push(path("/etc/passwd", Some(SandboxOption::Allow)));
    c
}

#[test]
fn option_keywords() {
    assert_eq!(SandboxOption::Deny.as_str(), "deny");
    assert_eq!(SandboxOption::Warn.as_str(), "warn");
    assert_eq!(SandboxOption::Allow.as_str(), "allow");
}

#[test]
fn defaults_are_empty() {
    let c = SandboxConfig::default();
    assert_eq!(c.global, None);
    assert_eq!(c.network, SandboxNetworkConfig { all: None, local: None, external: None });
    assert!(c.paths.is_empty());
    assert_eq!(c.build_scripts.len(), 0);
    assert_eq!(c.proc_macros.len(), 0);
    assert_eq!(SandboxNetworkConfig::default().all, None);
    assert!(SandboxPathConfig::default().path.is_empty());
}

#[test]
fn unsandboxed_process_gets_global_config() {
    let c = global_deny();
    let r = c.config_for(&ProcessKind::Other);
    assert_eq!(r.default_, Some(SandboxOption::Deny));
    assert_eq!(paths_of(&r), vec![("/etc/passwd".to_string(), Some(SandboxOption::Allow))]);
}

#[test]
fn build_script_entry_overrides_and_extends() {
    let mut c = global_deny();
    c.network.local = Some(SandboxOption::Warn);
    c.build_scripts.insert(
        "foo".to_string(),
        SandboxPackageConfig {
            default_: None,
            network: SandboxNetworkConfig { all: Some(SandboxOption::Allow), local: None, external: None },
            paths: vec![path("/etc/passwd", Some(SandboxOption::Deny))],
        },
    );
    let r = c.config_for(&build_script("foo"));
    assert_eq!(r.default_, Some(SandboxOption::Deny));
    assert_eq!(r.network.all, Some(SandboxOption::Allow));
    assert_eq!(r.network.local, Some(SandboxOption::Warn));
    assert_eq!(
        paths_of(&r),
        vec![
            ("/etc/passwd".to_string(), Some(SandboxOption::Allow)),
            ("/etc/passwd".to_string(), Some(SandboxOption::Deny)),
        ]
    );
}

#[test]
fn unrelated_package_entry_is_ignored() {
    let mut c = global_deny();
    c.build_scripts.insert(
        "bar".to_string(),
        SandboxPackageConfig {
            default_: Some(SandboxOption::Allow),
            network: SandboxNetworkConfig::default(),
            paths: vec![path("/etc/passwd", Some(SandboxOption::Deny))],
        },
    );
    let r = c.config_for(&build_script("foo"));
    assert_eq!(r.default_, Some(SandboxOption::Deny));
    assert_eq!(paths_of(&r), vec![("/etc/passwd".to_string(), Some(SandboxOption::Allow))]);
}

#[test]
fn proc_macro_entries_apply_in_extern_order() {
    let mut c = global_deny();
    c.proc_macros.insert(
        "sqlx".to_string(),
        SandboxPackageConfig {
            default_: Some(SandboxOption::Warn),
            network: SandboxNetworkConfig { all: Some(SandboxOption::Allow), local: None, external: None },
            paths: vec![path("foo.db", Some(SandboxOption::Allow))],
        },
    );
    c.proc_macros.insert(
        "serde".to_string(),
        SandboxPackageConfig {
            default_: Some(SandboxOption::Allow),
            network: SandboxNetworkConfig::default(),
            paths: vec![],
        },
    );
    let r = c.config_for(&rustc(&["sqlx", "tokio", "serde"]));
    assert_eq!(r.default_, Some(SandboxOption::Allow));
    assert_eq!(r.network.all, Some(SandboxOption::Allow));
    assert_eq!(paths_of(&r).len(), 2);
    let r = c.config_for(&rustc(&["serde", "sqlx"]));
    assert_eq!(r.default_, Some(SandboxOption::Warn));
    let r = c.config_for(&rustc(&["tokio"]));
    assert_eq!(r.default_, Some(SandboxOption::Deny));
    assert_eq!(r.network.all, None);
}

#[test]
fn proc_macro_entries_do_not_apply_to_build_scripts() {
    let mut c = global_deny();
    c.proc_macros.insert(
        "foo".to_string(),
        SandboxPackageConfig { default_: Some(SandboxOption::Allow), network: SandboxNetworkConfig::default(), paths: vec![] },
    );
    assert_eq!(c.config_for(&build_script("foo")).default_, Some(SandboxOption::Deny));
}

#[test]
fn package_configs_read_back_last_write() {
    let mut m = PackageConfigs::new();
    assert!(m.get("a").is_none());
    m.insert("a".to_string(), SandboxPackageConfig { default_: Some(SandboxOption::Deny), network: SandboxNetworkConfig::default(), paths: vec![] });
    m.insert("b".to_string(), SandboxPackageConfig { default_: Some(SandboxOption::Warn), network: SandboxNetworkConfig::default(), paths: vec![] });
    m.insert("a".to_string(), SandboxPackageConfig { default_: Some(SandboxOption::Allow), network: SandboxNetworkConfig::default(), paths: vec![] });
    assert_eq!(m.len(), 2);
    assert_eq!(m.get("a").unwrap().default_, Some(SandboxOption::Allow));
    assert_eq!(m.get("b").unwrap().default_, Some(SandboxOption::Warn));
    assert!(m.get("c").is_none());
}

#[test]
fn duplicates_copy_contents() {
    let p = path("/x", Some(SandboxOption::Warn));
    let q = p.duplicate();
    assert_eq!(q.path, p.path);
    assert_eq!(q.read, p.read);
    let c = SandboxPackageConfig { default_: Some(SandboxOption::Deny), network: SandboxNetworkConfig::default(), paths: vec![p] };
    let d = c.duplicate();
    assert_eq!(d.default_, c.default_);
    assert_eq!(paths_of(&d), paths_of(&c));
}

#[test]
fn option_words_round_trip() {
    for o in [SandboxOption::Deny, SandboxOption::Warn, SandboxOption::Allow] {
        assert_eq!(SandboxOption::from_word(o.as_str()), Some(o));
    }
    assert_eq!(SandboxOption::Warn.as_str(), "warn");
    assert_eq!(SandboxOption::from_word("allow"), Some(SandboxOption::Allow));
    assert_eq!(SandboxOption::from_word("Allow"), None);
    assert_eq!(SandboxOption::from_word(""), None);
}

#[test]
fn duplicate_keeps_execute() {
    let p = SandboxPathConfig {
        path: b"/nix/store".to_vec(),
        default_: None,
        read: Some(SandboxOption::Allow),
        write: None,
        execute: Some(SandboxOption::Allow),
    };
    assert_eq!(p.duplicate().execute, Some(SandboxOption::Allow));
}
