//! What the interceptor does with a process that Cargo is about to spawn:
//! whether it runs it unchanged, refuses it or runs it inside
//! `sandbox-exec`, and with which arguments.

use vstd::prelude::*;
use crate::bytes::{byte_strings, concat_bytes, copy_range, has_prefix, starts_with};
use crate::config::{SandboxConfig, SandboxOption, SandboxPackageConfig, config_for_spec};
use crate::kind::{ProcessKind, ProcessKindView, lit, parse_spec};
use crate::policy::lifts_sandbox;

verus! {

/// The outcome for a process that Cargo is about to spawn.
#[derive(Debug)]
pub enum SpawnDecision {
    /// Not a build script or `rustc` compilation: spawned as Cargo asked.
    Unsandboxed,
    /// Configured `allow`: the sandbox is disabled, and the process is
    /// spawned as Cargo asked.
    Allowed(ProcessKind),
    /// Configured `warn`: spawned inside the sandbox with its profile turned
    /// by `warn_profile` into one that allows what it would deny and
    /// reports it, with the configuration resolved for it.
    Warned(ProcessKind, SandboxPackageConfig),
    /// Refused with `EACCES`: the program path starts with `-`, so
    /// `sandbox-exec` could read it as one of its own options.
    Refused,
    /// Spawned inside the sandbox for this kind of process, with the
    /// configuration resolved for it.
    Sandboxed(ProcessKind, SandboxPackageConfig),
}

/// Whether a program path starts with `-`.
pub open spec fn dash_path(path: Seq<u8>) -> bool {
    has_prefix(path, seq![45u8])
}

/// Decides how to spawn the program `path` with arguments `args` and
/// environment `env` under the configuration `config`. A build script or
/// `rustc` compilation whose resolved `default` option is `allow` is not
/// sandboxed; one whose option is `warn` runs under the reporting profile;
/// any other one is sandboxed with its resolved configuration. Where the
/// program is handed to `sandbox-exec`, `check_dash` asks for the refusal
/// of a path that starts with `-`. `None` exactly when the process cannot
/// be classified.
pub fn decide_spawn(
    config: &SandboxConfig,
    path: &[u8],
    args: &Vec<Vec<u8>>,
    env: &Vec<Vec<u8>>,
    check_dash: bool,
) -> (res: Option<SpawnDecision>)
    ensures
        res is None <==> parse_spec(path@, byte_strings(args@), byte_strings(env@)) is None,
        res matches Some(SpawnDecision::Unsandboxed) <==> parse_spec(
            path@,
            byte_strings(args@),
            byte_strings(env@),
        ) == Some(ProcessKindView::Other),
        res matches Some(SpawnDecision::Allowed(k)) ==> {
            &&& parse_spec(path@, byte_strings(args@), byte_strings(env@)) == Some(k@)
            &&& !(k@ is Other)
            &&& config_for_spec(config@, k@).default_ == Some(SandboxOption::Allow)
        },
        res matches Some(SpawnDecision::Warned(k, c)) ==> {
            &&& parse_spec(path@, byte_strings(args@), byte_strings(env@)) == Some(k@)
            &&& !(k@ is Other)
            &&& c@ == config_for_spec(config@, k@)
            &&& c@.default_ == Some(SandboxOption::Warn)
            &&& !(check_dash && dash_path(path@))
        },
        res matches Some(SpawnDecision::Refused) ==> {
            &&& check_dash
            &&& dash_path(path@)
            &&& parse_spec(path@, byte_strings(args@), byte_strings(env@)) matches Some(k)
            &&& !(k is Other)
            &&& config_for_spec(config@, k).default_ != Some(SandboxOption::Allow)
        },
        res matches Some(SpawnDecision::Sandboxed(k, c)) ==> {
            &&& parse_spec(path@, byte_strings(args@), byte_strings(env@)) == Some(k@)
            &&& !(k@ is Other)
            &&& c@ == config_for_spec(config@, k@)
            &&& !lifts_sandbox(c@.default_)
            &&& !(check_dash && dash_path(path@))
        },
{
    let kind = match ProcessKind::try_parse(path, args, env) {
        Some(k) => k,
        None => return None,
    };
    if kind.is_other() {
        return Some(SpawnDecision::Unsandboxed);
    }
    let resolved = config.config_for(&kind);
    if let Some(SandboxOption::Allow) = resolved.default_ {
        return Some(SpawnDecision::Allowed(kind));
    }
    let dash: [u8; 1] = [45u8];
    let d = dash.as_slice();
    assert(d@ =~= seq![45u8]);
    if check_dash && starts_with(path, d) {
        return Some(SpawnDecision::Refused);
    }
    if let Some(SandboxOption::Warn) = resolved.default_ {
        return Some(SpawnDecision::Warned(kind, resolved));
    }
    Some(SpawnDecision::Sandboxed(kind, resolved))
}

/// The program that runs a process inside a sandbox profile.
pub open spec fn sandbox_exec_program() -> Seq<u8> {
    lit("/usr/bin/sandbox-exec")
}

/// The arguments of a `sandbox-exec` run of `path` under `policy`: the
/// program, `-p`, the policy, the path, then the arguments that Cargo gave
/// after the program name.
pub open spec fn sandbox_exec_args_spec(policy: Seq<u8>, path: Seq<u8>, argv: Seq<Seq<u8>>) -> Seq<
    Seq<u8>,
> {
    seq![sandbox_exec_program(), lit("-p"), policy, path] + if argv.len() == 0 {
        Seq::empty()
    } else {
        argv.drop_first()
    }
}

/// The arguments that run `path` (started by Cargo with `argv`) inside
/// `sandbox-exec` under the profile `policy`.
pub fn sandbox_exec_args(policy: &[u8], path: &[u8], argv: &Vec<Vec<u8>>) -> (res: Vec<Vec<u8>>)
    ensures
        byte_strings(res@) == sandbox_exec_args_spec(policy@, path@, byte_strings(argv@)),
{
    let mut res: Vec<Vec<u8>> = Vec::new();
    res.push(concat_bytes("/usr/bin/sandbox-exec".as_bytes(), &[]));
    res.push(concat_bytes("-p".as_bytes(), &[]));
    res.push(copy_range(policy, 0, policy.len()));
    res.push(copy_range(path, 0, path.len()));
    let ghost a = byte_strings(argv@);
    let ghost head = seq![sandbox_exec_program(), lit("-p"), policy@, path@];
    assert(policy@.subrange(0, policy@.len() as int) =~= policy@);
    assert(path@.subrange(0, path@.len() as int) =~= path@);
    assert(byte_strings(res@) =~= head);
    if argv.len() == 0 {
        assert(head + Seq::<Seq<u8>>::empty() =~= head);
        return res;
    }
    let mut i: usize = 1;
    assert(a.subrange(1, 1) =~= Seq::<Seq<u8>>::empty());
    assert(head + a.subrange(1, 1) =~= head);
    while i < argv.len()
        invariant
            1 <= i <= argv@.len(),
            a == byte_strings(argv@),
            a.len() == argv@.len(),
            byte_strings(res@) == head + a.subrange(1, i as int),
        decreases argv@.len() - i,
    {
        let ghost before = byte_strings(res@);
        let item = copy_range(argv[i].as_slice(), 0, argv[i].len());
        assert(item@ =~= a[i as int]);
        res.push(item);
        assert(byte_strings(res@) =~= before.push(a[i as int]));
        assert(a.subrange(1, i + 1) =~= a.subrange(1, i as int).push(a[i as int]));
        assert(head + a.subrange(1, i + 1) =~= (head + a.subrange(1, i as int)).push(a[i as int]));
        i = i + 1;
    }
    assert(a.subrange(1, a.len() as int) =~= a.drop_first());
    res
}

/// `Path::join` of a relative name onto `base`: a `/` is put between them
/// unless `base` is empty or already ends with `/`.
pub open spec fn join_relative(base: Seq<u8>, name: Seq<u8>) -> Seq<u8> {
    if base.len() == 0 || base.last() == 47u8 {
        base + name
    } else {
        base.push(47u8) + name
    }
}

/// The project-local temporary directory of a build whose `target`
/// directory is `target_dir`.
pub fn project_local_tmpdir(target_dir: &[u8]) -> (res: Vec<u8>)
    ensures
        res@ == join_relative(target_dir@, lit("sandbox-tmp")),
{
    let name = "sandbox-tmp".as_bytes();
    if target_dir.len() == 0 || target_dir[target_dir.len() - 1] == 47u8 {
        concat_bytes(target_dir, name)
    } else {
        let mut base = copy_range(target_dir, 0, target_dir.len());
        base.push(47u8);
        let r = concat_bytes(base.as_slice(), name);
        assert(r@ =~= target_dir@.push(47u8) + name@);
        r
    }
}

} // verus!
