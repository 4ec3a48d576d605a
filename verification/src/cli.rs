//! Decisions of the `cargo-sandbox` command: which Cargo to run, how the
//! interceptor is injected and how the collected violations are reported.

use vstd::prelude::*;
use crate::bytes::{bytes_equal, concat_bytes, copy_range};
use crate::kind::lit;
use crate::log_analyzer::SandboxLogKind;
use crate::path::{file_name, file_name_of};

verus! {

/// Index of the last `.` in `n`.
pub open spec fn last_dot(n: Seq<u8>, i: int) -> Option<int>
    decreases i,
{
    if i <= 0 {
        None
    } else if n[i - 1] == 46u8 {
        Some(i - 1)
    } else {
        last_dot(n, i - 1)
    }
}

/// `Path::file_stem` of a file name: the part before its last `.`, or the
/// whole name when it has no `.` or only a leading one.
pub open spec fn stem_of_name(n: Seq<u8>) -> Seq<u8> {
    match last_dot(n, n.len() as int) {
        Some(k) => if k == 0 {
            n
        } else {
            n.subrange(0, k)
        },
        None => n,
    }
}

/// `Path::file_stem`.
pub open spec fn file_stem_of(p: Seq<u8>) -> Option<Seq<u8>> {
    match file_name_of(p) {
        Some(n) => Some(stem_of_name(n)),
        None => None,
    }
}

fn stem(n: &[u8]) -> (res: Vec<u8>)
    ensures
        res@ == stem_of_name(n@),
{
    let mut i: usize = n.len();
    while i > 0
        invariant
            i <= n@.len(),
            last_dot(n@, i as int) == last_dot(n@, n@.len() as int),
        decreases i,
    {
        if n[i - 1] == 46u8 {
            if i - 1 == 0 {
                let r = copy_range(n, 0, n.len());
                assert(r@ =~= n@);
                return r;
            }
            return copy_range(n, 0, i - 1);
        }
        i = i - 1;
    }
    let r = copy_range(n, 0, n.len());
    assert(r@ =~= n@);
    r
}

/// `Path::file_stem` on the bytes of a Unix path.
pub fn file_stem(p: &[u8]) -> (res: Option<Vec<u8>>)
    ensures
        res matches Some(v) ==> file_stem_of(p@) == Some(v@),
        res is None ==> file_stem_of(p@) is None,
{
    match file_name(p) {
        Some(n) => Some(stem(n.as_slice())),
        None => None,
    }
}

/// The Cargo program to run: the `CARGO` variable, unless it names
/// `cargo-sandbox` itself, else `cargo` from the search path.
pub open spec fn cargo_program_spec(cargo_env: Option<Seq<u8>>) -> Seq<u8> {
    match cargo_env {
        Some(c) => if file_stem_of(c) != Some(lit("cargo-sandbox")) {
            c
        } else {
            lit("cargo")
        },
        None => lit("cargo"),
    }
}

/// The Cargo program to run, given the value of the `CARGO` variable.
pub fn cargo_program(cargo_env: Option<&[u8]>) -> (res: Vec<u8>)
    ensures
        res@ == cargo_program_spec(
            match cargo_env {
                Some(c) => Some(c@),
                None => None,
            },
        ),
{
    match cargo_env {
        Some(c) => {
            let is_self = match file_stem(c) {
                Some(s) => bytes_equal(s.as_slice(), "cargo-sandbox".as_bytes()),
                None => false,
            };
            if !is_self {
                let r = copy_range(c, 0, c.len());
                assert(r@ =~= c@);
                return r;
            }
            let r = "cargo".as_bytes();
            concat_bytes(r, &[])
        },
        None => {
            let r = "cargo".as_bytes();
            concat_bytes(r, &[])
        },
    }
}

/// The library list to run Cargo with: the interceptor appended after a
/// `:` to the libraries already listed, or the interceptor alone.
pub open spec fn insert_libraries_spec(existing: Option<Seq<u8>>, interceptor: Seq<u8>) -> Seq<u8> {
    match existing {
        Some(libs) => libs.push(58u8) + interceptor,
        None => interceptor,
    }
}

/// The library list to run Cargo with, given the current value of the
/// preload variable.
pub fn insert_libraries(existing: Option<&[u8]>, interceptor: &[u8]) -> (res: Vec<u8>)
    ensures
        res@ == insert_libraries_spec(
            match existing {
                Some(l) => Some(l@),
                None => None,
            },
            interceptor@,
        ),
{
    match existing {
        Some(libs) => {
            let mut v = copy_range(libs, 0, libs.len());
            v.push(58u8);
            let r = concat_bytes(v.as_slice(), interceptor);
            assert(r@ =~= libs@.push(58u8) + interceptor@);
            r
        },
        None => {
            let r = copy_range(interceptor, 0, interceptor.len());
            assert(r@ =~= interceptor@);
            r
        },
    }
}

/// `cargo-sandbox` was started by Cargo as `cargo sandbox ...`, which is
/// refused: Cargo prefers aliases in untrusted configuration files over
/// subcommands.
pub fn invoked_as_subcommand(first_arg: Option<&[u8]>) -> (res: bool)
    ensures
        res == (first_arg matches Some(a) && a@ == lit("sandbox")),
{
    match first_arg {
        Some(a) => bytes_equal(a, "sandbox".as_bytes()),
        None => false,
    }
}

/// The text that introduces the violations of one origin.
pub open spec fn warning_header_spec(kind: SandboxLogKind, package: Seq<char>) -> Seq<char> {
    match kind {
        SandboxLogKind::Rustc => "hit sandbox restriction in the compilation of `"@ + package + "`: "@,
        SandboxLogKind::BuildScript => "hit sandbox restriction in `"@ + package + "`'s build script:"@,
    }
}

/// The text that introduces the violations of one origin.
pub fn warning_header(kind: SandboxLogKind, package: &str) -> (res: String)
    ensures
        res@ == warning_header_spec(kind, package@),
{
    match kind {
        SandboxLogKind::Rustc => {
            let mut s = String::from_str("hit sandbox restriction in the compilation of `");
            s.append(package);
            s.append("`: ");
            s
        },
        SandboxLogKind::BuildScript => {
            let mut s = String::from_str("hit sandbox restriction in `");
            s.append(package);
            s.append("`'s build script:");
            s
        },
    }
}

/// What to do next while walking up the process tree in search of the
/// `cargo-sandbox` process.
#[derive(Debug, Clone, Copy, PartialEq, Eq, Structural)]
pub enum PidWalk {
    /// The search ends with this pid: the process named as searched, or 0
    /// when there is none.
    Done(i32),
    /// Look at this process next.
    Visit(i32),
}

/// One step of the walk from process `pid`, given its name and parent pid
/// (or `None` when they could not be read): the walk finds `pid` when the
/// process is named `target`; it ends without a find (0) at pid 0 and at a
/// process whose information cannot be read; otherwise it goes on with the
/// parent. So a walk that ends with a nonzero pid has found a process named
/// `target`.
pub fn pid_walk_step(pid: i32, info: Option<(&[u8], u32)>, target: &[u8]) -> (res: PidWalk)
    ensures
        pid == 0 ==> res == PidWalk::Done(pid),
        pid != 0 && info is None ==> res == PidWalk::Done(0),
        pid != 0 && info is Some && info.unwrap().0@ == target@ ==> res == PidWalk::Done(pid),
        pid != 0 && info is Some && info.unwrap().0@ != target@ ==> res == PidWalk::Visit(
            info.unwrap().1 as i32,
        ),
{
    if pid == 0 {
        return PidWalk::Done(pid);
    }
    match info {
        None => PidWalk::Done(0),
        Some((name, ppid)) => {
            if bytes_equal(name, target) {
                PidWalk::Done(pid)
            } else {
                PidWalk::Visit(ppid as i32)
            }
        },
    }
}

/// `cargo-sandbox` never runs itself as Cargo: the program it runs never
/// has the file stem `cargo-sandbox`, whatever the `CARGO` variable holds.
pub proof fn law_never_runs_itself(cargo_env: Option<Seq<u8>>)
    ensures
        file_stem_of(cargo_program_spec(cargo_env)) != Some(lit("cargo-sandbox")),
{
    reveal_strlit("cargo");
    reveal_strlit("cargo-sandbox");
    vstd::utf8::is_ascii_chars_encode_utf8("cargo"@);
    vstd::utf8::is_ascii_chars_encode_utf8("cargo-sandbox"@);
    let c = lit("cargo");
    assert(c =~= seq![99u8, 97u8, 114u8, 103u8, 111u8]);
    assert(lit("cargo-sandbox").len() == 13);
    if cargo_program_spec(cargo_env) == c {
        reveal_with_fuel(crate::path::seg_start, 6);
        reveal_with_fuel(last_dot, 6);
        assert(crate::path::last_end(c) == 5);
        assert(crate::path::last_start(c) == 0);
        assert(c.subrange(0, 5) =~= c);
        assert(file_name_of(c) == Some(c));
        assert(stem_of_name(c) == c);
    }
}

} // verus!
