//! Deciding how a process that Cargo is about to spawn must be sandboxed.

use vstd::prelude::*;
use vstd::utf8::*;
use crate::bytes::{byte_strings, bytes_equal, copy_range, has_prefix, starts_with};
use crate::path::{ancestor_named, lemma_ancestor_named, file_name, file_name_of, find_ancestor_named, parent, parent_of};
use crate::text::{rsplit_once, rsplit_once_spec, split_once, split_once_spec, utf8_to_string};

verus! {

/// How we should sandbox the process that is about to be spawned.
///
/// Paths are the raw bytes of Unix paths.
#[derive(PartialEq, Eq, Hash, Debug, Clone)]
pub enum ProcessKind {
    BuildScript { package: String, target_dir: Vec<u8>, manifest_dir: Vec<u8> },
    Rustc { package: String, externs: Vec<String>, target_dir: Vec<u8>, manifest_dir: Vec<u8> },
    Other,
}

/// The mathematical value of a [`ProcessKind`].
pub enum ProcessKindView {
    BuildScript { package: Seq<char>, target_dir: Seq<u8>, manifest_dir: Seq<u8> },
    Rustc {
        package: Seq<char>,
        externs: Seq<Seq<char>>,
        target_dir: Seq<u8>,
        manifest_dir: Seq<u8>,
    },
    Other,
}

/// The views of a list of strings.
pub open spec fn strings_view(v: Seq<String>) -> Seq<Seq<char>> {
    v.map_values(|s: String| s@)
}

impl View for ProcessKind {
    type V = ProcessKindView;

    open spec fn view(&self) -> ProcessKindView {
        match self {
            ProcessKind::BuildScript { package, target_dir, manifest_dir } => {
                ProcessKindView::BuildScript {
                    package: package@,
                    target_dir: target_dir@,
                    manifest_dir: manifest_dir@,
                }
            },
            ProcessKind::Rustc { package, externs, target_dir, manifest_dir } => {
                ProcessKindView::Rustc {
                    package: package@,
                    externs: strings_view(externs@),
                    target_dir: target_dir@,
                    manifest_dir: manifest_dir@,
                }
            },
            ProcessKind::Other => ProcessKindView::Other,
        }
    }
}

/// The view of an optional byte string.
pub open spec fn opt_bytes(o: Option<Vec<u8>>) -> Option<Seq<u8>> {
    match o {
        Some(d) => Some(d@),
        None => None,
    }
}

/// The bytes of a string literal.
pub open spec fn lit(s: &str) -> Seq<u8> {
    encode_utf8(s@)
}

/// The value of the first environment entry `KEY=value` whose text starts
/// with `key` (which includes the `=`).
pub open spec fn env_value(env: Seq<Seq<u8>>, key: Seq<u8>) -> Option<Seq<u8>>
    decreases env.len(),
{
    if env.len() == 0 {
        None
    } else if has_prefix(env[0], key) {
        Some(env[0].subrange(key.len() as int, env[0].len() as int))
    } else {
        env_value(env.drop_first(), key)
    }
}

/// The crate name of an `--extern` argument: the text before the first `=`,
/// or the whole argument.
pub open spec fn extern_name(arg: Seq<char>) -> Seq<char> {
    match split_once_spec(arg, "="@) {
        Some((name, _path)) => name,
        None => arg,
    }
}

/// Walks the `rustc` arguments from index `i`, collecting the crate names
/// of `--extern NAME[=PATH]` and the last `--out-dir DIR`. `None` when a
/// flag lacks its value or an extern is not UTF-8.
pub open spec fn scan_rustc_args(
    args: Seq<Seq<u8>>,
    i: int,
    externs: Seq<Seq<char>>,
    out_dir: Option<Seq<u8>>,
) -> Option<(Seq<Seq<char>>, Option<Seq<u8>>)>
    decreases args.len() - i,
{
    if i < 0 || i >= args.len() {
        Some((externs, out_dir))
    } else if args[i] == lit("--extern") {
        if i + 1 >= args.len() || !valid_utf8(args[i + 1]) {
            None
        } else {
            scan_rustc_args(args, i + 2, externs.push(extern_name(decode_utf8(args[i + 1]))), out_dir)
        }
    } else if args[i] == lit("--out-dir") {
        if i + 1 >= args.len() {
            None
        } else {
            scan_rustc_args(args, i + 2, externs, Some(args[i + 1]))
        }
    } else {
        scan_rustc_args(args, i + 1, externs, out_dir)
    }
}

/// `rustc` is only queried for information, not compiling anything.
pub open spec fn is_rustc_query(args: Seq<Seq<u8>>) -> bool {
    args.len() > 1 && (args[1] == lit("-vV") || args[1] == lit("-") || args[1] == lit(
        "--print=target-spec-json",
    ))
}

/// Classification of a build-script invocation; `None` when it cannot be
/// classified.
pub open spec fn parse_build_script(bin: Seq<u8>, env: Seq<Seq<u8>>) -> Option<ProcessKindView> {
    match parent_of(bin) {
        None => None,
        Some(dir) => match file_name_of(dir) {
            None => None,
            Some(build_dir) => if !valid_utf8(build_dir) {
                None
            } else {
                match rsplit_once_spec(decode_utf8(build_dir), "-"@) {
                    None => None,
                    Some((package, _suffix)) => match ancestor_named(bin, lit("target")) {
                        None => None,
                        Some(target_dir) => match env_value(env, lit("CARGO_MANIFEST_DIR=")) {
                            None => None,
                            Some(manifest_dir) => Some(
                                ProcessKindView::BuildScript { package, target_dir, manifest_dir },
                            ),
                        },
                    },
                }
            },
        },
    }
}

/// Classification of a `rustc` invocation; `None` when it cannot be classified.
pub open spec fn parse_rustc(args: Seq<Seq<u8>>, env: Seq<Seq<u8>>) -> Option<ProcessKindView> {
    if is_rustc_query(args) {
        Some(ProcessKindView::Other)
    } else {
        match env_value(env, lit("CARGO_PKG_NAME=")) {
            None => None,
            Some(package) => if !valid_utf8(package) {
                None
            } else {
                match scan_rustc_args(args, 0, Seq::empty(), None) {
                    None => None,
                    Some((externs, out_dir)) => {
                        let dir = match out_dir {
                            Some(d) => Some(d),
                            None => env_value(env, lit("OUT_DIR=")),
                        };
                        match dir {
                            None => None,
                            Some(d) => match ancestor_named(d, lit("target")) {
                                None => None,
                                Some(target_dir) => match env_value(
                                    env,
                                    lit("CARGO_MANIFEST_DIR="),
                                ) {
                                    None => None,
                                    Some(manifest_dir) => Some(
                                        ProcessKindView::Rustc {
                                            package: decode_utf8(package),
                                            externs,
                                            target_dir,
                                            manifest_dir,
                                        },
                                    ),
                                },
                            },
                        }
                    },
                }
            },
        }
    }
}

/// How the process `bin` with arguments `args` and environment `env` is to
/// be sandboxed; `None` when the invocation cannot be classified.
pub open spec fn parse_spec(bin: Seq<u8>, args: Seq<Seq<u8>>, env: Seq<Seq<u8>>) -> Option<
    ProcessKindView,
> {
    match file_name_of(bin) {
        None => None,
        Some(name) => if name == lit("build-script-build") {
            parse_build_script(bin, env)
        } else if name == lit("rustc") {
            parse_rustc(args, env)
        } else {
            Some(ProcessKindView::Other)
        },
    }
}

impl ProcessKindView {
    pub open spec fn is_other(self) -> bool {
        self is Other
    }

    pub open spec fn package(self) -> Seq<char> {
        match self {
            ProcessKindView::BuildScript { package, .. } => package,
            ProcessKindView::Rustc { package, .. } => package,
            ProcessKindView::Other => Seq::empty(),
        }
    }

    pub open spec fn target_dir(self) -> Seq<u8> {
        match self {
            ProcessKindView::BuildScript { target_dir, .. } => target_dir,
            ProcessKindView::Rustc { target_dir, .. } => target_dir,
            ProcessKindView::Other => Seq::empty(),
        }
    }

    pub open spec fn manifest_dir(self) -> Seq<u8> {
        match self {
            ProcessKindView::BuildScript { manifest_dir, .. } => manifest_dir,
            ProcessKindView::Rustc { manifest_dir, .. } => manifest_dir,
            ProcessKindView::Other => Seq::empty(),
        }
    }
}

/// Only build scripts and `rustc` compilations are sandboxed, and the
/// target directory of a sandboxed process is a directory named `target`:
/// for a build script, an ancestor of the build script itself.
pub proof fn law_sandboxed_kinds(bin: Seq<u8>, args: Seq<Seq<u8>>, env: Seq<Seq<u8>>)
    ensures
        parse_spec(bin, args, env) is Some && !(parse_spec(bin, args, env).unwrap() is Other) ==> {
            let k = parse_spec(bin, args, env).unwrap();
            &&& file_name_of(bin) == Some(lit("build-script-build")) || file_name_of(bin) == Some(
                lit("rustc"),
            )
            &&& file_name_of(k.target_dir()) == Some(lit("target"))
            &&& k is BuildScript ==> k.target_dir() == bin.subrange(0, k.target_dir().len() as int)
        },
{
    lemma_ancestor_named(bin, lit("target"));
    if let Some(d) = env_value(env, lit("OUT_DIR=")) {
        lemma_ancestor_named(d, lit("target"));
    }
    if let Some((externs, out_dir)) = scan_rustc_args(args, 0, Seq::empty(), None) {
        if let Some(d) = out_dir {
            lemma_ancestor_named(d, lit("target"));
        }
    }
}

/// A `rustc` that is only asked for its version, its target specification
/// or to read from standard input (`-vV`, `--print=target-spec-json`, `-`
/// as first argument) is not sandboxed, whatever its environment.
pub proof fn law_rustc_queries_unsandboxed(bin: Seq<u8>, args: Seq<Seq<u8>>, env: Seq<Seq<u8>>)
    requires
        file_name_of(bin) == Some(lit("rustc")),
        is_rustc_query(args),
    ensures
        parse_spec(bin, args, env) == Some(ProcessKindView::Other),
{
    reveal_strlit("rustc");
    reveal_strlit("build-script-build");
    vstd::utf8::is_ascii_chars_encode_utf8("rustc"@);
    vstd::utf8::is_ascii_chars_encode_utf8("build-script-build"@);
    assert(lit("rustc").len() != lit("build-script-build").len());
}

/// The value of the first entry of `env` that starts with `key`.
pub fn find_env_value(env: &Vec<Vec<u8>>, key: &[u8]) -> (res: Option<Vec<u8>>)
    ensures
        res matches Some(v) ==> env_value(byte_strings(env@), key@) == Some(v@),
        res is None ==> env_value(byte_strings(env@), key@) is None,
{
    let mut i: usize = 0;
    assert(byte_strings(env@).subrange(0, env@.len() as int) =~= byte_strings(env@));
    while i < env.len()
        invariant
            i <= env@.len(),
            env_value(byte_strings(env@).subrange(i as int, env@.len() as int), key@) == env_value(
                byte_strings(env@),
                key@,
            ),
        decreases env@.len() - i,
    {
        let entry = env[i].as_slice();
        let ghost rest = byte_strings(env@).subrange(i as int, env@.len() as int);
        assert(rest[0] == entry@);
        if starts_with(entry, key) {
            return Some(copy_range(entry, key.len(), entry.len()));
        }
        assert(rest.drop_first() =~= byte_strings(env@).subrange(i + 1, env@.len() as int));
        i = i + 1;
    }
    assert(byte_strings(env@).subrange(i as int, env@.len() as int).len() == 0);
    None
}

fn extern_name_of(arg: &str) -> (res: String)
    ensures
        res@ == extern_name(arg@),
{
    match split_once(arg, "=") {
        Some((name, _path)) => name,
        None => arg.to_owned(),
    }
}

/// The crate names passed with `--extern` and the last `--out-dir`.
fn scan_args(args: &Vec<Vec<u8>>) -> (res: Option<(Vec<String>, Option<Vec<u8>>)>)
    ensures
        res matches Some((externs, out_dir)) ==> scan_rustc_args(
            byte_strings(args@),
            0,
            Seq::empty(),
            None,
        ) == Some(
            (
                strings_view(externs@),
                opt_bytes(out_dir),
            ),
        ),
        res is None ==> scan_rustc_args(byte_strings(args@), 0, Seq::empty(), None) is None,
{
    let extern_flag = "--extern".as_bytes();
    let out_dir_flag = "--out-dir".as_bytes();
    let mut externs: Vec<String> = Vec::new();
    let mut out_dir: Option<Vec<u8>> = None;
    let mut i: usize = 0;
    let ghost a = byte_strings(args@);
    assert(strings_view(externs@) =~= Seq::<Seq<char>>::empty());
    while i < args.len()
        invariant
            i <= args@.len() + 1,
            a == byte_strings(args@),
            a.len() == args@.len(),
            extern_flag@ == lit("--extern"),
            out_dir_flag@ == lit("--out-dir"),
            scan_rustc_args(
                a,
                i as int,
                strings_view(externs@),
                opt_bytes(out_dir),
            ) == scan_rustc_args(a, 0, Seq::empty(), None),
        decreases args@.len() + 1 - i,
    {
        let arg = args[i].as_slice();
        assert(a[i as int] == arg@);
        if bytes_equal(arg, extern_flag) {
            if i + 1 >= args.len() {
                return None;
            }
            let value = args[i + 1].as_slice();
            assert(a[i + 1] == value@);
            match utf8_to_string(value) {
                Some(s) => {
                    let name = extern_name_of(s.as_str());
                    let ghost before = externs@;
                    externs.push(name);
                    assert(strings_view(externs@) =~= strings_view(before).push(name@));
                },
                None => {
                    return None;
                },
            }
            i = i + 2;
        } else if bytes_equal(arg, out_dir_flag) {
            if i + 1 >= args.len() {
                return None;
            }
            let value = copy_range(args[i + 1].as_slice(), 0, args[i + 1].len());
            assert(a[i + 1] == value@);
            out_dir = Some(value);
            i = i + 2;
        } else {
            i = i + 1;
        }
    }
    Some((externs, out_dir))
}

fn parse_build_script_exec(bin: &[u8], env: &Vec<Vec<u8>>) -> (res: Option<ProcessKind>)
    ensures
        res matches Some(k) ==> parse_build_script(bin@, byte_strings(env@)) == Some(k@),
        res is None ==> parse_build_script(bin@, byte_strings(env@)) is None,
{
    let dir = match parent(bin) {
        Some(d) => d,
        None => return None,
    };
    let build_dir = match file_name(dir.as_slice()) {
        Some(b) => b,
        None => return None,
    };
    let build_dir = match utf8_to_string(build_dir.as_slice()) {
        Some(s) => s,
        None => return None,
    };
    let package = match rsplit_once(build_dir.as_str(), "-") {
        Some((package, _suffix)) => package,
        None => return None,
    };
    let target_dir = match find_ancestor_named(bin, "target".as_bytes()) {
        Some(t) => t,
        None => return None,
    };
    let manifest_dir = match find_env_value(env, "CARGO_MANIFEST_DIR=".as_bytes()) {
        Some(m) => m,
        None => return None,
    };
    Some(ProcessKind::BuildScript { package, target_dir, manifest_dir })
}

fn is_query(args: &Vec<Vec<u8>>) -> (res: bool)
    ensures
        res == is_rustc_query(byte_strings(args@)),
{
    if args.len() <= 1 {
        return false;
    }
    let first = args[1].as_slice();
    assert(byte_strings(args@)[1] == first@);
    bytes_equal(first, "-vV".as_bytes()) || bytes_equal(first, "-".as_bytes()) || bytes_equal(
        first,
        "--print=target-spec-json".as_bytes(),
    )
}

fn parse_rustc_exec(args: &Vec<Vec<u8>>, env: &Vec<Vec<u8>>) -> (res: Option<ProcessKind>)
    ensures
        res matches Some(k) ==> parse_rustc(byte_strings(args@), byte_strings(env@)) == Some(k@),
        res is None ==> parse_rustc(byte_strings(args@), byte_strings(env@)) is None,
{
    if is_query(args) {
        return Some(ProcessKind::Other);
    }
    let package = match find_env_value(env, "CARGO_PKG_NAME=".as_bytes()) {
        Some(p) => p,
        None => return None,
    };
    let package = match utf8_to_string(package.as_slice()) {
        Some(s) => s,
        None => return None,
    };
    let (externs, out_dir) = match scan_args(args) {
        Some(r) => r,
        None => return None,
    };
    let dir = match out_dir {
        Some(d) => d,
        None => match find_env_value(env, "OUT_DIR=".as_bytes()) {
            Some(d) => d,
            None => return None,
        },
    };
    let target_dir = match find_ancestor_named(dir.as_slice(), "target".as_bytes()) {
        Some(t) => t,
        None => return None,
    };
    let manifest_dir = match find_env_value(env, "CARGO_MANIFEST_DIR=".as_bytes()) {
        Some(m) => m,
        None => return None,
    };
    Some(ProcessKind::Rustc { package, externs, target_dir, manifest_dir })
}

impl ProcessKind {
    /// Classifies the process `bin` about to be spawned with arguments `args`
    /// and environment `env`; `None` exactly when `parse` cannot classify it.
    pub fn try_parse(bin: &[u8], args: &Vec<Vec<u8>>, env: &Vec<Vec<u8>>) -> (res: Option<ProcessKind>)
        ensures
            res matches Some(k) ==> parse_spec(bin@, byte_strings(args@), byte_strings(env@)) == Some(k@),
            res is None ==> parse_spec(bin@, byte_strings(args@), byte_strings(env@)) is None,
    {
        let name = match file_name(bin) {
            Some(n) => n,
            None => return None,
        };
        if bytes_equal(name.as_slice(), "build-script-build".as_bytes()) {
            parse_build_script_exec(bin, env)
        } else if bytes_equal(name.as_slice(), "rustc".as_bytes()) {
            parse_rustc_exec(args, env)
        } else {
            Some(ProcessKind::Other)
        }
    }

    /// Classifies the process `bin` about to be spawned with arguments `args`
    /// and environment `env`.
    ///
    /// A build script (`.../target/.../build/<package>-<hash>/build-script-build`)
    /// is sandboxed by the package named in its directory; a `rustc`
    /// compilation by `CARGO_PKG_NAME` and its `--extern` crates; anything
    /// else (including `rustc` queries such as `-vV`) is not sandboxed.
    pub fn parse(bin: &[u8], args: &Vec<Vec<u8>>, env: &Vec<Vec<u8>>) -> (res: ProcessKind)
        requires
            parse_spec(bin@, byte_strings(args@), byte_strings(env@)) is Some,
        ensures
            parse_spec(bin@, byte_strings(args@), byte_strings(env@)) == Some(res@),
    {
        match ProcessKind::try_parse(bin, args, env) {
            Some(k) => k,
            None => {
                proof {
                    assert(false);
                }
                ProcessKind::Other
            },
        }
    }

    /// The package being built.
    pub fn package(&self) -> (res: &str)
        requires
            !(self@ is Other),
        ensures
            res@ == self@.package(),
    {
        match self {
            ProcessKind::BuildScript { package, .. } => package.as_str(),
            ProcessKind::Rustc { package, .. } => package.as_str(),
            ProcessKind::Other => "",
        }
    }

    /// The `target` directory of the build.
    pub fn target_dir(&self) -> (res: &[u8])
        requires
            !(self@ is Other),
        ensures
            res@ == self@.target_dir(),
    {
        match self {
            ProcessKind::BuildScript { target_dir, .. } => target_dir.as_slice(),
            ProcessKind::Rustc { target_dir, .. } => target_dir.as_slice(),
            ProcessKind::Other => &[],
        }
    }

    /// The manifest directory of the package being built.
    pub fn manifest_dir(&self) -> (res: &[u8])
        requires
            !(self@ is Other),
        ensures
            res@ == self@.manifest_dir(),
    {
        match self {
            ProcessKind::BuildScript { manifest_dir, .. } => manifest_dir.as_slice(),
            ProcessKind::Rustc { manifest_dir, .. } => manifest_dir.as_slice(),
            ProcessKind::Other => &[],
        }
    }

    /// Whether the process is left unsandboxed.
    pub fn is_other(&self) -> (res: bool)
        ensures
            res == (self@ is Other),
    {
        match self {
            ProcessKind::Other => true,
            _ => false,
        }
    }
}

} // verus!
