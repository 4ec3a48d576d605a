//! The environment handed to a sandboxed process.

use vstd::prelude::*;
use crate::bytes::{byte_strings, concat_bytes, copy_range, ends_with, has_prefix, has_suffix, starts_with};
use crate::cli::insert_libraries_spec;
use crate::kind::{env_value, lit};

verus! {

/// What the interceptor reads from its surroundings when it is loaded into
/// Cargo, before any build script or configuration can change it. Paths are
/// the raw bytes of Unix paths.
#[derive(PartialEq, Eq, Hash, Clone, Debug)]
pub struct Env {
    pub cargo_home: Vec<u8>,
    pub rustup_home: Vec<u8>,
    pub developer_dir: Vec<u8>,
    /// PATH.
    pub path: Vec<Vec<u8>>,
    pub parent_cargo_sandbox_pid: i32,
}

/// The `:` separating the libraries in `DYLD_INSERT_LIBRARIES`.
pub open spec fn colon() -> u8 {
    58u8
}

/// The parts of `s` between the occurrences of `sep` (an empty `s` has one
/// empty part).
pub open spec fn split_on(s: Seq<u8>, sep: u8) -> Seq<Seq<u8>>
    decreases s.len(),
{
    if s.len() == 0 {
        seq![Seq::<u8>::empty()]
    } else {
        let rest = split_on(s.drop_last(), sep);
        if s.last() == sep {
            rest.push(Seq::<u8>::empty())
        } else {
            rest.update(rest.len() - 1, rest.last().push(s.last()))
        }
    }
}

/// The parts joined with `sep` between consecutive ones.
pub open spec fn join_with(parts: Seq<Seq<u8>>, sep: u8) -> Seq<u8>
    decreases parts.len(),
{
    if parts.len() == 0 {
        Seq::empty()
    } else if parts.len() == 1 {
        parts[0]
    } else {
        join_with(parts.drop_last(), sep).push(sep) + parts.last()
    }
}

/// The parts that do not end with `lib`, in order.
pub open spec fn without_library(parts: Seq<Seq<u8>>, lib: Seq<u8>) -> Seq<Seq<u8>>
    decreases parts.len(),
{
    if parts.len() == 0 {
        Seq::empty()
    } else {
        let rest = without_library(parts.drop_last(), lib);
        if has_suffix(parts.last(), lib) {
            rest
        } else {
            rest.push(parts.last())
        }
    }
}

/// `DYLD_INSERT_LIBRARIES=`.
pub open spec fn insert_libraries_key() -> Seq<u8> {
    lit("DYLD_INSERT_LIBRARIES=")
}

/// An environment entry with every library ending in `lib` removed from
/// `DYLD_INSERT_LIBRARIES`; other entries are unchanged.
pub open spec fn strip_library(entry: Seq<u8>, lib: Seq<u8>) -> Seq<u8> {
    if has_prefix(entry, insert_libraries_key()) {
        insert_libraries_key() + join_with(
            without_library(
                split_on(entry.subrange(insert_libraries_key().len() as int, entry.len() as int), colon()),
                lib,
            ),
            colon(),
        )
    } else {
        entry
    }
}

/// Every entry with the library `lib` stripped.
pub open spec fn strip_all(env: Seq<Seq<u8>>, lib: Seq<u8>) -> Seq<Seq<u8>> {
    env.map_values(|e: Seq<u8>| strip_library(e, lib))
}

/// Index of the first entry that starts with `name`.
pub open spec fn first_with_prefix(env: Seq<Seq<u8>>, name: Seq<u8>, i: int) -> Option<int>
    decreases env.len() - i,
{
    if i < 0 || i >= env.len() {
        None
    } else if has_prefix(env[i], name) {
        Some(i)
    } else {
        first_with_prefix(env, name, i + 1)
    }
}

/// Replaces the first entry that starts with `name` by `with`, or appends
/// `with` when there is none.
pub open spec fn replace_env(env: Seq<Seq<u8>>, name: Seq<u8>, with: Seq<u8>) -> Seq<Seq<u8>> {
    match first_with_prefix(env, name, 0) {
        Some(i) => env.update(i, with),
        None => env.push(with),
    }
}

/// The environment of a sandboxed process: the interceptor library `lib`
/// removed from `DYLD_INSERT_LIBRARIES`, and the temporary directory
/// variables pointing at `tmpdir` (`TMP` and `TEMP` on Windows, `TMPDIR`
/// elsewhere): the first definition `NAME=...` of each is replaced, or one
/// is appended when there is none; other variables are kept.
pub open spec fn override_env_spec(tmpdir: Seq<u8>, env: Seq<Seq<u8>>, lib: Seq<u8>, windows: bool) -> Seq<
    Seq<u8>,
> {
    let cleaned = strip_all(env, lib);
    if windows {
        replace_env(
            replace_env(cleaned, lit("TMP="), lit("TMP=") + tmpdir),
            lit("TEMP="),
            lit("TEMP=") + tmpdir,
        )
    } else {
        replace_env(cleaned, lit("TMPDIR="), lit("TMPDIR=") + tmpdir)
    }
}

/// The parts of `s` between the occurrences of `sep`.
fn split_bytes(s: &[u8], sep: u8) -> (res: Vec<Vec<u8>>)
    ensures
        byte_strings(res@) == split_on(s@, sep),
{
    let mut parts: Vec<Vec<u8>> = Vec::new();
    parts.push(Vec::new());
    assert(byte_strings(parts@) =~= split_on(s@.subrange(0, 0), sep));
    let mut i: usize = 0;
    while i < s.len()
        invariant
            i <= s@.len(),
            byte_strings(parts@) == split_on(s@.subrange(0, i as int), sep),
            parts@.len() >= 1,
        decreases s@.len() - i,
    {
        let ghost before = byte_strings(parts@);
        assert(s@.subrange(0, i + 1).drop_last() =~= s@.subrange(0, i as int));
        assert(s@.subrange(0, i + 1).last() == s@[i as int]);
        if s[i] == sep {
            parts.push(Vec::new());
            assert(byte_strings(parts@) =~= before.push(Seq::<u8>::empty()));
        } else {
            let mut last = parts.pop().unwrap();
            assert(last@ == before.last());
            last.push(s[i]);
            parts.push(last);
            assert(byte_strings(parts@) =~= before.update(before.len() - 1, before.last().push(s@[i as int])));
        }
        i = i + 1;
    }
    assert(s@.subrange(0, s@.len() as int) =~= s@);
    parts
}

/// The parts that do not end with `lib`, joined with `sep`.
fn join_without(parts: &Vec<Vec<u8>>, lib: &[u8], sep: u8) -> (res: Vec<u8>)
    ensures
        res@ == join_with(without_library(byte_strings(parts@), lib@), sep),
{
    let mut out: Vec<u8> = Vec::new();
    let mut count: usize = 0;
    let mut i: usize = 0;
    let ghost pv = byte_strings(parts@);
    assert(pv.subrange(0, 0) =~= Seq::<Seq<u8>>::empty());
    while i < parts.len()
        invariant
            i <= parts@.len(),
            pv == byte_strings(parts@),
            pv.len() == parts@.len(),
            count == without_library(pv.subrange(0, i as int), lib@).len(),
            count <= i,
            out@ == join_with(without_library(pv.subrange(0, i as int), lib@), sep),
        decreases parts@.len() - i,
    {
        let part = parts[i].as_slice();
        assert(pv[i as int] == part@);
        assert(pv.subrange(0, i + 1).drop_last() =~= pv.subrange(0, i as int));
        let ghost kept_before = without_library(pv.subrange(0, i as int), lib@);
        if !ends_with(part, lib) {
            if count > 0 {
                out.push(sep);
            }
            let ghost with_sep = out@;
            out = concat_bytes(out.as_slice(), part);
            let ghost kept = kept_before.push(part@);
            assert(kept.drop_last() =~= kept_before);
            assert(out@ =~= join_with(kept, sep));
            count = count + 1;
        }
        i = i + 1;
    }
    assert(pv.subrange(0, parts@.len() as int) =~= pv);
    out
}

/// The entry with every library ending in `lib` removed from
/// `DYLD_INSERT_LIBRARIES`.
fn strip_library_exec(entry: &[u8], lib: &[u8]) -> (res: Vec<u8>)
    ensures
        res@ == strip_library(entry@, lib@),
{
    let key = "DYLD_INSERT_LIBRARIES=".as_bytes();
    if starts_with(entry, key) {
        let rest = copy_range(entry, key.len(), entry.len());
        let parts = split_bytes(rest.as_slice(), 58u8);
        let joined = join_without(&parts, lib, 58u8);
        concat_bytes(key, joined.as_slice())
    } else {
        let r = copy_range(entry, 0, entry.len());
        assert(r@ =~= entry@);
        r
    }
}

/// Replaces the first entry of `env` that starts with `name` by `with`, or
/// appends `with`.
fn replace_env_exec(env: &mut Vec<Vec<u8>>, name: &[u8], with: Vec<u8>)
    ensures
        byte_strings(final(env)@) == replace_env(byte_strings(old(env)@), name@, with@),
{
    let ghost e = byte_strings(env@);
    let mut i: usize = 0;
    assert(first_with_prefix(e, name@, 0) == first_with_prefix(e, name@, 0));
    while i < env.len()
        invariant
            i <= env@.len(),
            e == byte_strings(env@),
            env@ == old(env)@,
            e.len() == env@.len(),
            first_with_prefix(e, name@, i as int) == first_with_prefix(e, name@, 0),
        decreases env@.len() - i,
    {
        assert(e[i as int] == env@[i as int]@);
        if starts_with(env[i].as_slice(), name) {
            let ghost w = with@;
            env.set(i, with);
            assert(env@[i as int]@ == w);
            assert(byte_strings(env@) =~= e.update(i as int, with@));
            return;
        }
        i = i + 1;
    }
    env.push(with);
    assert(byte_strings(env@) =~= e.push(with@));
}

/// The environment for a sandboxed process, from the environment `envp`
/// that Cargo passed: every library whose path ends with `lib` is removed
/// from `DYLD_INSERT_LIBRARIES`, so that the sandboxed process does not
/// sandbox its own children again, and the temporary directory variables
/// (`TMPDIR`, or `TMP` and `TEMP` when `target_windows`) are set to
/// `project_local_tmpdir`, replacing the variable's first definition
/// (the first entry that starts with `NAME=`) or else appended.
pub fn override_env_with_library(
    lib: &[u8],
    project_local_tmpdir: &str,
    envp: &Vec<Vec<u8>>,
    target_windows: bool,
) -> (res: Vec<Vec<u8>>)
    ensures
        byte_strings(res@) == override_env_spec(
            lit(project_local_tmpdir),
            byte_strings(envp@),
            lib@,
            target_windows,
        ),
{
    let ghost ev = byte_strings(envp@);
    let mut env: Vec<Vec<u8>> = Vec::new();
    let mut i: usize = 0;
    while i < envp.len()
        invariant
            i <= envp@.len(),
            ev == byte_strings(envp@),
            ev.len() == envp@.len(),
            byte_strings(env@) == strip_all(ev.subrange(0, i as int), lib@),
        decreases envp@.len() - i,
    {
        let ghost before = byte_strings(env@);
        assert(ev[i as int] == envp@[i as int]@);
        let entry = strip_library_exec(envp[i].as_slice(), lib);
        env.push(entry);
        assert(ev.subrange(0, i + 1) =~= ev.subrange(0, i as int).push(ev[i as int]));
        assert(strip_all(ev.subrange(0, i + 1), lib@) =~= strip_all(ev.subrange(0, i as int), lib@).push(
            strip_library(ev[i as int], lib@),
        ));
        assert(byte_strings(env@) =~= strip_all(ev.subrange(0, i + 1), lib@));
        i = i + 1;
    }
    assert(ev.subrange(0, envp@.len() as int) =~= ev);
    let tmp = project_local_tmpdir.as_bytes();
    if target_windows {
        replace_env_exec(&mut env, "TMP=".as_bytes(), concat_bytes("TMP=".as_bytes(), tmp));
        replace_env_exec(&mut env, "TEMP=".as_bytes(), concat_bytes("TEMP=".as_bytes(), tmp));
    } else {
        replace_env_exec(&mut env, "TMPDIR=".as_bytes(), concat_bytes("TMPDIR=".as_bytes(), tmp));
    }
    env
}

/// The file name of the interceptor library that Cargo is run with.
pub open spec fn interceptor_library() -> Seq<u8> {
    lit("cargo-sandbox-interceptor")
}

/// The environment for a sandboxed process: `override_env_with_library`
/// for the `cargo-sandbox-interceptor` library.
pub fn override_env(project_local_tmpdir: &str, envp: &Vec<Vec<u8>>, target_windows: bool) -> (res: Vec<
    Vec<u8>,
>)
    ensures
        byte_strings(res@) == override_env_spec(
            lit(project_local_tmpdir),
            byte_strings(envp@),
            interceptor_library(),
            target_windows,
        ),
{
    override_env_with_library(
        "cargo-sandbox-interceptor".as_bytes(),
        project_local_tmpdir,
        envp,
        target_windows,
    )
}

/// No byte of `s` is `b`.
pub open spec fn lacks_byte(s: Seq<u8>, b: u8) -> bool {
    forall|j: int| 0 <= j < s.len() ==> s[j] != b
}

/// No library listed in the `DYLD_INSERT_LIBRARIES` entry `entry` ends with `lib`.
pub open spec fn libraries_exclude(entry: Seq<u8>, lib: Seq<u8>) -> bool {
    let libs = split_on(entry.subrange(insert_libraries_key().len() as int, entry.len() as int), colon());
    forall|j: int| 0 <= j < libs.len() ==> !has_suffix(#[trigger] libs[j], lib)
}

proof fn lemma_literals()
    ensures
        lit("TMPDIR") == seq![84u8, 77u8, 80u8, 68u8, 73u8, 82u8],
        lit("TMPDIR=") == seq![84u8, 77u8, 80u8, 68u8, 73u8, 82u8, 61u8],
        lit("TMP") == seq![84u8, 77u8, 80u8],
        lit("TMP=") == seq![84u8, 77u8, 80u8, 61u8],
        lit("TEMP") == seq![84u8, 69u8, 77u8, 80u8],
        lit("TEMP=") == seq![84u8, 69u8, 77u8, 80u8, 61u8],
        insert_libraries_key()[0] == 68u8,
        insert_libraries_key().len() == 22,
        has_prefix(lit("TMPDIR="), lit("TMPDIR=")),
        has_prefix(lit("TMP="), lit("TMP=")),
        has_prefix(lit("TEMP="), lit("TEMP=")),
{
    reveal_strlit("TMPDIR");
    reveal_strlit("TMPDIR=");
    reveal_strlit("TMP");
    reveal_strlit("TMP=");
    reveal_strlit("TEMP");
    reveal_strlit("TEMP=");
    reveal_strlit("DYLD_INSERT_LIBRARIES=");
    vstd::utf8::is_ascii_chars_encode_utf8("TMPDIR"@);
    vstd::utf8::is_ascii_chars_encode_utf8("TMPDIR="@);
    vstd::utf8::is_ascii_chars_encode_utf8("TMP"@);
    vstd::utf8::is_ascii_chars_encode_utf8("TMP="@);
    vstd::utf8::is_ascii_chars_encode_utf8("TEMP"@);
    vstd::utf8::is_ascii_chars_encode_utf8("TEMP="@);
    vstd::utf8::is_ascii_chars_encode_utf8("DYLD_INSERT_LIBRARIES="@);
    assert(lit("TMPDIR") =~= seq![84u8, 77u8, 80u8, 68u8, 73u8, 82u8]);
    assert(lit("TMPDIR=") =~= seq![84u8, 77u8, 80u8, 68u8, 73u8, 82u8, 61u8]);
    assert(lit("TMP") =~= seq![84u8, 77u8, 80u8]);
    assert(lit("TMP=") =~= seq![84u8, 77u8, 80u8, 61u8]);
    assert(lit("TEMP") =~= seq![84u8, 69u8, 77u8, 80u8]);
    assert(lit("TEMP=") =~= seq![84u8, 69u8, 77u8, 80u8, 61u8]);
    assert(lit("TMPDIR=").subrange(0, 7) =~= lit("TMPDIR="));
    assert(lit("TMP=").subrange(0, 4) =~= lit("TMP="));
    assert(lit("TEMP=").subrange(0, 5) =~= lit("TEMP="));
}

proof fn lemma_split_nonempty(s: Seq<u8>, sep: u8)
    ensures
        split_on(s, sep).len() >= 1,
    decreases s.len(),
{
    if s.len() > 0 {
        lemma_split_nonempty(s.drop_last(), sep);
    }
}

proof fn lemma_split_parts_lack_sep(s: Seq<u8>, sep: u8)
    ensures
        forall|i: int| 0 <= i < split_on(s, sep).len() ==> lacks_byte(#[trigger] split_on(s, sep)[i], sep),
    decreases s.len(),
{
    if s.len() > 0 {
        lemma_split_parts_lack_sep(s.drop_last(), sep);
        lemma_split_nonempty(s.drop_last(), sep);
        let rest = split_on(s.drop_last(), sep);
        if s.last() != sep {
            assert forall|i: int| 0 <= i < split_on(s, sep).len() implies lacks_byte(
                #[trigger] split_on(s, sep)[i],
                sep,
            ) by {
                if i == rest.len() - 1 {
                    assert(lacks_byte(rest[i], sep));
                }
            }
        }
    }
}

proof fn lemma_split_append(x: Seq<u8>, b: Seq<u8>, sep: u8)
    requires
        lacks_byte(b, sep),
    ensures
        split_on(x + b, sep) == split_on(x, sep).update(
            split_on(x, sep).len() - 1,
            split_on(x, sep).last() + b,
        ),
    decreases b.len(),
{
    lemma_split_nonempty(x, sep);
    let sx = split_on(x, sep);
    if b.len() == 0 {
        assert(x + b =~= x);
        assert(sx.update(sx.len() - 1, sx.last() + b) =~= sx);
    } else {
        let b1 = b.drop_last();
        lemma_split_append(x, b1, sep);
        assert((x + b).drop_last() =~= x + b1);
        assert((x + b).last() == b.last());
        assert(b.last() == b[b.len() - 1]);
        let rest = split_on(x + b1, sep);
        assert(rest.len() == sx.len());
        assert(rest.last() == sx.last() + b1);
        assert((sx.last() + b1).push(b.last()) =~= sx.last() + b);
        assert(split_on(x + b, sep) =~= sx.update(sx.len() - 1, sx.last() + b));
    }
}

proof fn lemma_split_join(parts: Seq<Seq<u8>>, sep: u8)
    requires
        parts.len() >= 1,
        forall|i: int| 0 <= i < parts.len() ==> lacks_byte(#[trigger] parts[i], sep),
    ensures
        split_on(join_with(parts, sep), sep) == parts,
    decreases parts.len(),
{
    if parts.len() == 1 {
        lemma_split_append(Seq::empty(), parts[0], sep);
        assert(Seq::<u8>::empty() + parts[0] =~= parts[0]);
        assert(split_on(join_with(parts, sep), sep) =~= parts);
    } else {
        let front = join_with(parts.drop_last(), sep);
        lemma_split_join(parts.drop_last(), sep);
        assert(lacks_byte(parts.last(), sep)) by {
            assert(parts.last() == parts[parts.len() - 1]);
        }
        lemma_split_append(front.push(sep), parts.last(), sep);
        assert(front.push(sep).drop_last() =~= front);
        assert(Seq::<u8>::empty() + parts.last() =~= parts.last());
        assert(split_on(join_with(parts, sep), sep) =~= parts);
    }
}

proof fn lemma_without_library(parts: Seq<Seq<u8>>, lib: Seq<u8>, sep: u8)
    requires
        forall|i: int| 0 <= i < parts.len() ==> lacks_byte(#[trigger] parts[i], sep),
    ensures
        forall|i: int|
            0 <= i < without_library(parts, lib).len() ==> !has_suffix(
                #[trigger] without_library(parts, lib)[i],
                lib,
            ) && lacks_byte(without_library(parts, lib)[i], sep),
    decreases parts.len(),
{
    if parts.len() > 0 {
        lemma_without_library(parts.drop_last(), lib, sep);
        assert(parts.last() == parts[parts.len() - 1]);
        let rest = without_library(parts.drop_last(), lib);
        let w = without_library(parts, lib);
        assert forall|i: int| 0 <= i < w.len() implies !has_suffix(#[trigger] w[i], lib) && lacks_byte(
            w[i],
            sep,
        ) by {
            if i < rest.len() {
                assert(w[i] == rest[i]);
            }
        }
    }
}

proof fn lemma_stripped_clean(entry: Seq<u8>, lib: Seq<u8>)
    requires
        lib.len() > 0,
        has_prefix(strip_library(entry, lib), insert_libraries_key()),
    ensures
        libraries_exclude(strip_library(entry, lib), lib),
{
    let key = insert_libraries_key();
    if has_prefix(entry, key) {
        let parts = split_on(entry.subrange(key.len() as int, entry.len() as int), colon());
        lemma_split_parts_lack_sep(entry.subrange(key.len() as int, entry.len() as int), colon());
        lemma_without_library(parts, lib, colon());
        let kept = without_library(parts, lib);
        let stripped = strip_library(entry, lib);
        assert(stripped.subrange(key.len() as int, stripped.len() as int) =~= join_with(kept, colon()));
        if kept.len() >= 1 {
            lemma_split_join(kept, colon());
        } else {
            assert(join_with(kept, colon()) =~= Seq::<u8>::empty());
            assert(split_on(Seq::<u8>::empty(), colon()) =~= seq![Seq::<u8>::empty()]);
        }
    }
}

proof fn lemma_first_with_prefix(env: Seq<Seq<u8>>, name: Seq<u8>, i: int)
    requires
        0 <= i,
    ensures
        first_with_prefix(env, name, i) matches Some(k) ==> i <= k < env.len() && has_prefix(env[k], name)
            && forall|j: int| i <= j < k ==> !has_prefix(#[trigger] env[j], name),
        first_with_prefix(env, name, i) is None ==> forall|j: int|
            i <= j < env.len() ==> !has_prefix(#[trigger] env[j], name),
    decreases env.len() - i,
{
    if i < env.len() && !has_prefix(env[i], name) {
        lemma_first_with_prefix(env, name, i + 1);
    }
}

proof fn lemma_env_value_at(env: Seq<Seq<u8>>, key: Seq<u8>, i: int)
    requires
        0 <= i < env.len(),
        has_prefix(env[i], key),
        forall|j: int| 0 <= j < i ==> !has_prefix(#[trigger] env[j], key),
    ensures
        env_value(env, key) == Some(env[i].subrange(key.len() as int, env[i].len() as int)),
    decreases i,
{
    if i > 0 {
        assert(!has_prefix(env[0], key));
        assert forall|j: int| 0 <= j < i - 1 implies !has_prefix(#[trigger] env.drop_first()[j], key) by {
            assert(env.drop_first()[j] == env[j + 1]);
        }
        lemma_env_value_at(env.drop_first(), key, i - 1);
    }
}

proof fn lemma_replace_env_elements(env: Seq<Seq<u8>>, name: Seq<u8>, with: Seq<u8>)
    ensures
        forall|i: int|
            0 <= i < replace_env(env, name, with).len() ==> (i < env.len() && #[trigger] replace_env(
                env,
                name,
                with,
            )[i] == env[i]) || replace_env(env, name, with)[i] == with,
{
    lemma_first_with_prefix(env, name, 0);
}

/// Setting `name=value` makes it the first entry that `name=` finds, when
/// `name=` starts with `name`.
proof fn lemma_replace_env_sets(env: Seq<Seq<u8>>, name: Seq<u8>, key: Seq<u8>, value: Seq<u8>)
    requires
        has_prefix(key, name),
    ensures
        env_value(replace_env(env, name, key + value), key) == Some(value),
{
    let with = key + value;
    let res = replace_env(env, name, with);
    lemma_first_with_prefix(env, name, 0);
    assert(with.subrange(0, key.len() as int) =~= key);
    assert(with.subrange(key.len() as int, with.len() as int) =~= value);
    let k = match first_with_prefix(env, name, 0) {
        Some(k) => k,
        None => env.len() as int,
    };
    assert(res[k] == with);
    assert forall|j: int| 0 <= j < k implies !has_prefix(#[trigger] res[j], key) by {
        assert(res[j] == env[j]);
        if has_prefix(env[j], key) {
            assert(env[j].subrange(0, name.len() as int) =~= key.subrange(0, name.len() as int));
        }
    }
    lemma_env_value_at(res, key, k);
}

/// A sandboxed process gets `TMPDIR` (outside Windows) pointing at the
/// project-local temporary directory: the first `TMPDIR=` entry of its
/// environment holds exactly that directory.
pub proof fn law_tmpdir_is_project_local(tmpdir: Seq<u8>, env: Seq<Seq<u8>>, lib: Seq<u8>)
    ensures
        env_value(override_env_spec(tmpdir, env, lib, false), lit("TMPDIR=")) == Some(tmpdir),
{
    lemma_literals();
    lemma_replace_env_sets(strip_all(env, lib), lit("TMPDIR="), lit("TMPDIR="), tmpdir);
}

/// On Windows, both `TMP` and `TEMP` point at the project-local temporary
/// directory.
pub proof fn law_tmp_and_temp_are_project_local(tmpdir: Seq<u8>, env: Seq<Seq<u8>>, lib: Seq<u8>)
    ensures
        env_value(override_env_spec(tmpdir, env, lib, true), lit("TMP=")) == Some(tmpdir),
        env_value(override_env_spec(tmpdir, env, lib, true), lit("TEMP=")) == Some(tmpdir),
{
    lemma_literals();
    let c = strip_all(env, lib);
    let tmp_entry = lit("TMP=") + tmpdir;
    let c1 = replace_env(c, lit("TMP="), tmp_entry);
    lemma_replace_env_sets(c, lit("TMP="), lit("TMP="), tmpdir);
    lemma_replace_env_sets(c1, lit("TEMP="), lit("TEMP="), tmpdir);
    // The `TEMP` entry that is replaced does not start with `TMP=`, so the
    // first `TMP=` entry stays where it was.
    let res = replace_env(c1, lit("TEMP="), lit("TEMP=") + tmpdir);
    lemma_first_with_prefix(c, lit("TMP="), 0);
    lemma_first_with_prefix(c1, lit("TEMP="), 0);
    let k = match first_with_prefix(c, lit("TMP="), 0) {
        Some(k) => k,
        None => c.len() as int,
    };
    assert(c1[k] == tmp_entry);
    assert(tmp_entry.subrange(0, 4) =~= lit("TMP="));
    assert(has_prefix(c1[k], lit("TEMP=")) == false) by {
        assert(c1[k][1] == 77u8);
    }
    assert(res[k] == tmp_entry);
    assert forall|j: int| 0 <= j < k implies !has_prefix(#[trigger] res[j], lit("TMP=")) by {
        assert(c1[j] == c[j]);
        if has_prefix(c[j], lit("TMP=")) {
            assert(c[j].subrange(0, 4) =~= lit("TMP="));
        }
        if res[j] != c1[j] {
            assert(res[j] == lit("TEMP=") + tmpdir);
            assert(res[j][1] == 69u8);
        }
    }
    assert(tmp_entry.subrange(4, tmp_entry.len() as int) =~= tmpdir);
    lemma_env_value_at(res, lit("TMP="), k);
}

/// The interceptor library is removed from every `DYLD_INSERT_LIBRARIES`
/// entry of a sandboxed process's environment, so that its own children
/// are not intercepted again.
pub proof fn law_interceptor_removed(tmpdir: Seq<u8>, env: Seq<Seq<u8>>, lib: Seq<u8>, windows: bool)
    requires
        lib.len() > 0,
    ensures
        forall|i: int|
            0 <= i < override_env_spec(tmpdir, env, lib, windows).len() && has_prefix(
                #[trigger] override_env_spec(tmpdir, env, lib, windows)[i],
                insert_libraries_key(),
            ) ==> libraries_exclude(override_env_spec(tmpdir, env, lib, windows)[i], lib),
{
    lemma_literals();
    let res = override_env_spec(tmpdir, env, lib, windows);
    let c = strip_all(env, lib);
    assert forall|i: int|
        0 <= i < res.len() && has_prefix(#[trigger] res[i], insert_libraries_key()) implies libraries_exclude(
        res[i],
        lib,
    ) by {
        if windows {
            let c1 = replace_env(c, lit("TMP="), lit("TMP=") + tmpdir);
            lemma_replace_env_elements(c, lit("TMP="), lit("TMP=") + tmpdir);
            lemma_replace_env_elements(c1, lit("TEMP="), lit("TEMP=") + tmpdir);
            if i < c.len() && res[i] == c[i] {
                lemma_stripped_clean(env[i], lib);
            } else if res[i] == lit("TMP=") + tmpdir {
                assert(res[i][0] == 84u8);
            } else {
                assert(res[i] == lit("TEMP=") + tmpdir);
                assert(res[i][0] == 84u8);
            }
        } else {
            lemma_replace_env_elements(c, lit("TMPDIR="), lit("TMPDIR=") + tmpdir);
            if i < c.len() && res[i] == c[i] {
                lemma_stripped_clean(env[i], lib);
            } else {
                assert(res[i] == lit("TMPDIR=") + tmpdir);
                assert(res[i][0] == 84u8);
            }
        }
    }
}

proof fn lemma_join_split(s: Seq<u8>, sep: u8)
    ensures
        join_with(split_on(s, sep), sep) == s,
    decreases s.len(),
{
    if s.len() > 0 {
        let t = s.drop_last();
        lemma_join_split(t, sep);
        lemma_split_nonempty(t, sep);
        let r = split_on(t, sep);
        if s.last() == sep {
            let p = r.push(Seq::<u8>::empty());
            assert(p.drop_last() =~= r);
            assert(join_with(p, sep) =~= s);
        } else {
            let p = r.update(r.len() - 1, r.last().push(s.last()));
            if r.len() == 1 {
                assert(join_with(p, sep) =~= s);
            } else {
                assert(p.drop_last() =~= r.drop_last());
                let a = join_with(r.drop_last(), sep).push(sep);
                assert(join_with(r, sep) == a + r.last());
                assert(join_with(p, sep) == a + r.last().push(s.last()));
                assert(a + r.last().push(s.last()) =~= (a + r.last()).push(s.last()));
                assert(s =~= t.push(s.last()));
            }
        }
    }
}

proof fn lemma_without_library_keeps(parts: Seq<Seq<u8>>, lib: Seq<u8>)
    requires
        forall|i: int| 0 <= i < parts.len() ==> !has_suffix(#[trigger] parts[i], lib),
    ensures
        without_library(parts, lib) == parts,
    decreases parts.len(),
{
    if parts.len() > 0 {
        let front = parts.drop_last();
        assert forall|i: int| 0 <= i < front.len() implies !has_suffix(#[trigger] front[i], lib) by {
            assert(front[i] == parts[i]);
        }
        lemma_without_library_keeps(front, lib);
        assert(front.push(parts.last()) =~= parts);
    }
}

/// The interceptor that `cargo-sandbox` appends to the library list Cargo
/// runs with is taken out again for a sandboxed process: stripping `lib`
/// from the `DYLD_INSERT_LIBRARIES` entry built by appending the
/// interceptor path (which ends in `lib` and holds no `:`) leaves the
/// libraries listed before, less those that end in `lib` themselves, and
/// exactly the earlier list where none of them does.
pub proof fn law_inserted_interceptor_stripped(existing: Option<Seq<u8>>, interceptor: Seq<u8>, lib: Seq<u8>)
    requires
        has_suffix(interceptor, lib),
        lacks_byte(interceptor, colon()),
    ensures
        strip_library(insert_libraries_key() + insert_libraries_spec(existing, interceptor), lib)
            == insert_libraries_key() + match existing {
            Some(libs) => join_with(without_library(split_on(libs, colon()), lib), colon()),
            None => Seq::empty(),
        },
        existing matches Some(libs) ==> ((forall|j: int|
            0 <= j < split_on(libs, colon()).len() ==> !has_suffix(
                #[trigger] split_on(libs, colon())[j],
                lib,
            )) ==> strip_library(insert_libraries_key() + insert_libraries_spec(existing, interceptor), lib)
            == insert_libraries_key() + libs),
{
    let key = insert_libraries_key();
    let rest = insert_libraries_spec(existing, interceptor);
    let entry = key + rest;
    assert(entry.subrange(0, key.len() as int) =~= key);
    assert(entry.subrange(key.len() as int, entry.len() as int) =~= rest);
    match existing {
        Some(libs) => {
            let x = libs.push(colon());
            assert(rest =~= x + interceptor);
            lemma_split_append(x, interceptor, colon());
            let sl = split_on(libs, colon());
            assert(x.drop_last() =~= libs);
            assert(split_on(x, colon()) == sl.push(Seq::<u8>::empty()));
            let parts = split_on(rest, colon());
            assert(Seq::<u8>::empty() + interceptor =~= interceptor);
            assert(parts =~= sl.push(interceptor));
            assert(parts.drop_last() =~= sl);
            assert(without_library(parts, lib) == without_library(sl, lib));
            if forall|j: int| 0 <= j < sl.len() ==> !has_suffix(#[trigger] sl[j], lib) {
                lemma_without_library_keeps(sl, lib);
                lemma_join_split(libs, colon());
            }
        },
        None => {
            lemma_split_append(Seq::empty(), interceptor, colon());
            assert(Seq::<u8>::empty() + interceptor =~= interceptor);
            let parts = split_on(interceptor, colon());
            assert(parts =~= seq![interceptor]);
            assert(parts.drop_last() =~= Seq::<Seq<u8>>::empty());
            assert(parts.last() == interceptor);
            assert(without_library(Seq::<Seq<u8>>::empty(), lib) == Seq::<Seq<u8>>::empty());
            assert(without_library(parts, lib) =~= Seq::<Seq<u8>>::empty());
        },
    }
}

proof fn lemma_first_at(env: Seq<Seq<u8>>, name: Seq<u8>, i: int, k: int)
    requires
        0 <= i <= k < env.len(),
        has_prefix(env[k], name),
        forall|j: int| i <= j < k ==> !has_prefix(#[trigger] env[j], name),
    ensures
        first_with_prefix(env, name, i) == Some(k),
    decreases k - i,
{
    if i < k {
        lemma_first_at(env, name, i + 1, k);
    }
}

/// Replacing the first entry that starts with `name` by the entry it
/// already is changes nothing.
proof fn lemma_replace_env_fixed(env: Seq<Seq<u8>>, name: Seq<u8>, with: Seq<u8>, k: int)
    requires
        0 <= k < env.len(),
        env[k] == with,
        has_prefix(with, name),
        forall|j: int| 0 <= j < k ==> !has_prefix(#[trigger] env[j], name),
    ensures
        replace_env(env, name, with) == env,
{
    lemma_first_at(env, name, 0, k);
    assert(env.update(k, with) =~= env);
}

/// The position where `replace_env` puts `with`.
proof fn lemma_replace_env_position(env: Seq<Seq<u8>>, name: Seq<u8>, with: Seq<u8>) -> (k: int)
    requires
        has_prefix(with, name),
    ensures
        0 <= k < replace_env(env, name, with).len(),
        replace_env(env, name, with).len() >= env.len(),
        k < env.len() ==> has_prefix(env[k], name),
        replace_env(env, name, with)[k] == with,
        forall|j: int| 0 <= j < k ==> !has_prefix(#[trigger] replace_env(env, name, with)[j], name),
        forall|j: int|
            0 <= j < replace_env(env, name, with).len() && j != k ==> j < env.len() && #[trigger] replace_env(
                env,
                name,
                with,
            )[j] == env[j],
{
    lemma_first_with_prefix(env, name, 0);
    let k = match first_with_prefix(env, name, 0) {
        Some(k) => k,
        None => env.len() as int,
    };
    k
}

proof fn lemma_prefix_extend(a: Seq<u8>, b: Seq<u8>, name: Seq<u8>)
    requires
        has_prefix(a, name),
    ensures
        has_prefix(a + b, name),
{
    assert((a + b).subrange(0, name.len() as int) =~= a.subrange(0, name.len() as int));
}

/// Stripping a library a second time changes nothing.
proof fn lemma_strip_twice(e: Seq<u8>, lib: Seq<u8>)
    ensures
        strip_library(strip_library(e, lib), lib) == strip_library(e, lib),
{
    let key = insert_libraries_key();
    if has_prefix(e, key) {
        let rest = e.subrange(key.len() as int, e.len() as int);
        let parts = split_on(rest, colon());
        lemma_split_parts_lack_sep(rest, colon());
        lemma_without_library(parts, lib, colon());
        let kept = without_library(parts, lib);
        let joined = join_with(kept, colon());
        let s1 = key + joined;
        assert(s1.subrange(0, key.len() as int) =~= key);
        assert(s1.subrange(key.len() as int, s1.len() as int) =~= joined);
        if kept.len() == 0 {
            let one = seq![Seq::<u8>::empty()];
            assert(split_on(joined, colon()) == one);
            assert(one.drop_last() =~= Seq::<Seq<u8>>::empty());
            assert(one.last() == Seq::<u8>::empty());
            let none = Seq::<Seq<u8>>::empty();
            assert(without_library(none, lib) == none);
            if has_suffix(Seq::<u8>::empty(), lib) {
                assert(without_library(one, lib) == none);
            } else {
                assert(without_library(one, lib) == none.push(Seq::<u8>::empty()));
                assert(none.push(Seq::<u8>::empty()) =~= one);
            }
            assert(join_with(without_library(one, lib), colon()) == Seq::<u8>::empty());
        } else {
            lemma_split_join(kept, colon());
            lemma_without_library_keeps(kept, lib);
        }
    }
}

/// An entry that starts with another byte than `DYLD_INSERT_LIBRARIES=`
/// is kept by stripping.
proof fn lemma_strip_other(e: Seq<u8>, lib: Seq<u8>)
    requires
        e.len() > 0,
        e[0] != insert_libraries_key()[0],
    ensures
        strip_library(e, lib) == e,
{
    lemma_literals();
    let key = insert_libraries_key();
    if has_prefix(e, key) {
        assert(e.subrange(0, key.len() as int)[0] == e[0]);
    }
}

/// Running the environment override on its own result changes nothing:
/// the interceptor is already gone from `DYLD_INSERT_LIBRARIES`, and the
/// temporary directory variables already point at `tmpdir`.
pub proof fn law_override_env_idempotent(tmpdir: Seq<u8>, env: Seq<Seq<u8>>, lib: Seq<u8>, windows: bool)
    ensures
        override_env_spec(tmpdir, override_env_spec(tmpdir, env, lib, windows), lib, windows)
            == override_env_spec(tmpdir, env, lib, windows),
{
    lemma_literals();
    let c = strip_all(env, lib);
    let r = override_env_spec(tmpdir, env, lib, windows);
    assert forall|i: int| 0 <= i < c.len() implies strip_library(#[trigger] c[i], lib) == c[i] by {
        lemma_strip_twice(env[i], lib);
    }
    if windows {
        let tw = lit("TMP=") + tmpdir;
        let ew = lit("TEMP=") + tmpdir;
        lemma_prefix_extend(lit("TMP="), tmpdir, lit("TMP="));
        lemma_prefix_extend(lit("TEMP="), tmpdir, lit("TEMP="));
        assert(tw[0] == 84u8 && tw[1] == 77u8);
        assert(ew[0] == 84u8 && ew[1] == 69u8);
        let c1 = replace_env(c, lit("TMP="), tw);
        let k1 = lemma_replace_env_position(c, lit("TMP="), tw);
        let k2 = lemma_replace_env_position(c1, lit("TEMP="), ew);
        lemma_replace_env_elements(c, lit("TMP="), tw);
        lemma_replace_env_elements(c1, lit("TEMP="), ew);
        assert forall|i: int| 0 <= i < r.len() implies strip_library(#[trigger] r[i], lib) == r[i] by {
            if r[i] == ew {
                lemma_strip_other(ew, lib);
            } else if c1[i] == tw {
                lemma_strip_other(tw, lib);
            }
        }
        assert(strip_all(r, lib) =~= r);
        // `tw` is still the first entry that starts with `TMP=`.
        assert(k2 != k1) by {
            if k2 == k1 {
                assert(c1[k1] == tw);
                assert(tw.subrange(0, 5)[1] == tw[1]);
            }
        }
        assert(r[k1] == tw);
        assert forall|j: int| 0 <= j < k1 implies !has_prefix(#[trigger] r[j], lit("TMP=")) by {
            if j == k2 {
                assert(ew.subrange(0, 4)[1] == ew[1]);
            } else {
                assert(r[j] == c1[j]);
            }
        }
        lemma_replace_env_fixed(r, lit("TMP="), tw, k1);
        assert forall|j: int| 0 <= j < k2 implies !has_prefix(#[trigger] r[j], lit("TEMP=")) by {
            assert(r[j] == c1[j]);
        }
        lemma_replace_env_fixed(r, lit("TEMP="), ew, k2);
    } else {
        let w = lit("TMPDIR=") + tmpdir;
        lemma_prefix_extend(lit("TMPDIR="), tmpdir, lit("TMPDIR="));
        assert(w[0] == 84u8);
        let k = lemma_replace_env_position(c, lit("TMPDIR="), w);
        lemma_replace_env_elements(c, lit("TMPDIR="), w);
        assert forall|i: int| 0 <= i < r.len() implies strip_library(#[trigger] r[i], lib) == r[i] by {
            if r[i] == w {
                lemma_strip_other(w, lib);
            }
        }
        assert(strip_all(r, lib) =~= r);
        lemma_replace_env_fixed(r, lit("TMPDIR="), w, k);
    }
}

} // verus!
