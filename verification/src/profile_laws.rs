//! What the profile rules, the classification of build scripts and the
//! `sandbox-exec` arguments are, written out in full.

use vstd::prelude::*;
use crate::config::{PathConfigView, SandboxNetworkConfig, SandboxOption};
use crate::interpose::sandbox_exec_args_spec;
use crate::kind::{ProcessKindView, lit, parse_spec};
use crate::path::{file_name_of, parent_of};
use crate::policy::{extra_rules_spec, network_rules_spec, opt_rule, path_rules};
use crate::text::{lemma_rfind_from, occurs_at};
use vstd::utf8::decode_utf8;

verus! {

/// A profile rule written out: `(deny OPERATIONS FILTER)` for `deny`,
/// `(allow OPERATIONS FILTER)` for `allow`, `(allow OPERATIONS (with
/// report) FILTER)` for `warn`, and nothing for an unset option.
pub open spec fn rule_text(o: Option<SandboxOption>, operations: Seq<char>, filter: Seq<char>) -> Seq<char> {
    match o {
        None => Seq::empty(),
        Some(SandboxOption::Deny) => "(deny "@ + operations + filter + ")\n"@,
        Some(SandboxOption::Allow) => "(allow "@ + operations + filter + ")\n"@,
        Some(SandboxOption::Warn) => "(allow "@ + operations + " (with report)"@ + filter + ")\n"@,
    }
}

proof fn lemma_rule_text(o: Option<SandboxOption>, operations: Seq<char>, filter: Seq<char>)
    ensures
        opt_rule(o, operations, filter) == rule_text(o, operations, filter),
{
    reveal_strlit("(");
    reveal_strlit(" ");
    reveal_strlit("deny");
    reveal_strlit("allow");
    reveal_strlit("(deny ");
    reveal_strlit("(allow ");
    match o {
        None => {},
        Some(SandboxOption::Deny) => {
            assert(opt_rule(o, operations, filter) =~= rule_text(o, operations, filter));
        },
        Some(SandboxOption::Allow) => {
            assert(opt_rule(o, operations, filter) =~= rule_text(o, operations, filter));
        },
        Some(SandboxOption::Warn) => {
            assert(opt_rule(o, operations, filter) =~= rule_text(o, operations, filter));
        },
    }
}

/// The rules of one configured path (`quoted` being its quoted canonical
/// form), in the order in which they stand in the profile: first the rule
/// of its general option (`process-exec file*`), then those of its read
/// (`file-read*`), write (`file-write*`) and execute (`process-exec`)
/// options. A later rule decides where they overlap, so a path configured
/// `default = deny, read = allow` can be read. A list of paths gives the
/// rules of each path in the order of the list.
pub proof fn law_path_rules_general_first(
    paths: Seq<PathConfigView>,
    quoted: Seq<Seq<char>>,
    p: PathConfigView,
    q: Seq<char>,
)
    requires
        paths.len() == quoted.len(),
    ensures
        ({
            let f = " (subpath "@ + q + ")"@;
            path_rules(p, q) == rule_text(p.default_, "process-exec file*"@, f) + rule_text(
                p.read,
                "file-read*"@,
                f,
            ) + rule_text(p.write, "file-write*"@, f) + rule_text(p.execute, "process-exec"@, f)
        }),
        extra_rules_spec(paths.push(p), quoted.push(q)) == extra_rules_spec(paths, quoted) + path_rules(p, q),
        extra_rules_spec(seq![p], seq![q]) == path_rules(p, q),
{
    let f = " (subpath "@ + q + ")"@;
    lemma_rule_text(p.default_, "process-exec file*"@, f);
    lemma_rule_text(p.read, "file-read*"@, f);
    lemma_rule_text(p.write, "file-write*"@, f);
    lemma_rule_text(p.execute, "process-exec"@, f);
    assert(paths.push(p).drop_last() =~= paths);
    assert(quoted.push(q).drop_last() =~= quoted);
    let np = Seq::<PathConfigView>::empty();
    let nq = Seq::<Seq<char>>::empty();
    assert(np.push(p) =~= seq![p]);
    assert(nq.push(q) =~= seq![q]);
    assert(np.push(p).drop_last() =~= np);
    assert(nq.push(q).drop_last() =~= nq);
    assert(extra_rules_spec(np, nq) == Seq::<char>::empty());
    assert(Seq::<char>::empty() + path_rules(p, q) =~= path_rules(p, q));
}

/// The network rules, in the order in which they stand in the profile:
/// the rule of `all` (all traffic), then that of `external` (traffic to
/// any host), then that of `local` (traffic to the local host). A later
/// rule decides where they overlap, so whenever `local` is set its rule is
/// the last one and decides access to the local host, whatever `external`
/// and `all` say.
pub proof fn law_network_rules_local_last(n: SandboxNetworkConfig)
    ensures
        network_rules_spec(n) == rule_text(n.all, "network*"@, Seq::empty()) + rule_text(
            n.external,
            "network*"@,
            " (remote ip \"*:*\")"@,
        ) + rule_text(n.local, "network*"@, " (remote ip \"localhost:*\")"@),
        n.local is Some ==> ({
            let last = rule_text(n.local, "network*"@, " (remote ip \"localhost:*\")"@);
            let all = network_rules_spec(n);
            last.len() > 0 && last.len() <= all.len() && all.subrange(all.len() - last.len(), all.len() as int)
                == last
        }),
{
    reveal_strlit(" (remote ip \"*:*\")");
    reveal_strlit(" (remote ip \"localhost:*\")");
    lemma_rule_text(n.all, "network*"@, Seq::empty());
    lemma_rule_text(n.external, "network*"@, " (remote ip \"*:*\")"@);
    lemma_rule_text(n.local, "network*"@, " (remote ip \"localhost:*\")"@);
    reveal_strlit("(deny ");
    reveal_strlit("(allow ");
    let last = rule_text(n.local, "network*"@, " (remote ip \"localhost:*\")"@);
    let front = rule_text(n.all, "network*"@, Seq::empty()) + rule_text(
        n.external,
        "network*"@,
        " (remote ip \"*:*\")"@,
    );
    let all = network_rules_spec(n);
    assert(all =~= front + last);
    assert(all.subrange(front.len() as int, all.len() as int) =~= last);
}

/// A build script is classified by its build directory
/// `.../build/<PACKAGE>-<HASH>/build-script-build`: the package is the
/// directory name before its last `-`, so the name is the package, a `-`,
/// and a rest without `-`.
pub proof fn law_build_script_package(bin: Seq<u8>, args: Seq<Seq<u8>>, env: Seq<Seq<u8>>)
    ensures
        parse_spec(bin, args, env) matches Some(ProcessKindView::BuildScript { package, .. }) ==> ({
            let name = decode_utf8(file_name_of(parent_of(bin).unwrap()).unwrap());
            &&& package.len() < name.len()
            &&& name.subrange(0, package.len() as int) == package
            &&& name[package.len() as int] == '-'
            &&& forall|i: int| package.len() < i < name.len() ==> name[i] != '-'
        }),
{
    if parse_spec(bin, args, env) is Some && parse_spec(bin, args, env)->0 is BuildScript {
        reveal_strlit("-");
        let name = decode_utf8(file_name_of(parent_of(bin).unwrap()).unwrap());
        let dash = "-"@;
        assert(dash.len() == 1 && dash[0] == '-');
        lemma_rfind_from(name, dash, name.len() - 1);
        let j = crate::text::last_occurrence(name, dash).unwrap();
        let package = parse_spec(bin, args, env)->0->BuildScript_package;
        assert(package == name.subrange(0, j));
        assert(name.subrange(j, j + 1)[0] == name[j]);
        assert forall|i: int| package.len() < i < name.len() implies name[i] != '-' by {
            if name[i] == '-' {
                assert(name.subrange(i, i + 1) =~= dash);
                assert(occurs_at(name, dash, i));
            }
        }
    }
}

/// `sandbox-exec` runs the program with the arguments that Cargo gave it
/// after the program name, never with the program name (`argv[0]`) itself:
/// the list is `sandbox-exec`, `-p`, the profile, the path, then
/// `argv[1..]` in order (four entries when `argv` holds at most the name).
pub proof fn law_sandbox_exec_skips_arg0(policy: Seq<u8>, path: Seq<u8>, argv: Seq<Seq<u8>>)
    ensures
        ({
            let r = sandbox_exec_args_spec(policy, path, argv);
            &&& r.len() == if argv.len() == 0 {
                4
            } else {
                argv.len() + 3
            }
            &&& r[0] == lit("/usr/bin/sandbox-exec")
            &&& r[1] == lit("-p")
            &&& r[2] == policy
            &&& r[3] == path
            &&& forall|i: int| 1 <= i < argv.len() ==> r[i + 3] == argv[i]
        }),
{
    let r = sandbox_exec_args_spec(policy, path, argv);
    if argv.len() > 0 {
        assert forall|i: int| 1 <= i < argv.len() implies r[i + 3] == argv[i] by {
            assert(argv.drop_first()[i - 1] == argv[i]);
        }
    }
}

} // verus!
