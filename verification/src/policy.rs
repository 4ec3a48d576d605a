//! The parts of a sandbox profile that depend on the configuration and on
//! the process being sandboxed.

use vstd::prelude::*;
use crate::config::{SandboxNetworkConfig, SandboxOption, SandboxPackageConfig, PathConfigView, paths_view};
use crate::kind::{ProcessKind, ProcessKindView, lit};
use crate::path::{ends_with_components, file_name, file_name_of, parent, parent_of};
use crate::text::{chars_of, matches_at, occurs_at, signed_decimal, signed_decimal_string};

verus! {

/// The `Debug` rendering of a string (quoted, with special characters escaped).
pub uninterp spec fn debug_quoted(s: Seq<char>) -> Seq<char>;

/// `<str as Debug>::fmt`, through `format!("{s:?}")`: the result is the
/// `Debug` rendering of `s`, which is named and not spelled out.
#[verifier::external_body]
fn debug_str(s: &str) -> (res: String)
    ensures
        res@ == debug_quoted(s@),
{
    format!("{s:?}")
}

/// Quotes a string for a sandbox profile.
pub fn quote_str(s: &str) -> (res: String)
    ensures
        res@ == debug_quoted(s@),
{
    debug_str(s)
}

/// Converts a boolean to a scheme boolean.
pub fn boolean(value: bool) -> (res: &'static str)
    ensures
        value ==> res@ == "#t"@,
        !value ==> res@ == "#f"@,
{
    if value {
        "#t"
    } else {
        "#f"
    }
}

/// Whether an option lifts the sandbox: `allow` disables it, and `warn`
/// disables it while reporting what would have been denied.
pub open spec fn lifts_sandbox(o: Option<SandboxOption>) -> bool {
    o == Some(SandboxOption::Allow) || o == Some(SandboxOption::Warn)
}

/// The action of a profile rule for an option: `deny` for `deny`, `allow`
/// for `allow` and `warn`.
pub open spec fn action_word(o: SandboxOption) -> Seq<char> {
    match o {
        SandboxOption::Deny => "deny"@,
        _ => "allow"@,
    }
}

/// The modifier of a profile rule for an option: a `warn` rule allows the
/// access and reports it.
pub open spec fn report_modifier(o: SandboxOption) -> Seq<char> {
    match o {
        SandboxOption::Warn => " (with report)"@,
        _ => Seq::empty(),
    }
}

/// The profile rule `(ACTION OPERATIONS [(with report)] FILTER)` for an
/// option; `filter` is empty or starts with a space.
pub open spec fn rule_spec(o: SandboxOption, operations: Seq<char>, filter: Seq<char>) -> Seq<char> {
    "("@ + action_word(o) + " "@ + operations + report_modifier(o) + filter + ")\n"@
}

/// The rule for an option that may be unset (no rule then).
pub open spec fn opt_rule(o: Option<SandboxOption>, operations: Seq<char>, filter: Seq<char>) -> Seq<char> {
    match o {
        Some(o) => rule_spec(o, operations, filter),
        None => Seq::empty(),
    }
}

/// The word that names the kind of a sandboxed process in its log marker.
pub open spec fn kind_word(kind: ProcessKindView) -> Seq<char> {
    if kind is BuildScript {
        "build-script"@
    } else {
        "rustc"@
    }
}

/// The message `interpose-sandbox(PID, KIND, PACKAGE)` that the profile of
/// a sandboxed process carries, so that the violations the kernel reports
/// for it can be traced back to it.
pub open spec fn policy_message_spec(pid: int, kind: ProcessKindView) -> Seq<char> {
    "interpose-sandbox("@ + signed_decimal(pid) + ", "@ + kind_word(kind) + ", "@ + kind.package() + ")"@
}

/// The message `interpose-sandbox(PID, KIND, PACKAGE)` for the process
/// `kind`, started under the `cargo-sandbox` process `pid`.
pub fn policy_message(pid: i32, kind: &ProcessKind) -> (res: String)
    requires
        !(kind@ is Other),
    ensures
        res@ == policy_message_spec(pid as int, kind@),
{
    let mut s = String::from_str("interpose-sandbox(");
    let p = signed_decimal_string(pid as i64);
    s.append(p.as_str());
    s.append(", ");
    let word = match kind {
        ProcessKind::BuildScript { .. } => "build-script",
        _ => "rustc",
    };
    s.append(word);
    s.append(", ");
    s.append(kind.package());
    s.append(")");
    s
}

/// Whether the profile allows all network access: the `all` option is
/// `allow` or `warn`.
pub fn allow_network(config: &SandboxPackageConfig) -> (res: bool)
    ensures
        res == lifts_sandbox(config@.network.all),
{
    match config.network.all {
        Some(SandboxOption::Allow) => true,
        Some(SandboxOption::Warn) => true,
        _ => false,
    }
}

/// The filter of local network traffic.
pub open spec fn local_filter() -> Seq<char> {
    " (remote ip \"localhost:*\")"@
}

/// The filter of traffic to any host.
pub open spec fn remote_filter() -> Seq<char> {
    " (remote ip \"*:*\")"@
}

/// The network rules of a configuration, from the most general to the most
/// specific, so that a later one decides where they overlap: all network
/// access, then access to any host, then access to the local host.
pub open spec fn network_rules_spec(n: SandboxNetworkConfig) -> Seq<char> {
    opt_rule(n.all, "network*"@, Seq::empty()) + opt_rule(n.external, "network*"@, remote_filter()) + opt_rule(
        n.local,
        "network*"@,
        local_filter(),
    )
}

fn push_rule(out: &mut String, option: Option<SandboxOption>, operations: &str, filter: &str)
    ensures
        final(out)@ == old(out)@ + opt_rule(option, operations@, filter@),
{
    match option {
        Some(o) => {
            out.append("(");
            match o {
                SandboxOption::Deny => out.append("deny"),
                _ => out.append("allow"),
            }
            out.append(" ");
            out.append(operations);
            match o {
                SandboxOption::Warn => out.append(" (with report)"),
                _ => {},
            }
            out.append(filter);
            out.append(")\n");
            proof {
                reveal_strlit("(");
                reveal_strlit(" ");
                reveal_strlit(")\n");
                reveal_strlit("deny");
                reveal_strlit("allow");
                reveal_strlit(" (with report)");
                let m = report_modifier(o);
                assert(final(out)@ =~= old(out)@ + rule_spec(o, operations@, filter@));
            }
        },
        None => {
            assert(old(out)@ + Seq::<char>::empty() =~= old(out)@);
        },
    }
}

/// The network rules of `network`: for the `all`, `external` and `local`
/// options in turn, each only when set, a `network*` rule for all traffic,
/// for traffic to any host and for traffic to the local host. `allow`
/// allows the access, `warn` allows and reports it, `deny` denies it.
pub fn network_rules(network: &SandboxNetworkConfig) -> (res: String)
    ensures
        res@ == network_rules_spec(*network),
{
    let mut out = String::new();
    push_rule(&mut out, network.all, "network*", "");
    push_rule(&mut out, network.external, "network*", " (remote ip \"*:*\")");
    push_rule(&mut out, network.local, "network*", " (remote ip \"localhost:*\")");
    proof {
        reveal_strlit("");
        assert(Seq::<char>::empty() + network_rules_spec(*network) =~= network_rules_spec(*network));
    }
    out
}

/// The filter of a path and everything below it, `quoted` being the
/// quoted canonical path.
pub open spec fn subpath_filter(quoted: Seq<char>) -> Seq<char> {
    " (subpath "@ + quoted + ")"@
}

/// The profile rules of one configured path, `quoted` being the quoted
/// canonical path: its general option covers executing and every file
/// operation (`process-exec file*`: reading, writing, deleting, ...), then
/// its read, write and exec options cover `file-read*`, `file-write*` and
/// `process-exec`. Later rules decide where they overlap.
pub open spec fn path_rules(p: PathConfigView, quoted: Seq<char>) -> Seq<char> {
    let f = subpath_filter(quoted);
    opt_rule(p.default_, "process-exec file*"@, f) + opt_rule(p.read, "file-read*"@, f) + opt_rule(
        p.write,
        "file-write*"@,
        f,
    ) + opt_rule(p.execute, "process-exec"@, f)
}

/// The rules of all configured paths, in order.
pub open spec fn extra_rules_spec(paths: Seq<PathConfigView>, quoted: Seq<Seq<char>>) -> Seq<char>
    decreases paths.len(),
{
    if paths.len() == 0 || quoted.len() == 0 {
        Seq::empty()
    } else {
        extra_rules_spec(paths.drop_last(), quoted.drop_last()) + path_rules(paths.last(), quoted.last())
    }
}

/// The profile rules of the configured paths, in order (a later path's
/// rules decide where they overlap with an earlier one's): for each path
/// the rules of `path_rules`, each only when its option is set. `allow`
/// allows the access, `warn` allows and reports it, `deny` denies it.
/// `quoted[i]` is the quoted canonical form of `paths[i].path`.
pub fn extra_rules(paths: &Vec<crate::config::SandboxPathConfig>, quoted: &Vec<String>) -> (res: String)
    requires
        paths@.len() == quoted@.len(),
    ensures
        res@ == extra_rules_spec(paths_view(paths@), quoted@.map_values(|q: String| q@)),
{
    let ghost pv = paths_view(paths@);
    let ghost qv = quoted@.map_values(|q: String| q@);
    let mut out = String::new();
    let mut i: usize = 0;
    assert(pv.subrange(0, 0).len() == 0);
    while i < paths.len()
        invariant
            i <= paths@.len(),
            paths@.len() == quoted@.len(),
            pv == paths_view(paths@),
            qv == quoted@.map_values(|q: String| q@),
            out@ == extra_rules_spec(pv.subrange(0, i as int), qv.subrange(0, i as int)),
        decreases paths@.len() - i,
    {
        let p = &paths[i];
        let q = quoted[i].as_str();
        assert(pv[i as int] == p@);
        assert(qv[i as int] == q@);
        let ghost before = out@;
        let mut filter = String::from_str(" (subpath ");
        filter.append(q);
        filter.append(")");
        proof {
            reveal_strlit(" (subpath ");
            reveal_strlit(")");
            assert(filter@ =~= subpath_filter(q@));
        }
        push_rule(&mut out, p.default_, "process-exec file*", filter.as_str());
        push_rule(&mut out, p.read, "file-read*", filter.as_str());
        push_rule(&mut out, p.write, "file-write*", filter.as_str());
        push_rule(&mut out, p.execute, "process-exec", filter.as_str());
        proof {
            assert(pv.subrange(0, i + 1).drop_last() =~= pv.subrange(0, i as int));
            assert(qv.subrange(0, i + 1).drop_last() =~= qv.subrange(0, i as int));
            assert(pv.subrange(0, i + 1).last() == p@);
            assert(qv.subrange(0, i + 1).last() == q@);
            assert(out@ =~= before + path_rules(p@, q@));
        }
        i = i + 1;
    }
    assert(pv.subrange(0, paths@.len() as int) =~= pv);
    assert(qv.subrange(0, paths@.len() as int) =~= qv);
    out
}

/// The Xcode directory of the developer directory `p`: the application
/// bundle for `.../Contents/Developer`, the command line tools for
/// `.../SDKs`, and `p` itself otherwise.
pub open spec fn xcode_dir_spec(p: Seq<u8>) -> Seq<u8> {
    if ends_with_components(p, seq![lit("Contents"), lit("Developer")]) {
        parent_of(parent_of(p).unwrap()).unwrap()
    } else if ends_with_components(p, seq![lit("SDKs")]) {
        parent_of(p).unwrap()
    } else {
        p
    }
}

/// The Xcode directory of the developer directory `developer_dir`
/// (`/Applications/Xcode.app/Contents/Developer` gives
/// `/Applications/Xcode.app`, `/Library/Developer/CommandLineTools/SDKs`
/// gives `/Library/Developer/CommandLineTools`).
pub fn xcode_dir(developer_dir: &[u8]) -> (res: Vec<u8>)
    ensures
        res@ == xcode_dir_spec(developer_dir@),
{
    let p = developer_dir;
    let ghost two = seq![lit("Contents"), lit("Developer")];
    let ghost one = seq![lit("SDKs")];
    proof {
        assert(two.last() == lit("Developer"));
        assert(two.drop_last() =~= seq![lit("Contents")]);
        assert(seq![lit("Contents")].drop_last() =~= Seq::<Seq<u8>>::empty());
        assert(one.drop_last() =~= Seq::<Seq<u8>>::empty());
        crate::path::lemma_file_name_has_parent(p@);
        reveal_with_fuel(ends_with_components, 3);
        reveal_strlit("SDKs");
        reveal_strlit("Developer");
        vstd::utf8::is_ascii_chars_encode_utf8("SDKs"@);
        vstd::utf8::is_ascii_chars_encode_utf8("Developer"@);
        assert(lit("SDKs").len() != lit("Developer").len());
    }
    let name = file_name(p);
    let up = parent(p);
    match (name, up) {
        (Some(n), Some(q)) => {
            if crate::bytes::bytes_equal(n.as_slice(), "Developer".as_bytes()) {
                proof {
                    crate::path::lemma_file_name_has_parent(q@);
                }
                match file_name(q.as_slice()) {
                    Some(m) => {
                        if crate::bytes::bytes_equal(m.as_slice(), "Contents".as_bytes()) {
                            match parent(q.as_slice()) {
                                Some(r) => {
                                    return r;
                                },
                                None => {},
                            }
                        }
                    },
                    None => {},
                }
            }
            if crate::bytes::bytes_equal(n.as_slice(), "SDKs".as_bytes()) {
                return q;
            }
            crate::bytes::concat_bytes(p, &[])
        },
        _ => {
            crate::bytes::concat_bytes(p, &[])
        },
    }
}

/// Where the rewriting of a profile for `warn` stands.
#[derive(Debug, Clone, Copy, PartialEq, Eq, Structural)]
pub enum WarnMode {
    /// Between rules.
    Text,
    /// In the operations of a rewritten rule.
    Operations,
    /// In a quoted string.
    Quoted,
    /// After a backslash in a quoted string.
    Escape,
    /// In a `;` comment, up to the end of the line.
    Comment,
}

pub open spec fn warn_rank(m: WarnMode) -> int {
    if m is Operations {
        1
    } else {
        0
    }
}

/// The profile text `s`, read from mode `m`, with every `deny` rule turned
/// into an `allow` rule that reports: `(deny OPERATIONS FILTERS)` becomes
/// `(allow OPERATIONS (with report) FILTERS)`. Quoted strings and comments
/// are copied unchanged.
pub open spec fn warn_from(s: Seq<char>, m: WarnMode) -> Seq<char>
    decreases s.len(), warn_rank(m),
{
    if s.len() == 0 {
        Seq::empty()
    } else {
        match m {
            WarnMode::Text => if s.len() >= 6 && occurs_at(s, "(deny "@, 0) {
                "(allow "@ + warn_from(s.subrange(6, s.len() as int), WarnMode::Operations)
            } else if s[0] == '"' {
                seq![s[0]] + warn_from(s.drop_first(), WarnMode::Quoted)
            } else if s[0] == ';' {
                seq![s[0]] + warn_from(s.drop_first(), WarnMode::Comment)
            } else {
                seq![s[0]] + warn_from(s.drop_first(), WarnMode::Text)
            },
            WarnMode::Operations => if s[0] == '(' {
                "(with report) "@ + warn_from(s, WarnMode::Text)
            } else if s[0] == ')' {
                " (with report)"@ + warn_from(s, WarnMode::Text)
            } else {
                seq![s[0]] + warn_from(s.drop_first(), WarnMode::Operations)
            },
            WarnMode::Quoted => if s[0] == '\\' {
                seq![s[0]] + warn_from(s.drop_first(), WarnMode::Escape)
            } else if s[0] == '"' {
                seq![s[0]] + warn_from(s.drop_first(), WarnMode::Text)
            } else {
                seq![s[0]] + warn_from(s.drop_first(), WarnMode::Quoted)
            },
            WarnMode::Escape => seq![s[0]] + warn_from(s.drop_first(), WarnMode::Quoted),
            WarnMode::Comment => if s[0] == '\n' {
                seq![s[0]] + warn_from(s.drop_first(), WarnMode::Text)
            } else {
                seq![s[0]] + warn_from(s.drop_first(), WarnMode::Comment)
            },
        }
    }
}

/// The profile for a process configured `warn`: the sandbox is lifted, and
/// what it would have denied is reported. Every `deny` rule of `policy`
/// becomes an `allow` rule with `(with report)` placed after its
/// operations; quoted strings and `;` comments are left as they are.
pub fn warn_profile(policy: &str) -> (res: String)
    ensures
        res@ == warn_from(policy@, WarnMode::Text),
{
    let chars = chars_of(policy);
    let deny = chars_of("(deny ");
    proof {
        reveal_strlit("(deny ");
        reveal_strlit("(allow ");
        reveal_strlit("(with report) ");
        reveal_strlit(" (with report)");
    }
    let len = chars.len();
    let mut out = String::new();
    let mut i: usize = 0;
    let mut mode = WarnMode::Text;
    assert(chars@.subrange(0, len as int) =~= policy@);
    assert(Seq::<char>::empty() + warn_from(policy@, WarnMode::Text) =~= warn_from(policy@, WarnMode::Text));
    while i < len
        invariant
            len == chars@.len(),
            i <= len,
            chars@ == policy@,
            deny@ == "(deny "@,
            deny@.len() == 6,
            out@ + warn_from(chars@.subrange(i as int, len as int), mode) == warn_from(policy@, WarnMode::Text),
        decreases 2 * (len - i) + warn_rank(mode),
    {
        let ghost rest = chars@.subrange(i as int, len as int);
        let ghost before = out@;
        assert(rest[0] == chars@[i as int]);
        assert(rest.drop_first() =~= chars@.subrange(i + 1, len as int));
        let c = chars[i];
        let one = policy.substring_char(i, i + 1);
        assert(one@ =~= seq![c]);
        match mode {
            WarnMode::Text => {
                if matches_at(&chars, &deny, i) {
                    assert(rest.subrange(0, 6) =~= chars@.subrange(i as int, i + 6));
                    assert(rest.subrange(6, rest.len() as int) =~= chars@.subrange(i + 6, len as int));
                    out.append("(allow ");
                    i = i + 6;
                    mode = WarnMode::Operations;
                } else {
                    assert(!(rest.len() >= 6 && occurs_at(rest, "(deny "@, 0))) by {
                        if occurs_at(rest, "(deny "@, 0) {
                            assert(rest.subrange(0, 6) =~= chars@.subrange(i as int, i + 6));
                        }
                    }
                    out.append(one);
                    if c == '"' {
                        mode = WarnMode::Quoted;
                    } else if c == ';' {
                        mode = WarnMode::Comment;
                    }
                    i = i + 1;
                }
            },
            WarnMode::Operations => {
                if c == '(' {
                    out.append("(with report) ");
                    mode = WarnMode::Text;
                } else if c == ')' {
                    out.append(" (with report)");
                    mode = WarnMode::Text;
                } else {
                    out.append(one);
                    i = i + 1;
                }
            },
            WarnMode::Quoted => {
                out.append(one);
                if c == '\\' {
                    mode = WarnMode::Escape;
                } else if c == '"' {
                    mode = WarnMode::Text;
                }
                i = i + 1;
            },
            WarnMode::Escape => {
                out.append(one);
                mode = WarnMode::Quoted;
                i = i + 1;
            },
            WarnMode::Comment => {
                out.append(one);
                if c == '\n' {
                    mode = WarnMode::Text;
                }
                i = i + 1;
            },
        }
        assert(out@ + warn_from(chars@.subrange(i as int, len as int), mode) =~= warn_from(policy@, WarnMode::Text));
    }
    assert(chars@.subrange(len as int, len as int) =~= Seq::<char>::empty());
    assert(out@ + Seq::<char>::empty() =~= out@);
    out
}

} // verus!
