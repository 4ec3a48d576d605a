//! Properties that tie the profile message of a sandboxed process to what
//! the log analyzer reads back.

use vstd::prelude::*;
use crate::kind::ProcessKindView;
use crate::log_analyzer::{
    clean_violation, log_needle, log_predicate_spec, parse_log_spec, LogMessageView, SandboxLogKind,
};
use crate::policy::{kind_word, policy_message_spec};
use crate::text::{
    decimal, digit_char, first_occurrence, last_occurrence, lemma_find_from, lemma_rfind_from, occurs_at,
    signed_decimal,
};

verus! {

/// No character of `s` is `c`.
pub open spec fn lacks_char(s: Seq<char>, c: char) -> bool {
    forall|i: int| 0 <= i < s.len() ==> s[i] != c
}

proof fn lemma_decimal_chars(n: nat)
    ensures
        forall|i: int| 0 <= i < decimal(n).len() ==> '0' <= #[trigger] decimal(n)[i] <= '9',
    decreases n,
{
    let s = decimal(n);
    if n >= 10 {
        lemma_decimal_chars(n / 10);
        let front = decimal(n / 10);
        assert forall|i: int| 0 <= i < s.len() implies '0' <= #[trigger] s[i] <= '9' by {
            if i < front.len() {
                assert(s[i] == front[i]);
            } else {
                assert(s[i] == digit_char((n % 10) as int));
            }
        }
    } else {
        assert forall|i: int| 0 <= i < s.len() implies '0' <= #[trigger] s[i] <= '9' by {
            assert(s[i] == digit_char(n as int));
        }
    }
}

proof fn lemma_signed_decimal_chars(n: int)
    ensures
        lacks_char(signed_decimal(n), ','),
        lacks_char(signed_decimal(n), '\n'),
{
    if n < 0 {
        lemma_decimal_chars((-n) as nat);
        let s = signed_decimal(n);
        assert forall|i: int| 0 <= i < s.len() implies s[i] != ',' && s[i] != '\n' by {
            if i > 0 {
                assert(s[i] == decimal((-n) as nat)[i - 1]);
            }
        }
    } else {
        lemma_decimal_chars(n as nat);
    }
}

proof fn lemma_concat_lacks(a: Seq<char>, b: Seq<char>, c: char)
    requires
        lacks_char(a, c),
        lacks_char(b, c),
    ensures
        lacks_char(a + b, c),
{
    assert forall|i: int| 0 <= i < (a + b).len() implies (a + b)[i] != c by {
        if i >= a.len() {
            assert((a + b)[i] == b[i - a.len()]);
        }
    }
}

proof fn lemma_first_at(h: Seq<char>, n: Seq<char>, j: int)
    requires
        occurs_at(h, n, j),
        forall|k: int| 0 <= k < j ==> !#[trigger] occurs_at(h, n, k),
    ensures
        first_occurrence(h, n) == Some(j),
{
    lemma_find_from(h, n, 0);
}

proof fn lemma_last_at(h: Seq<char>, n: Seq<char>, j: int)
    requires
        occurs_at(h, n, j),
        forall|k: int| j < k ==> !#[trigger] occurs_at(h, n, k),
    ensures
        last_occurrence(h, n) == Some(j),
{
    lemma_rfind_from(h, n, h.len() - n.len());
}

/// A violation that the kernel reports for a sandboxed process is read back
/// with the origin that the process's profile message names: the analyzer
/// parses `VIOLATION\n` followed by the message of `policy_message` into
/// the cleaned violation, the kind of the process and its package (when
/// the package name holds no newline).
pub proof fn law_logged_origin_read_back(violation: Seq<char>, pid: int, kind: ProcessKindView)
    requires
        !(kind is Other),
        lacks_char(kind.package(), '\n'),
    ensures
        parse_log_spec(violation + "\n"@ + policy_message_spec(pid, kind)) == Some(
            Ok::<LogMessageView, crate::log_analyzer::LogParseError>(
                LogMessageView {
                    message: clean_violation(violation),
                    kind: if kind is BuildScript {
                        SandboxLogKind::BuildScript
                    } else {
                        SandboxLogKind::Rustc
                    },
                    package: kind.package(),
                },
            ),
        ),
{
    reveal_strlit("\n");
    reveal_strlit("\ninterpose-sandbox(");
    reveal_strlit("interpose-sandbox(");
    reveal_strlit(", ");
    reveal_strlit(")");
    reveal_strlit("rustc");
    reveal_strlit("build-script");
    let d = signed_decimal(pid);
    let w = kind_word(kind);
    let p = kind.package();
    let head = "interpose-sandbox("@;
    let sep = ", "@;
    let close = ")"@;
    let m = head + d + sep + w + sep + p + close;
    assert(m == policy_message_spec(pid, kind));
    let text = violation + "\n"@ + m;
    let marker = "\ninterpose-sandbox("@;
    assert(marker =~= "\n"@ + head);
    let i0 = violation.len() as int;
    // The marker occurs where the message starts, and nowhere after it.
    assert(text.subrange(i0, i0 + marker.len()) =~= marker);
    lemma_signed_decimal_chars(pid);
    assert(lacks_char(head, '\n'));
    assert(lacks_char(sep, '\n'));
    assert(lacks_char(close, '\n'));
    assert(lacks_char(w, '\n'));
    lemma_concat_lacks(head, d, '\n');
    lemma_concat_lacks(head + d, sep, '\n');
    lemma_concat_lacks(head + d + sep, w, '\n');
    lemma_concat_lacks(head + d + sep + w, sep, '\n');
    lemma_concat_lacks(head + d + sep + w + sep, p, '\n');
    lemma_concat_lacks(head + d + sep + w + sep + p, close, '\n');
    assert forall|k: int| i0 < k implies !#[trigger] occurs_at(text, marker, k) by {
        if occurs_at(text, marker, k) {
            assert(text.subrange(k, k + marker.len())[0] == marker[0]);
            assert(text[k] == m[k - i0 - 1]);
        }
    }
    lemma_last_at(text, marker, i0);
    let custom = text.subrange(i0 + marker.len(), text.len() as int);
    assert(text.subrange(0, i0) =~= violation);
    let inner = d + sep + w + sep + p;
    assert(custom =~= inner + close);
    assert(custom.subrange(custom.len() - 1, custom.len() as int) =~= close);
    assert(custom.subrange(0, custom.len() - 1) =~= inner);
    // The pid holds no comma, so the first separator follows it.
    assert(inner.subrange(d.len() as int, d.len() as int + 2) =~= sep);
    assert forall|k: int| 0 <= k < d.len() implies !#[trigger] occurs_at(inner, sep, k) by {
        if occurs_at(inner, sep, k) {
            assert(inner.subrange(k, k + 2)[0] == sep[0]);
            assert(inner[k] == d[k]);
        }
    }
    lemma_first_at(inner, sep, d.len() as int);
    let rest = w + sep + p;
    assert(inner.subrange(d.len() as int + 2, inner.len() as int) =~= rest);
    assert(inner.subrange(0, d.len() as int) =~= d);
    // The kind holds no comma either.
    assert(lacks_char(w, ','));
    assert(rest.subrange(w.len() as int, w.len() as int + 2) =~= sep);
    assert forall|k: int| 0 <= k < w.len() implies !#[trigger] occurs_at(rest, sep, k) by {
        if occurs_at(rest, sep, k) {
            assert(rest.subrange(k, k + 2)[0] == sep[0]);
            assert(rest[k] == w[k]);
        }
    }
    lemma_first_at(rest, sep, w.len() as int);
    assert(rest.subrange(0, w.len() as int) =~= w);
    assert(rest.subrange(w.len() as int + 2, rest.len() as int) =~= p);
    assert("rustc"@.len() != "build-script"@.len());
}

proof fn lemma_decimal_nonempty(n: nat)
    ensures
        decimal(n).len() >= 1,
    decreases n,
{
    if n >= 10 {
        lemma_decimal_nonempty(n / 10);
    }
}

proof fn lemma_decimal_injective(a: nat, b: nat)
    requires
        decimal(a) == decimal(b),
    ensures
        a == b,
    decreases a,
{
    lemma_decimal_nonempty(a / 10);
    lemma_decimal_nonempty(b / 10);
    if a < 10 && b < 10 {
        assert(decimal(a)[0] == digit_char(a as int));
        assert(decimal(b)[0] == digit_char(b as int));
    } else if a < 10 {
        assert(decimal(b).len() >= 2);
    } else if b < 10 {
        assert(decimal(a).len() >= 2);
    } else {
        let da = decimal(a / 10);
        let db = decimal(b / 10);
        assert(decimal(a).drop_last() =~= da);
        assert(decimal(b).drop_last() =~= db);
        lemma_decimal_injective(a / 10, b / 10);
        assert(decimal(a).last() == digit_char((a % 10) as int));
        assert(decimal(b).last() == digit_char((b % 10) as int));
        assert(a % 10 == b % 10);
    }
}

/// The characters of an integer's decimal form: digits, after a `-` in
/// front exactly when it is negative.
proof fn lemma_signed_decimal_digits(n: int)
    ensures
        signed_decimal(n).len() >= 1,
        n < 0 ==> signed_decimal(n)[0] == '-',
        forall|i: int|
            0 <= i < signed_decimal(n).len() && !(n < 0 && i == 0) ==> '0' <= #[trigger] signed_decimal(n)[i]
                <= '9',
{
    if n < 0 {
        lemma_decimal_chars((-n) as nat);
        lemma_decimal_nonempty((-n) as nat);
        let s = signed_decimal(n);
        assert forall|i: int| 0 < i < s.len() implies '0' <= #[trigger] s[i] <= '9' by {
            assert(s[i] == decimal((-n) as nat)[i - 1]);
        }
    } else {
        lemma_decimal_chars(n as nat);
        lemma_decimal_nonempty(n as nat);
    }
}

/// The needle of `pid` occurs in the profile message of a process started
/// under `q` only at its start, and only when `q` is `pid`.
proof fn lemma_needle_only_own(pid: nat, q: int, kind: ProcessKindView, i: int)
    requires
        lacks_char(kind.package(), '('),
        occurs_at(policy_message_spec(q, kind), log_needle(pid), i),
    ensures
        q == pid,
        i == 0,
{
    reveal_strlit("interpose-sandbox(");
    reveal_strlit(", ");
    reveal_strlit(")");
    reveal_strlit("rustc");
    reveal_strlit("build-script");
    let a = "interpose-sandbox("@;
    let d = decimal(pid);
    let sq = signed_decimal(q);
    let n = log_needle(pid);
    let m = policy_message_spec(q, kind);
    let rest = sq + ", "@ + kind_word(kind) + ", "@ + kind.package() + ")"@;
    assert(m =~= a + rest);
    assert(a.len() == 18);
    assert(n =~= a + d + ", "@);
    lemma_signed_decimal_digits(q);
    lemma_decimal_chars(pid);
    assert(lacks_char(sq, '(')) by {
        assert forall|k: int| 0 <= k < sq.len() implies sq[k] != '(' by {
            if !(q < 0 && k == 0) {
                assert('0' <= sq[k] <= '9');
            }
        }
    }
    assert(lacks_char(kind_word(kind), '('));
    lemma_concat_lacks(sq, ", "@, '(');
    lemma_concat_lacks(sq + ", "@, kind_word(kind), '(');
    lemma_concat_lacks(sq + ", "@ + kind_word(kind), ", "@, '(');
    lemma_concat_lacks(sq + ", "@ + kind_word(kind) + ", "@, kind.package(), '(');
    lemma_concat_lacks(sq + ", "@ + kind_word(kind) + ", "@ + kind.package(), ")"@, '(');
    // The `(` of the needle must be the `(` of the message's prefix.
    assert(m.subrange(i, i + n.len()) == n);
    assert(m[i + 17] == n[17]);
    if i > 0 {
        assert(m[i + 17] == rest[i - 1]);
        assert(false);
    }
    // The pids end at the first `,`.
    let len_d = d.len() as int;
    let len_s = sq.len() as int;
    assert(m.subrange(0, n.len() as int) == n);
    if len_d < len_s {
        assert(n[18 + len_d] == ',');
        assert(m[18 + len_d] == sq[len_d]);
        if !(q < 0 && len_d == 0) {
            assert('0' <= sq[len_d] <= '9');
        }
        assert(false);
    } else if len_d > len_s {
        assert(m[18 + len_s] == ',');
        assert(n[18 + len_s] == d[len_s]);
        assert('0' <= d[len_s] <= '9');
        assert(false);
    }
    assert(sq =~= d) by {
        assert forall|k: int| 0 <= k < len_d implies sq[k] == d[k] by {
            assert(m[18 + k] == n[18 + k]);
        }
    }
    if q < 0 {
        lemma_decimal_nonempty(pid);
        assert('0' <= d[0] <= '9');
        assert(false);
    }
    lemma_decimal_injective(q as nat, pid);
}

/// The `log stream` predicate of the `cargo-sandbox` process `pid` selects
/// exactly the violations of the processes started under it: it asks for
/// messages containing `interpose-sandbox(PID, `, which the profile message
/// of every such process starts with, and which occurs nowhere in the
/// profile message of a process started under another pid (when the
/// package name holds no `(`).
pub proof fn law_predicate_selects_own_messages(pid: nat, q: int, kind: ProcessKindView)
    ensures
        ({
            let pred = log_predicate_spec(pid);
            let needle = log_needle(pid);
            pred.subrange(pred.len() - needle.len() - 1, pred.len() - 1) == needle
        }),
        occurs_at(policy_message_spec(pid as int, kind), log_needle(pid), 0),
        lacks_char(kind.package(), '(') ==> forall|i: int|
            #[trigger] occurs_at(policy_message_spec(q, kind), log_needle(pid), i) ==> q == pid && i == 0,
{
    reveal_strlit("interpose-sandbox(");
    reveal_strlit(", ");
    reveal_strlit("\"");
    let needle = log_needle(pid);
    let pred = log_predicate_spec(pid);
    let msg = policy_message_spec(pid as int, kind);
    assert(signed_decimal(pid as int) == decimal(pid));
    assert(msg.subrange(0, needle.len() as int) =~= needle);
    assert(pred.subrange(pred.len() - needle.len() - 1, pred.len() - 1) =~= needle);
    if lacks_char(kind.package(), '(') {
        assert forall|i: int| #[trigger] occurs_at(policy_message_spec(q, kind), needle, i) implies q == pid
            && i == 0 by {
            lemma_needle_only_own(pid, q, kind, i);
        }
    }
}

} // verus!
