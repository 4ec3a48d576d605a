//! Reading back the sandbox violations that the kernel logs.
//!
//! Every sandbox profile carries a message `interpose-sandbox(PID, KIND,
//! PACKAGE)`, which the kernel appends to each violation it reports; the
//! analyzer frames the JSON entries of `log stream`, parses the event
//! messages and groups them by their origin.

use vstd::prelude::*;
use crate::bytes::{byte_strings, concat_bytes, copy_range, ends_with, has_suffix};
use crate::text::{
    rsplit_once, rsplit_once_spec, split_once, split_once_spec, str_equal, strip_prefix,
    strip_prefix_spec, strip_suffix, strip_suffix_spec,
};

verus! {

/// Where a logged sandbox violation comes from.
#[derive(Debug, Clone, Copy, PartialEq, Eq, PartialOrd, Ord, Hash, Structural)]
pub enum SandboxLogKind {
    Rustc,
    BuildScript,
}

/// A sandbox violation, with the process it was reported for.
#[derive(Debug)]
pub struct SandboxLogMessage {
    pub message: String,
    pub kind: SandboxLogKind,
    pub package: String,
}

/// The mathematical value of a [`SandboxLogMessage`].
pub struct LogMessageView {
    pub message: Seq<char>,
    pub kind: SandboxLogKind,
    pub package: Seq<char>,
}

impl View for SandboxLogMessage {
    type V = LogMessageView;

    open spec fn view(&self) -> LogMessageView {
        LogMessageView { message: self.message@, kind: self.kind, package: self.package@ }
    }
}

/// A well-formed event message whose origin is neither `rustc` nor a
/// build script.
#[derive(Debug, Clone, Copy, PartialEq, Eq, Structural)]
pub enum LogParseError {
    /// failed parsing kind
    UnknownKind,
}

/// The violation text of a kernel message, without the `Sandbox: ` prefix
/// and without a leading `N duplicate report(s) for Sandbox: ` count.
pub open spec fn clean_violation(m: Seq<char>) -> Seq<char> {
    let m1 = match strip_prefix_spec(m, "Sandbox: "@) {
        Some(r) => r,
        None => m,
    };
    let m2 = match split_once_spec(m1, " duplicate reports for Sandbox: "@) {
        Some((_dups, r)) => r,
        None => m1,
    };
    match split_once_spec(m2, " duplicate report for Sandbox: "@) {
        Some((_dups, r)) => r,
        None => m2,
    }
}

/// The kind named in a log marker.
pub open spec fn kind_named(kind: Seq<char>) -> Option<SandboxLogKind> {
    if kind == "rustc"@ {
        Some(SandboxLogKind::Rustc)
    } else if kind == "build-script"@ {
        Some(SandboxLogKind::BuildScript)
    } else {
        None
    }
}

/// What an event message says: `None` when it is not of the form
/// `VIOLATION\ninterpose-sandbox(PID, KIND, PACKAGE)`, an error when the
/// kind is unknown, and the violation with its origin otherwise.
pub open spec fn parse_log_spec(text: Seq<char>) -> Option<Result<LogMessageView, LogParseError>> {
    match rsplit_once_spec(text, "\ninterpose-sandbox("@) {
        None => None,
        Some((violation, custom)) => match strip_suffix_spec(custom, ")"@) {
            None => None,
            Some(inner) => match split_once_spec(inner, ", "@) {
                None => None,
                Some((_pid, rest)) => match split_once_spec(rest, ", "@) {
                    None => None,
                    Some((kind, package)) => match kind_named(kind) {
                        Some(k) => Some(
                            Ok(LogMessageView { message: clean_violation(violation), kind: k, package }),
                        ),
                        None => Some(Err(LogParseError::UnknownKind)),
                    },
                },
            },
        },
    }
}

fn clean_violation_exec(m: String) -> (res: String)
    ensures
        res@ == clean_violation(m@),
{
    let m1 = match strip_prefix(m.as_str(), "Sandbox: ") {
        Some(r) => r,
        None => m,
    };
    let m2 = match split_once(m1.as_str(), " duplicate reports for Sandbox: ") {
        Some((_dups, r)) => r,
        None => m1,
    };
    match split_once(m2.as_str(), " duplicate report for Sandbox: ") {
        Some((_dups, r)) => r,
        None => m2,
    }
}

impl SandboxLogMessage {
    /// Parses a kernel event message; `None` exactly when it is not of the
    /// form `VIOLATION\ninterpose-sandbox(PID, KIND, PACKAGE)`.
    pub fn try_from_event_message(text: &str) -> (res: Option<Result<SandboxLogMessage, LogParseError>>)
        ensures
            res matches Some(Ok(m)) ==> parse_log_spec(text@) == Some(
                Ok::<LogMessageView, LogParseError>(m@),
            ),
            res matches Some(Err(e)) ==> parse_log_spec(text@) == Some(
                Err::<LogMessageView, LogParseError>(e),
            ),
            res is None ==> parse_log_spec(text@) is None,
    {
        let (violation, custom) = match rsplit_once(text, "\ninterpose-sandbox(") {
            Some(parts) => parts,
            None => return None,
        };
        let inner = match strip_suffix(custom.as_str(), ")") {
            Some(c) => c,
            None => return None,
        };
        let (_pid, rest) = match split_once(inner.as_str(), ", ") {
            Some(parts) => parts,
            None => return None,
        };
        let (kind, package) = match split_once(rest.as_str(), ", ") {
            Some(parts) => parts,
            None => return None,
        };
        let kind = if str_equal(kind.as_str(), "rustc") {
            SandboxLogKind::Rustc
        } else if str_equal(kind.as_str(), "build-script") {
            SandboxLogKind::BuildScript
        } else {
            return Some(Err(LogParseError::UnknownKind));
        };
        let message = clean_violation_exec(violation);
        Some(Ok(SandboxLogMessage { message, kind, package }))
    }

    /// Parses the kernel event message `VIOLATION\ninterpose-sandbox(PID,
    /// KIND, PACKAGE)` into the violation (without its `Sandbox: ` prefix and
    /// duplicate count) and its origin; an unknown kind is an error.
    pub fn from_event_message(text: &str) -> (res: Result<SandboxLogMessage, LogParseError>)
        requires
            parse_log_spec(text@) is Some,
        ensures
            res matches Ok(m) ==> parse_log_spec(text@) == Some(Ok::<LogMessageView, LogParseError>(m@)),
            res matches Err(e) ==> parse_log_spec(text@) == Some(Err::<LogMessageView, LogParseError>(e)),
    {
        match SandboxLogMessage::try_from_event_message(text) {
            Some(r) => r,
            None => {
                proof {
                    assert(false);
                }
                Err(LogParseError::UnknownKind)
            },
        }
    }
}

/// Index just past the first byte `b` at or after `i`, or the end of `s`.
pub open spec fn past_byte(s: Seq<u8>, i: int, b: u8) -> int
    decreases s.len() - i,
{
    if i < 0 || i >= s.len() {
        s.len() as int
    } else if s[i] == b {
        i + 1
    } else {
        past_byte(s, i + 1, b)
    }
}

pub proof fn lemma_past_byte(s: Seq<u8>, i: int, b: u8)
    requires
        0 <= i < s.len(),
    ensures
        i < past_byte(s, i, b) <= s.len(),
    decreases s.len() - i,
{
    if s[i] != b {
        if i + 1 < s.len() {
            lemma_past_byte(s, i + 1, b);
        } else {
            assert(past_byte(s, i + 1, b) == s.len());
        }
    }
}

/// The end of a log entry: a newline followed by `}`.
pub open spec fn entry_end() -> Seq<u8> {
    seq![10u8, 125u8]
}

/// The JSON entries of a `log stream --style json` output from index `i`
/// on, where `acc` holds the part of the current entry read so far: the
/// output is read up to each `}`, and an entry is complete when it ends
/// with a newline and `}`; the text up to the next `,` is then skipped. An
/// incomplete entry at the end is dropped.
pub open spec fn frames_from(s: Seq<u8>, i: int, acc: Seq<u8>) -> Seq<Seq<u8>>
    decreases s.len() - i,
{
    if i < 0 || i >= s.len() {
        Seq::empty()
    } else {
        let j = past_byte(s, i, 125u8);
        let data = acc + s.subrange(i, j);
        proof {
            lemma_past_byte(s, i, 125u8);
            if j < s.len() {
                lemma_past_byte(s, j, 44u8);
            }
        }
        if has_suffix(data, entry_end()) {
            seq![data] + frames_from(s, past_byte(s, j, 44u8), Seq::empty())
        } else {
            frames_from(s, j, data)
        }
    }
}

/// The JSON entries of a `log stream --style json` output: the first line
/// (which repeats the predicate) and everything up to the opening `[` are
/// skipped, then the entries are framed by `frames_from`.
pub open spec fn log_frames(s: Seq<u8>) -> Seq<Seq<u8>> {
    frames_from(s, past_byte(s, past_byte(s, 0, 10u8), 91u8), Seq::empty())
}

fn past_byte_exec(s: &[u8], i: usize, b: u8) -> (res: usize)
    requires
        i <= s@.len(),
    ensures
        res == past_byte(s@, i as int, b),
        i <= res <= s@.len(),
{
    let mut k: usize = i;
    while k < s.len()
        invariant
            i <= k <= s@.len(),
            past_byte(s@, k as int, b) == past_byte(s@, i as int, b),
        decreases s@.len() - k,
    {
        if s[k] == b {
            return k + 1;
        }
        k = k + 1;
    }
    k
}

/// Splits the output of `log stream --style json` into its JSON entries.
pub fn frame_log_entries(stream: &[u8]) -> (res: Vec<Vec<u8>>)
    ensures
        byte_strings(res@) == log_frames(stream@),
{
    let first_line = past_byte_exec(stream, 0, 10u8);
    let mut i = past_byte_exec(stream, first_line, 91u8);
    let mut acc: Vec<u8> = Vec::new();
    let mut out: Vec<Vec<u8>> = Vec::new();
    let end: Vec<u8> = vec![10u8, 125u8];
    assert(end@ =~= entry_end());
    assert(byte_strings(out@) + frames_from(stream@, i as int, acc@) =~= log_frames(stream@));
    while i < stream.len()
        invariant
            i <= stream@.len(),
            end@ == entry_end(),
            byte_strings(out@) + frames_from(stream@, i as int, acc@) == log_frames(stream@),
        decreases stream@.len() - i,
    {
        let j = past_byte_exec(stream, i, 125u8);
        proof {
            lemma_past_byte(stream@, i as int, 125u8);
        }
        let piece = copy_range(stream, i, j);
        let data = concat_bytes(acc.as_slice(), piece.as_slice());
        let ghost before = byte_strings(out@);
        if ends_with(data.as_slice(), end.as_slice()) {
            let next = past_byte_exec(stream, j, 44u8);
            let ghost d = data@;
            out.push(data);
            assert(byte_strings(out@) =~= before.push(d));
            assert(before.push(d) + frames_from(stream@, next as int, Seq::empty()) =~= before + (seq![d]
                + frames_from(stream@, next as int, Seq::empty())));
            acc = Vec::new();
            assert(acc@ =~= Seq::<u8>::empty());
            i = next;
        } else {
            acc = data;
            i = j;
        }
    }
    assert(byte_strings(out@) + Seq::<Seq<u8>>::empty() =~= byte_strings(out@));
    out
}

/// The sandbox violations of one process origin, for reporting.
#[derive(Debug)]
pub struct SandboxWarning {
    pub kind: SandboxLogKind,
    pub package: String,
    /// The distinct violations, in the order they were first reported.
    pub messages: Vec<String>,
}

/// The mathematical value of a [`SandboxWarning`].
pub struct WarningView {
    pub kind: SandboxLogKind,
    pub package: Seq<char>,
    pub messages: Seq<Seq<char>>,
}

impl View for SandboxWarning {
    type V = WarningView;

    open spec fn view(&self) -> WarningView {
        WarningView {
            kind: self.kind,
            package: self.package@,
            messages: self.messages@.map_values(|m: String| m@),
        }
    }
}

/// The views of a list of log messages.
pub open spec fn log_messages_view(v: Seq<SandboxLogMessage>) -> Seq<LogMessageView> {
    v.map_values(|m: SandboxLogMessage| m@)
}

/// The views of a list of warnings.
pub open spec fn warnings_view(v: Seq<SandboxWarning>) -> Seq<WarningView> {
    v.map_values(|w: SandboxWarning| w@)
}

/// The process a violation was reported for.
pub open spec fn origin(e: LogMessageView) -> (SandboxLogKind, Seq<char>) {
    (e.kind, e.package)
}

/// The distinct origins of the entries, in the order they first occur.
pub open spec fn origins(entries: Seq<LogMessageView>) -> Seq<(SandboxLogKind, Seq<char>)>
    decreases entries.len(),
{
    if entries.len() == 0 {
        Seq::empty()
    } else {
        let o = origins(entries.drop_last());
        if o.contains(origin(entries.last())) {
            o
        } else {
            o.push(origin(entries.last()))
        }
    }
}

/// The violations reported for origin `o`, in order.
pub open spec fn messages_from(entries: Seq<LogMessageView>, o: (SandboxLogKind, Seq<char>)) -> Seq<
    Seq<char>,
>
    decreases entries.len(),
{
    if entries.len() == 0 {
        Seq::empty()
    } else {
        let r = messages_from(entries.drop_last(), o);
        if origin(entries.last()) == o {
            r.push(entries.last().message)
        } else {
            r
        }
    }
}

/// The first occurrence of each distinct element, in order.
pub open spec fn distinct_in_order(ms: Seq<Seq<char>>) -> Seq<Seq<char>>
    decreases ms.len(),
{
    if ms.len() == 0 {
        Seq::empty()
    } else {
        let d = distinct_in_order(ms.drop_last());
        if d.contains(ms.last()) {
            d
        } else {
            d.push(ms.last())
        }
    }
}

/// One warning per origin, in the order the origins first occur, with the
/// distinct violations reported for it in the order they first occur.
pub open spec fn warnings_spec(entries: Seq<LogMessageView>) -> Seq<WarningView> {
    origins(entries).map_values(
        |o: (SandboxLogKind, Seq<char>)|
            WarningView {
                kind: o.0,
                package: o.1,
                messages: distinct_in_order(messages_from(entries, o)),
            },
    )
}

proof fn lemma_frames_complete(s: Seq<u8>, i: int, acc: Seq<u8>)
    ensures
        forall|k: int|
            0 <= k < frames_from(s, i, acc).len() ==> has_suffix(#[trigger] frames_from(s, i, acc)[k], entry_end()),
    decreases s.len() - i,
{
    if 0 <= i < s.len() {
        let j = past_byte(s, i, 125u8);
        lemma_past_byte(s, i, 125u8);
        let data = acc + s.subrange(i, j);
        if has_suffix(data, entry_end()) {
            if j < s.len() {
                lemma_past_byte(s, j, 44u8);
            }
            let next = past_byte(s, j, 44u8);
            lemma_frames_complete(s, next, Seq::empty());
            let rest = frames_from(s, next, Seq::empty());
            assert forall|k: int| 0 <= k < frames_from(s, i, acc).len() implies has_suffix(
                #[trigger] frames_from(s, i, acc)[k],
                entry_end(),
            ) by {
                assert(frames_from(s, i, acc) == seq![data] + rest);
                if k > 0 {
                    assert(frames_from(s, i, acc)[k] == rest[k - 1]);
                } else {
                    assert(frames_from(s, i, acc)[k] == data);
                }
            }
        } else {
            assert(frames_from(s, i, acc) == frames_from(s, j, data));
            lemma_frames_complete(s, j, data);
        }
    }
}

/// Every framed log entry is complete: it ends with a newline and `}`.
pub proof fn law_frames_are_complete_entries(s: Seq<u8>)
    ensures
        forall|k: int| 0 <= k < log_frames(s).len() ==> has_suffix(#[trigger] log_frames(s)[k], entry_end()),
{
    lemma_frames_complete(s, past_byte(s, past_byte(s, 0, 10u8), 91u8), Seq::empty());
}

proof fn lemma_no_origin_no_messages(entries: Seq<LogMessageView>, o: (SandboxLogKind, Seq<char>))
    requires
        !origins(entries).contains(o),
    ensures
        messages_from(entries, o) == Seq::<Seq<char>>::empty(),
    decreases entries.len(),
{
    if entries.len() > 0 {
        let prev = origins(entries.drop_last());
        if prev.contains(o) {
            let k = choose|k: int| 0 <= k < prev.len() && prev[k] == o;
            if prev.contains(origin(entries.last())) {
                assert(origins(entries)[k] == o);
            } else {
                assert(origins(entries)[k] == o);
            }
        }
        lemma_no_origin_no_messages(entries.drop_last(), o);
        if origin(entries.last()) == o {
            if !prev.contains(o) {
                assert(origins(entries)[prev.len() as int] == o);
            }
        }
    }
}

pub proof fn lemma_origins_distinct(entries: Seq<LogMessageView>)
    ensures
        forall|i: int, j: int|
            0 <= i < j < origins(entries).len() ==> origins(entries)[i] != origins(entries)[j],
    decreases entries.len(),
{
    if entries.len() > 0 {
        lemma_origins_distinct(entries.drop_last());
        let prev = origins(entries.drop_last());
        let o = origin(entries.last());
        if !prev.contains(o) {
            assert forall|i: int, j: int|
                0 <= i < j < origins(entries).len() implies origins(entries)[i] != origins(entries)[j] by {
                if j == prev.len() {
                    assert(origins(entries)[i] == prev[i]);
                    if prev[i] == o {
                        assert(prev.contains(o));
                    }
                }
            }
        }
    }
}

proof fn lemma_distinct_in_order(ms: Seq<Seq<char>>)
    ensures
        forall|i: int, j: int|
            0 <= i < j < distinct_in_order(ms).len() ==> distinct_in_order(ms)[i] != distinct_in_order(ms)[j],
        forall|i: int| 0 <= i < ms.len() ==> distinct_in_order(ms).contains(#[trigger] ms[i]),
        forall|i: int|
            0 <= i < distinct_in_order(ms).len() ==> ms.contains(#[trigger] distinct_in_order(ms)[i]),
    decreases ms.len(),
{
    if ms.len() > 0 {
        let front = ms.drop_last();
        lemma_distinct_in_order(front);
        let d = distinct_in_order(front);
        let r = distinct_in_order(ms);
        assert forall|i: int, j: int| 0 <= i < j < r.len() implies r[i] != r[j] by {
            if !d.contains(ms.last()) && j == d.len() {
                assert(r[i] == d[i]);
                if d[i] == ms.last() {
                    assert(d.contains(ms.last()));
                }
            }
        }
        assert forall|i: int| 0 <= i < ms.len() implies r.contains(#[trigger] ms[i]) by {
            if i < front.len() {
                assert(front[i] == ms[i]);
                assert(d.contains(ms[i]));
                let k = choose|k: int| 0 <= k < d.len() && d[k] == ms[i];
                assert(r[k] == d[k]);
            } else {
                if !d.contains(ms.last()) {
                    assert(r[d.len() as int] == ms.last());
                }
            }
        }
        assert forall|i: int| 0 <= i < r.len() implies ms.contains(#[trigger] r[i]) by {
            if i < d.len() {
                assert(r[i] == d[i]);
                assert(front.contains(d[i]));
                let k = choose|k: int| 0 <= k < front.len() && front[k] == d[i];
                assert(ms[k] == front[k]);
            } else {
                assert(ms[ms.len() - 1] == ms.last());
            }
        }
    }
}

/// Each origin gets one warning, and each warning lists every violation
/// reported for its origin exactly once (and nothing else).
pub proof fn law_warnings_grouped_and_deduplicated(entries: Seq<LogMessageView>)
    ensures
        ({
            let w = warnings_spec(entries);
            &&& forall|i: int, j: int|
                0 <= i < j < w.len() ==> (w[i].kind, w[i].package) != (w[j].kind, w[j].package)
            &&& forall|i: int|
                #![trigger w[i]]
                0 <= i < w.len() ==> {
                    let ms = messages_from(entries, (w[i].kind, w[i].package));
                    &&& forall|a: int, b: int|
                        0 <= a < b < w[i].messages.len() ==> w[i].messages[a] != w[i].messages[b]
                    &&& forall|a: int| 0 <= a < ms.len() ==> w[i].messages.contains(#[trigger] ms[a])
                    &&& forall|a: int|
                        0 <= a < w[i].messages.len() ==> ms.contains(#[trigger] w[i].messages[a])
                }
        }),
{
    lemma_origins_distinct(entries);
    let w = warnings_spec(entries);
    assert forall|i: int, j: int| 0 <= i < j < w.len() implies (w[i].kind, w[i].package) != (
        w[j].kind,
        w[j].package,
    ) by {
        assert((w[i].kind, w[i].package) == origins(entries)[i]);
        assert((w[j].kind, w[j].package) == origins(entries)[j]);
    }
    assert forall|i: int| #![trigger w[i]] 0 <= i < w.len() implies {
        let ms = messages_from(entries, (w[i].kind, w[i].package));
        &&& forall|a: int, b: int|
            0 <= a < b < w[i].messages.len() ==> w[i].messages[a] != w[i].messages[b]
        &&& forall|a: int| 0 <= a < ms.len() ==> w[i].messages.contains(#[trigger] ms[a])
        &&& forall|a: int| 0 <= a < w[i].messages.len() ==> ms.contains(#[trigger] w[i].messages[a])
    } by {
        let o = origins(entries)[i];
        assert((w[i].kind, w[i].package) == o);
        lemma_distinct_in_order(messages_from(entries, o));
    }
}

fn same_origin(w: &SandboxWarning, e: &SandboxLogMessage) -> (res: bool)
    ensures
        res == ((w@.kind, w@.package) == origin(e@)),
{
    w.kind == e.kind && str_equal(w.package.as_str(), e.package.as_str())
}

/// Index of the warning for the origin of `e`.
fn find_group(groups: &Vec<SandboxWarning>, e: &SandboxLogMessage) -> (res: Option<usize>)
    ensures
        res matches Some(k) ==> k < groups@.len() && (groups@[k as int]@.kind, groups@[k as int]@.package)
            == origin(e@),
        res is None ==> forall|j: int|
            0 <= j < groups@.len() ==> (groups@[j]@.kind, groups@[j]@.package) != origin(e@),
{
    let mut k: usize = 0;
    while k < groups.len()
        invariant
            k <= groups@.len(),
            forall|j: int| 0 <= j < k ==> (groups@[j]@.kind, groups@[j]@.package) != origin(e@),
        decreases groups@.len() - k,
    {
        if same_origin(&groups[k], e) {
            return Some(k);
        }
        k = k + 1;
    }
    None
}

fn contains_message(ms: &Vec<String>, m: &String) -> (res: bool)
    ensures
        res == ms@.map_values(|x: String| x@).contains(m@),
{
    let ghost v = ms@.map_values(|x: String| x@);
    let mut i: usize = 0;
    while i < ms.len()
        invariant
            i <= ms@.len(),
            v == ms@.map_values(|x: String| x@),
            forall|j: int| 0 <= j < i ==> v[j] != m@,
        decreases ms@.len() - i,
    {
        if str_equal(ms[i].as_str(), m.as_str()) {
            assert(v[i as int] == m@);
            return true;
        }
        i = i + 1;
    }
    false
}

/// Adds `msg` to the messages of warning `k`.
fn push_message(groups: &mut Vec<SandboxWarning>, k: usize, msg: String)
    requires
        k < old(groups)@.len(),
    ensures
        final(groups)@.len() == old(groups)@.len(),
        forall|j: int| 0 <= j < old(groups)@.len() && j != k ==> final(groups)@[j] == old(groups)@[j],
        final(groups)@[k as int]@ == (WarningView {
            messages: old(groups)@[k as int]@.messages.push(msg@),
            ..old(groups)@[k as int]@
        }),
{
    let mut g = groups.remove(k);
    let ghost gv = g@;
    g.messages.push(msg);
    assert(g@.messages =~= gv.messages.push(msg@));
    groups.insert(k, g);
}

/// Groups the violations by the process they were reported for: one
/// warning per origin (kind and package), in the order the origins first
/// occur, listing the distinct violations in the order they were first
/// reported.
pub fn group_warnings(entries: &Vec<SandboxLogMessage>) -> (res: Vec<SandboxWarning>)
    ensures
        warnings_view(res@) == warnings_spec(log_messages_view(entries@)),
{
    let ghost ev = log_messages_view(entries@);
    let mut groups: Vec<SandboxWarning> = Vec::new();
    let mut i: usize = 0;
    assert(warnings_view(groups@) =~= warnings_spec(ev.subrange(0, 0)));
    while i < entries.len()
        invariant
            i <= entries@.len(),
            ev == log_messages_view(entries@),
            warnings_view(groups@) == warnings_spec(ev.subrange(0, i as int)),
        decreases entries@.len() - i,
    {
        let e = &entries[i];
        let ghost prev = ev.subrange(0, i as int);
        let ghost cur = ev.subrange(0, i + 1);
        assert(cur.drop_last() =~= prev);
        assert(cur.last() == e@);
        let ghost o = origin(e@);
        let ghost gv = warnings_view(groups@);
        proof {
            lemma_origins_distinct(prev);
            assert(gv.len() == groups@.len());
            assert(gv.len() == origins(prev).len());
            assert forall|j: int| 0 <= j < groups@.len() implies (groups@[j]@.kind, groups@[j]@.package)
                == #[trigger] origins(prev)[j] by {
                assert(gv[j] == groups@[j]@);
                assert(gv[j] == warnings_spec(prev)[j]);
                assert(warnings_spec(prev)[j].kind == origins(prev)[j].0);
                assert(warnings_spec(prev)[j].package == origins(prev)[j].1);
            }
        }
        match find_group(&groups, e) {
            Some(k) => {
                proof {
                    assert(origins(prev)[k as int] == o);
                    assert(origins(prev).contains(o));
                    assert(origins(cur) == origins(prev));
                }
                let msg = e.message.clone();
                let ghost mv = msg@;
                let ghost before = groups@;
                assert(gv[k as int] == groups@[k as int]@);
                let ghost old_msgs = gv[k as int].messages;
                assert(old_msgs == distinct_in_order(messages_from(prev, o)));
                assert(messages_from(cur, o) == messages_from(prev, o).push(mv));
                assert(messages_from(cur, o).drop_last() =~= messages_from(prev, o));
                let present = contains_message(&groups[k].messages, &msg);
                if !present {
                    push_message(&mut groups, k, msg);
                }
                proof {
                    assert(distinct_in_order(messages_from(cur, o)) == (if old_msgs.contains(mv) {
                        old_msgs
                    } else {
                        old_msgs.push(mv)
                    }));
                    assert forall|j: int| 0 <= j < origins(cur).len() implies #[trigger] warnings_view(
                        groups@,
                    )[j] == warnings_spec(cur)[j] by {
                        let oj = origins(cur)[j];
                        assert(oj == origins(prev)[j]);
                        if j != k {
                            assert(oj != o);
                            assert(groups@[j] == before[j]);
                            assert(gv[j] == before[j]@);
                            assert(messages_from(cur, oj) == messages_from(prev, oj));
                            assert(gv[j] == warnings_spec(prev)[j]);
                        } else {
                            assert(warnings_spec(cur)[j].messages == distinct_in_order(messages_from(cur, o)));
                        }
                    }
                    assert(warnings_view(groups@).len() == warnings_spec(cur).len());
                    assert(warnings_view(groups@) =~= warnings_spec(cur));
                }
            },
            None => {
                proof {
                    assert(!origins(prev).contains(o)) by {
                        if origins(prev).contains(o) {
                            let j = choose|j: int| 0 <= j < origins(prev).len() && origins(prev)[j] == o;
                            assert((groups@[j]@.kind, groups@[j]@.package) == o);
                        }
                    }
                    lemma_no_origin_no_messages(prev, o);
                    assert(origins(cur) == origins(prev).push(o));
                }
                let mut messages: Vec<String> = Vec::new();
                messages.push(e.message.clone());
                let package = e.package.clone();
                let ghost before = groups@;
                groups.push(SandboxWarning { kind: e.kind, package, messages });
                proof {
                    assert(distinct_in_order(seq![e@.message]) =~= seq![e@.message]) by {
                        assert(seq![e@.message].drop_last() =~= Seq::<Seq<char>>::empty());
                        assert(distinct_in_order(Seq::<Seq<char>>::empty()) =~= Seq::<Seq<char>>::empty());
                        assert(!Seq::<Seq<char>>::empty().contains(e@.message));
                    }
                    assert(messages_from(cur, o) =~= seq![e@.message]);
                    assert forall|j: int| 0 <= j < origins(cur).len() implies #[trigger] warnings_view(
                        groups@,
                    )[j] == warnings_spec(cur)[j] by {
                        if j < origins(prev).len() {
                            assert(origins(cur)[j] != o);
                            assert(groups@[j] == before[j]);
                            assert(gv[j] == before[j]@);
                        } else {
                            assert(groups@[j]@.messages =~= seq![e@.message]);
                        }
                    }
                    assert(warnings_view(groups@) =~= warnings_spec(cur));
                }
            },
        }
        i = i + 1;
    }
    assert(ev.subrange(0, entries@.len() as int) =~= ev);
    groups
}

/// The `log stream` predicate that selects the sandbox violations of the
/// processes started under the `cargo-sandbox` process `pid`.
pub open spec fn log_predicate_spec(pid: nat) -> Seq<char> {
    "process == \"kernel\" AND sender == \"Sandbox\" AND eventMessage CONTAINS \""@ + log_needle(pid)
        + "\""@
}

/// The text that the messages of the processes started under the
/// `cargo-sandbox` process `pid` carry: `interpose-sandbox(PID, `, with the
/// separator that ends the pid.
pub open spec fn log_needle(pid: nat) -> Seq<char> {
    "interpose-sandbox("@ + crate::text::decimal(pid) + ", "@
}

/// The `log stream` predicate that selects the sandbox violations of the
/// processes started under the `cargo-sandbox` process `pid`.
pub fn log_stream_predicate(pid: u32) -> (res: String)
    ensures
        res@ == log_predicate_spec(pid as nat),
{
    let mut s = String::from_str(
        "process == \"kernel\" AND sender == \"Sandbox\" AND eventMessage CONTAINS \"interpose-sandbox(",
    );
    let d = crate::text::decimal_string(pid as u64);
    s.append(d.as_str());
    s.append(", \"");
    proof {
        reveal_strlit("process == \"kernel\" AND sender == \"Sandbox\" AND eventMessage CONTAINS \"interpose-sandbox(");
        reveal_strlit("process == \"kernel\" AND sender == \"Sandbox\" AND eventMessage CONTAINS \"");
        reveal_strlit("interpose-sandbox(");
        reveal_strlit(", \"");
        reveal_strlit(", ");
        reveal_strlit("\"");
        assert(s@ =~= log_predicate_spec(pid as nat));
    }
    s
}

} // verus!