//! Unix path components over raw bytes.
//!
//! A path is split on `/`; empty segments and `.` segments inside the body
//! are dropped, a leading `/` is the root and a leading `.` followed by `/`
//! (or alone) is the current directory. The file name is the last remaining
//! segment unless that is `..`; the parent is the path with its last
//! component and the separators and `.` segments before it removed.

use vstd::prelude::*;

verus! {

pub open spec fn slash() -> u8 {
    47u8
}

pub open spec fn dot() -> u8 {
    46u8
}

/// The path starts at the root directory.
pub open spec fn has_root(p: Seq<u8>) -> bool {
    p.len() > 0 && p[0] == slash()
}

/// The path starts with a `.` component (`.` alone or `./...`).
pub open spec fn has_cur_dir(p: Seq<u8>) -> bool {
    &&& !has_root(p)
    &&& p.len() > 0
    &&& p[0] == dot()
    &&& (p.len() == 1 || p[1] == slash())
}

/// Index at which the body (the part after the root or `.` prefix) starts.
pub open spec fn body_start(p: Seq<u8>) -> int {
    if has_root(p) || has_cur_dir(p) {
        1
    } else {
        0
    }
}

/// End of `p[lo..hi]` once trailing separators and `.` segments are dropped.
pub open spec fn trim_end(p: Seq<u8>, lo: int, hi: int) -> int
    decreases hi - lo,
{
    if hi <= lo {
        lo
    } else if p[hi - 1] == slash() {
        trim_end(p, lo, hi - 1)
    } else if p[hi - 1] == dot() && (hi - 1 == lo || p[hi - 2] == slash()) {
        trim_end(p, lo, hi - 1)
    } else {
        hi
    }
}

/// Index just after the last separator in `p[lo..hi]`, or `lo` if there is none.
pub open spec fn seg_start(p: Seq<u8>, lo: int, hi: int) -> int
    decreases hi - lo,
{
    if hi <= lo {
        lo
    } else if p[hi - 1] == slash() {
        hi
    } else {
        seg_start(p, lo, hi - 1)
    }
}

/// The `..` segment.
pub open spec fn parent_dir_segment() -> Seq<u8> {
    seq![dot(), dot()]
}

/// End of the last body component, or `body_start` when the body has none.
pub open spec fn last_end(p: Seq<u8>) -> int {
    trim_end(p, body_start(p), p.len() as int)
}

/// Start of the last body component.
pub open spec fn last_start(p: Seq<u8>) -> int {
    seg_start(p, body_start(p), last_end(p))
}

/// `Path::file_name`: the last component, if it is a normal one.
pub open spec fn file_name_of(p: Seq<u8>) -> Option<Seq<u8>> {
    if last_end(p) > body_start(p) && p.subrange(last_start(p), last_end(p)) != parent_dir_segment() {
        Some(p.subrange(last_start(p), last_end(p)))
    } else {
        None
    }
}

/// `Path::parent`: the path without its last component, if it has one
/// that is not the root.
pub open spec fn parent_of(p: Seq<u8>) -> Option<Seq<u8>> {
    if last_end(p) > body_start(p) {
        Some(p.subrange(0, trim_end(p, body_start(p), last_start(p))))
    } else if has_cur_dir(p) {
        Some(Seq::<u8>::empty())
    } else {
        None
    }
}

pub proof fn lemma_trim_end_bounds(p: Seq<u8>, lo: int, hi: int)
    requires
        0 <= lo <= hi <= p.len(),
    ensures
        lo <= trim_end(p, lo, hi) <= hi,
        trim_end(p, lo, hi) > lo ==> p[trim_end(p, lo, hi) - 1] != slash(),
        trim_end(p, lo, hi) > lo ==> trim_end(p, lo, trim_end(p, lo, hi)) == trim_end(p, lo, hi),
    decreases hi - lo,
{
    if hi > lo {
        if p[hi - 1] == slash() || (p[hi - 1] == dot() && (hi - 1 == lo || p[hi - 2] == slash())) {
            lemma_trim_end_bounds(p, lo, hi - 1);
        }
    }
}

pub proof fn lemma_seg_start_bounds(p: Seq<u8>, lo: int, hi: int)
    requires
        0 <= lo <= hi <= p.len(),
    ensures
        lo <= seg_start(p, lo, hi) <= hi,
        seg_start(p, lo, hi) > lo ==> p[seg_start(p, lo, hi) - 1] == slash(),
        hi > lo && p[hi - 1] != slash() ==> seg_start(p, lo, hi) < hi,
    decreases hi - lo,
{
    if hi > lo && p[hi - 1] != slash() {
        lemma_seg_start_bounds(p, lo, hi - 1);
    }
}

/// The parent of a path is strictly shorter than the path, and is a prefix of it.
pub proof fn lemma_parent_shorter(p: Seq<u8>)
    ensures
        parent_of(p) matches Some(q) ==> q.len() < p.len() && q == p.subrange(0, q.len() as int),
{
    let lo = body_start(p);
    lemma_trim_end_bounds(p, lo, p.len() as int);
    let e = last_end(p);
    if e > lo {
        lemma_seg_start_bounds(p, lo, e);
        let s = last_start(p);
        lemma_trim_end_bounds(p, lo, s);
    }
}

/// A path with a file name has a parent.
pub proof fn lemma_file_name_has_parent(p: Seq<u8>)
    ensures
        file_name_of(p) is Some ==> parent_of(p) is Some,
{
}

/// The nearest ancestor of `p` (starting with `p` itself) whose file name
/// is `name`.
pub open spec fn ancestor_named(p: Seq<u8>, name: Seq<u8>) -> Option<Seq<u8>>
    decreases p.len(),
{
    if file_name_of(p) == Some(name) {
        Some(p)
    } else {
        match parent_of(p) {
            Some(q) => if q.len() < p.len() {
                ancestor_named(q, name)
            } else {
                None
            },
            None => None,
        }
    }
}

/// The ancestor found by `ancestor_named` is a prefix of the path whose
/// file name is the one looked for.
pub proof fn lemma_ancestor_named(p: Seq<u8>, name: Seq<u8>)
    ensures
        ancestor_named(p, name) matches Some(a) ==> a.len() <= p.len() && a == p.subrange(
            0,
            a.len() as int,
        ) && file_name_of(a) == Some(name),
    decreases p.len(),
{
    if file_name_of(p) != Some(name) {
        lemma_parent_shorter(p);
        if let Some(q) = parent_of(p) {
            lemma_ancestor_named(q, name);
            if let Some(a) = ancestor_named(q, name) {
                assert(a =~= p.subrange(0, a.len() as int));
            }
        }
    } else {
        assert(p.subrange(0, p.len() as int) =~= p);
    }
}

/// The last components of `p` are the normal components `names` (in order).
pub open spec fn ends_with_components(p: Seq<u8>, names: Seq<Seq<u8>>) -> bool
    decreases names.len(),
{
    if names.len() == 0 {
        true
    } else {
        &&& file_name_of(p) == Some(names.last())
        &&& parent_of(p) matches Some(q) && ends_with_components(q, names.drop_last())
    }
}

fn is_slash(b: u8) -> (res: bool)
    ensures
        res == (b == slash()),
{
    b == 47u8
}

fn is_dot(b: u8) -> (res: bool)
    ensures
        res == (b == dot()),
{
    b == 46u8
}

fn has_root_exec(p: &[u8]) -> (res: bool)
    ensures
        res == has_root(p@),
{
    p.len() > 0 && is_slash(p[0])
}

fn has_cur_dir_exec(p: &[u8]) -> (res: bool)
    ensures
        res == has_cur_dir(p@),
{
    !has_root_exec(p) && p.len() > 0 && is_dot(p[0]) && (p.len() == 1 || is_slash(p[1]))
}

fn body_start_exec(p: &[u8]) -> (res: usize)
    ensures
        res == body_start(p@),
{
    if has_root_exec(p) || has_cur_dir_exec(p) {
        1
    } else {
        0
    }
}

fn trim_end_exec(p: &[u8], lo: usize, hi: usize) -> (res: usize)
    requires
        lo <= hi <= p@.len(),
    ensures
        res == trim_end(p@, lo as int, hi as int),
{
    let mut h: usize = hi;
    while h > lo
        invariant
            lo <= h <= hi <= p@.len(),
            trim_end(p@, lo as int, h as int) == trim_end(p@, lo as int, hi as int),
        decreases h,
    {
        let last = p[h - 1];
        if is_slash(last) || (is_dot(last) && (h - 1 == lo || is_slash(p[h - 2]))) {
            h = h - 1;
        } else {
            return h;
        }
    }
    h
}

fn seg_start_exec(p: &[u8], lo: usize, hi: usize) -> (res: usize)
    requires
        lo <= hi <= p@.len(),
    ensures
        res == seg_start(p@, lo as int, hi as int),
{
    let mut h: usize = hi;
    while h > lo
        invariant
            lo <= h <= hi <= p@.len(),
            seg_start(p@, lo as int, h as int) == seg_start(p@, lo as int, hi as int),
        decreases h,
    {
        if is_slash(p[h - 1]) {
            return h;
        }
        h = h - 1;
    }
    h
}

/// Bounds `(start, end)` of the last component of the body, if there is one.
fn last_component(p: &[u8]) -> (res: Option<(usize, usize)>)
    ensures
        res is Some <==> last_end(p@) > body_start(p@),
        res matches Some((s, e)) ==> s == last_start(p@) && e == last_end(p@) && body_start(p@) <= s < e <= p@.len(),
{
    let lo = body_start_exec(p);
    let e = trim_end_exec(p, lo, p.len());
    proof {
        lemma_trim_end_bounds(p@, lo as int, p@.len() as int);
    }
    if e > lo {
        let s = seg_start_exec(p, lo, e);
        proof {
            lemma_seg_start_bounds(p@, lo as int, e as int);
        }
        Some((s, e))
    } else {
        None
    }
}

/// `Path::file_name` on the bytes of a Unix path.
pub fn file_name(p: &[u8]) -> (res: Option<Vec<u8>>)
    ensures
        res matches Some(v) ==> file_name_of(p@) == Some(v@),
        res is None ==> file_name_of(p@) is None,
{
    match last_component(p) {
        Some((s, e)) => {
            if e - s == 2 && is_dot(p[s]) && is_dot(p[s + 1]) {
                assert(p@.subrange(s as int, e as int) =~= parent_dir_segment());
                None
            } else {
                let v = crate::bytes::copy_range(p, s, e);
                proof {
                    if v@ == parent_dir_segment() {
                        assert(v@.len() == 2);
                        assert(e - s == 2);
                        assert(v@[0] == p@.subrange(s as int, e as int)[0]);
                        assert(v@[1] == p@.subrange(s as int, e as int)[1]);
                        assert(v@[0] == p@[s as int]);
                        assert(v@[1] == p@[s + 1]);
                    }
                }
                Some(v)
            }
        },
        None => None,
    }
}

/// Length of `Path::parent` on the bytes of a Unix path (the parent is the
/// prefix of that length).
pub fn parent_len(p: &[u8]) -> (res: Option<usize>)
    ensures
        res matches Some(k) ==> parent_of(p@) == Some(p@.subrange(0, k as int)) && k < p@.len(),
        res is None ==> parent_of(p@) is None,
{
    proof {
        lemma_parent_shorter(p@);
    }
    match last_component(p) {
        Some((s, _e)) => {
            let lo = body_start_exec(p);
            let k = trim_end_exec(p, lo, s);
            proof {
                lemma_trim_end_bounds(p@, lo as int, s as int);
            }
            Some(k)
        },
        None => {
            if has_cur_dir_exec(p) {
                assert(p@.subrange(0, 0) =~= Seq::<u8>::empty());
                Some(0)
            } else {
                None
            }
        },
    }
}

/// `Path::parent` on the bytes of a Unix path.
pub fn parent(p: &[u8]) -> (res: Option<Vec<u8>>)
    ensures
        res matches Some(v) ==> parent_of(p@) == Some(v@),
        res is None ==> parent_of(p@) is None,
{
    match parent_len(p) {
        Some(k) => Some(crate::bytes::copy_range(p, 0, k)),
        None => None,
    }
}

/// The nearest ancestor of `p` (including `p` itself) whose file name is `name`.
pub fn find_ancestor_named(p: &[u8], name: &[u8]) -> (res: Option<Vec<u8>>)
    ensures
        res matches Some(v) ==> ancestor_named(p@, name@) == Some(v@),
        res is None ==> ancestor_named(p@, name@) is None,
{
    let mut k: usize = p.len();
    assert(p@.subrange(0, k as int) =~= p@);
    loop
        invariant
            k <= p@.len(),
            ancestor_named(p@.subrange(0, k as int), name@) == ancestor_named(p@, name@),
        decreases k,
    {
        let cur = crate::bytes::copy_range(p, 0, k);
        let fname = file_name(cur.as_slice());
        let matches = match fname {
            Some(f) => crate::bytes::bytes_equal(f.as_slice(), name),
            None => false,
        };
        if matches {
            return Some(cur);
        }
        match parent_len(cur.as_slice()) {
            Some(j) => {
                assert(cur@.subrange(0, j as int) =~= p@.subrange(0, j as int));
                k = j;
            },
            None => {
                return None;
            },
        }
    }
}

} // verus!
