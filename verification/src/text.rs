//! Character-level string helpers: substring search, splitting, UTF-8
//! decoding and decimal formatting.

use vstd::prelude::*;
use vstd::utf8::*;

verus! {

/// `n` occurs in `h` starting at index `i`.
pub open spec fn occurs_at(h: Seq<char>, n: Seq<char>, i: int) -> bool {
    0 <= i && i + n.len() <= h.len() && h.subrange(i, i + n.len()) == n
}

/// The first index at or after `i` where `n` occurs in `h`.
pub open spec fn find_from(h: Seq<char>, n: Seq<char>, i: int) -> Option<int>
    decreases h.len() + 1 - i,
{
    if i < 0 || i + n.len() > h.len() {
        None
    } else if occurs_at(h, n, i) {
        Some(i)
    } else {
        find_from(h, n, i + 1)
    }
}

/// The first index where `n` occurs in `h`.
pub open spec fn first_occurrence(h: Seq<char>, n: Seq<char>) -> Option<int> {
    find_from(h, n, 0)
}

/// The last index at or before `i` where `n` occurs in `h`.
pub open spec fn rfind_from(h: Seq<char>, n: Seq<char>, i: int) -> Option<int>
    decreases i + 1,
{
    if i < 0 {
        None
    } else if occurs_at(h, n, i) {
        Some(i)
    } else {
        rfind_from(h, n, i - 1)
    }
}

/// The last index where `n` occurs in `h`.
pub open spec fn last_occurrence(h: Seq<char>, n: Seq<char>) -> Option<int> {
    rfind_from(h, n, h.len() - n.len())
}

/// `str::split_once`: the parts before and after the first occurrence of `n`.
pub open spec fn split_once_spec(h: Seq<char>, n: Seq<char>) -> Option<(Seq<char>, Seq<char>)> {
    match first_occurrence(h, n) {
        Some(i) => Some((h.subrange(0, i), h.subrange(i + n.len(), h.len() as int))),
        None => None,
    }
}

/// `str::rsplit_once`: the parts before and after the last occurrence of `n`.
pub open spec fn rsplit_once_spec(h: Seq<char>, n: Seq<char>) -> Option<(Seq<char>, Seq<char>)> {
    match last_occurrence(h, n) {
        Some(i) => Some((h.subrange(0, i), h.subrange(i + n.len(), h.len() as int))),
        None => None,
    }
}

/// `str::strip_prefix`.
pub open spec fn strip_prefix_spec(h: Seq<char>, n: Seq<char>) -> Option<Seq<char>> {
    if n.len() <= h.len() && h.subrange(0, n.len() as int) == n {
        Some(h.subrange(n.len() as int, h.len() as int))
    } else {
        None
    }
}

/// `str::strip_suffix`.
pub open spec fn strip_suffix_spec(h: Seq<char>, n: Seq<char>) -> Option<Seq<char>> {
    if n.len() <= h.len() && h.subrange(h.len() - n.len(), h.len() as int) == n {
        Some(h.subrange(0, h.len() - n.len()))
    } else {
        None
    }
}

/// The first occurrence at or after `i` is an occurrence, and nothing before it is.
pub proof fn lemma_find_from(h: Seq<char>, n: Seq<char>, i: int)
    requires
        0 <= i,
    ensures
        find_from(h, n, i) matches Some(j) ==> i <= j && occurs_at(h, n, j) && (forall|k: int|
            i <= k < j ==> !#[trigger] occurs_at(h, n, k)),
        find_from(h, n, i) is None ==> forall|k: int| i <= k ==> !#[trigger] occurs_at(h, n, k),
    decreases h.len() + 1 - i,
{
    if i + n.len() > h.len() {
    } else if occurs_at(h, n, i) {
    } else {
        lemma_find_from(h, n, i + 1);
    }
}

/// The last occurrence at or before `i` is an occurrence, and nothing after it is.
pub proof fn lemma_rfind_from(h: Seq<char>, n: Seq<char>, i: int)
    requires
        i + n.len() <= h.len(),
    ensures
        rfind_from(h, n, i) matches Some(j) ==> 0 <= j <= i && occurs_at(h, n, j) && (forall|k: int|
            j < k <= i ==> !#[trigger] occurs_at(h, n, k)),
        rfind_from(h, n, i) is None ==> forall|k: int| k <= i ==> !#[trigger] occurs_at(h, n, k),
    decreases i + 1,
{
    if i < 0 {
    } else if occurs_at(h, n, i) {
    } else {
        lemma_rfind_from(h, n, i - 1);
    }
}

/// The characters of `s`, in order.
pub fn chars_of(s: &str) -> (res: Vec<char>)
    ensures
        res@ == s@,
{
    let n = s.unicode_len();
    let mut v: Vec<char> = Vec::new();
    let mut i: usize = 0;
    while i < n
        invariant
            n == s@.len(),
            i <= n,
            v@ == s@.subrange(0, i as int),
        decreases n - i,
    {
        let c = s.get_char(i);
        v.push(c);
        i = i + 1;
        assert(v@ =~= s@.subrange(0, i as int));
    }
    assert(v@ =~= s@);
    v
}

/// Whether `n` occurs in `h` at index `i`.
pub fn matches_at(h: &Vec<char>, n: &Vec<char>, i: usize) -> (res: bool)
    ensures
        res == occurs_at(h@, n@, i as int),
{
    if i > h.len() || n.len() > h.len() - i {
        return false;
    }
    let mut k: usize = 0;
    while k < n.len()
        invariant
            i + n@.len() <= h@.len(),
            h@.len() <= usize::MAX,
            k <= n@.len(),
            forall|j: int| 0 <= j < k ==> h@[i + j] == n@[j],
        decreases n@.len() - k,
    {
        if h[i + k] != n[k] {
            assert(h@.subrange(i as int, i + n@.len())[k as int] != n@[k as int]);
            return false;
        }
        k = k + 1;
    }
    assert(h@.subrange(i as int, i + n@.len()) =~= n@);
    true
}

/// Index of the first occurrence of `n` in `h`.
pub fn find_first(h: &Vec<char>, n: &Vec<char>) -> (res: Option<usize>)
    ensures
        res matches Some(i) ==> first_occurrence(h@, n@) == Some(i as int),
        res is None ==> first_occurrence(h@, n@) is None,
{
    if n.len() > h.len() {
        return None;
    }
    let last: usize = h.len() - n.len();
    let mut i: usize = 0;
    loop
        invariant
            last + n@.len() == h@.len(),
            i <= last,
            find_from(h@, n@, i as int) == find_from(h@, n@, 0),
        decreases last - i,
    {
        if matches_at(h, n, i) {
            return Some(i);
        }
        if i == last {
            assert(find_from(h@, n@, i + 1) is None);
            return None;
        }
        i = i + 1;
    }
}

/// Index of the last occurrence of `n` in `h`.
pub fn find_last(h: &Vec<char>, n: &Vec<char>) -> (res: Option<usize>)
    ensures
        res matches Some(i) ==> last_occurrence(h@, n@) == Some(i as int),
        res is None ==> last_occurrence(h@, n@) is None,
{
    if n.len() > h.len() {
        return None;
    }
    let mut i: usize = h.len() - n.len();
    loop
        invariant
            i + n@.len() <= h@.len(),
            rfind_from(h@, n@, i as int) == last_occurrence(h@, n@),
        decreases i,
    {
        if matches_at(h, n, i) {
            return Some(i);
        }
        if i == 0 {
            assert(rfind_from(h@, n@, -1) is None);
            return None;
        }
        i = i - 1;
    }
}

/// The characters `s[lo..hi]` as a new string.
pub fn substring(s: &str, lo: usize, hi: usize) -> (res: String)
    requires
        lo <= hi <= s@.len(),
    ensures
        res@ == s@.subrange(lo as int, hi as int),
{
    s.substring_char(lo, hi).to_owned()
}

/// `str::split_once`.
pub fn split_once(s: &str, pat: &str) -> (res: Option<(String, String)>)
    ensures
        res matches Some((a, b)) ==> split_once_spec(s@, pat@) == Some((a@, b@)),
        res is None ==> split_once_spec(s@, pat@) is None,
{
    let h = chars_of(s);
    let n = chars_of(pat);
    match find_first(&h, &n) {
        Some(i) => {
            proof {
                lemma_find_from(h@, n@, 0);
            }
            assert(i + n@.len() <= h@.len());
            let a = substring(s, 0, i);
            let total = h.len();
            let b = substring(s, i + n.len(), total);
            Some((a, b))
        },
        None => None,
    }
}

/// `str::rsplit_once`.
pub fn rsplit_once(s: &str, pat: &str) -> (res: Option<(String, String)>)
    ensures
        res matches Some((a, b)) ==> rsplit_once_spec(s@, pat@) == Some((a@, b@)),
        res is None ==> rsplit_once_spec(s@, pat@) is None,
{
    let h = chars_of(s);
    let n = chars_of(pat);
    match find_last(&h, &n) {
        Some(i) => {
            proof {
                lemma_rfind_from(h@, n@, h@.len() - n@.len());
            }
            assert(i + n@.len() <= h@.len());
            let a = substring(s, 0, i);
            let total = h.len();
            let b = substring(s, i + n.len(), total);
            Some((a, b))
        },
        None => None,
    }
}

/// `str::strip_prefix`.
pub fn strip_prefix(s: &str, pat: &str) -> (res: Option<String>)
    ensures
        res matches Some(a) ==> strip_prefix_spec(s@, pat@) == Some(a@),
        res is None ==> strip_prefix_spec(s@, pat@) is None,
{
    let h = chars_of(s);
    let n = chars_of(pat);
    if matches_at(&h, &n, 0) {
        Some(substring(s, n.len(), h.len()))
    } else {
        None
    }
}

/// `str::strip_suffix`.
pub fn strip_suffix(s: &str, pat: &str) -> (res: Option<String>)
    ensures
        res matches Some(a) ==> strip_suffix_spec(s@, pat@) == Some(a@),
        res is None ==> strip_suffix_spec(s@, pat@) is None,
{
    let h = chars_of(s);
    let n = chars_of(pat);
    if n.len() <= h.len() && matches_at(&h, &n, h.len() - n.len()) {
        Some(substring(s, 0, h.len() - n.len()))
    } else {
        None
    }
}

/// Whether the two strings hold the same characters.
pub fn str_equal(a: &str, b: &str) -> (res: bool)
    ensures
        res == (a@ == b@),
{
    let x = chars_of(a);
    let y = chars_of(b);
    if x.len() != y.len() {
        return false;
    }
    let r = matches_at(&x, &y, 0);
    proof {
        assert(x@.subrange(0, y@.len() as int) =~= x@);
    }
    r
}

/// `std::str::from_utf8`: the bytes are accepted exactly when they are
/// well-formed UTF-8, and the resulting string holds the decoded characters.
#[verifier::external_body]
fn str_from_utf8(bytes: &[u8]) -> (res: Option<&str>)
    ensures
        res is Some <==> valid_utf8(bytes@),
        res matches Some(s) ==> s@ == decode_utf8(bytes@),
{
    match std::str::from_utf8(bytes) {
        Ok(s) => Some(s),
        Err(_) => None,
    }
}

/// The bytes decoded as UTF-8, if they are valid UTF-8.
pub fn utf8_to_string(bytes: &[u8]) -> (res: Option<String>)
    ensures
        res is Some <==> valid_utf8(bytes@),
        res matches Some(s) ==> s@ == decode_utf8(bytes@),
{
    match str_from_utf8(bytes) {
        Some(s) => Some(s.to_owned()),
        None => None,
    }
}

/// The ASCII digit for `d` (`0 <= d < 10`).
pub open spec fn digit_char(d: int) -> char {
    if d <= 0 {
        '0'
    } else if d == 1 {
        '1'
    } else if d == 2 {
        '2'
    } else if d == 3 {
        '3'
    } else if d == 4 {
        '4'
    } else if d == 5 {
        '5'
    } else if d == 6 {
        '6'
    } else if d == 7 {
        '7'
    } else if d == 8 {
        '8'
    } else {
        '9'
    }
}

/// Decimal representation of a natural number, without leading zeros.
pub open spec fn decimal(n: nat) -> Seq<char>
    decreases n,
{
    if n < 10 {
        seq![digit_char(n as int)]
    } else {
        decimal(n / 10) + seq![digit_char((n % 10) as int)]
    }
}

/// Decimal representation of an integer, with a leading `-` when negative.
pub open spec fn signed_decimal(n: int) -> Seq<char> {
    if n < 0 {
        seq!['-'] + decimal((-n) as nat)
    } else {
        decimal(n as nat)
    }
}

fn digit_str(d: u64) -> (res: &'static str)
    requires
        d < 10,
    ensures
        res@ == seq![digit_char(d as int)],
{
    proof {
        reveal_strlit("0");
        reveal_strlit("1");
        reveal_strlit("2");
        reveal_strlit("3");
        reveal_strlit("4");
        reveal_strlit("5");
        reveal_strlit("6");
        reveal_strlit("7");
        reveal_strlit("8");
        reveal_strlit("9");
    }
    let r = match d {
        0 => "0",
        1 => "1",
        2 => "2",
        3 => "3",
        4 => "4",
        5 => "5",
        6 => "6",
        7 => "7",
        8 => "8",
        _ => "9",
    };
    assert(r@ =~= seq![digit_char(d as int)]);
    r
}

fn push_decimal(out: &mut String, n: u64)
    ensures
        final(out)@ == old(out)@ + decimal(n as nat),
    decreases n,
{
    if n >= 10 {
        push_decimal(out, n / 10);
    }
    out.append(digit_str(n % 10));
    assert(old(out)@ + decimal(n as nat) =~= (if n >= 10 { old(out)@ + decimal((n / 10) as nat) } else { old(out)@ }) + seq![digit_char((n % 10) as int)]);
}

/// The decimal representation of `n`, as `Display` writes it.
pub fn decimal_string(n: u64) -> (res: String)
    ensures
        res@ == decimal(n as nat),
{
    let mut out = String::new();
    push_decimal(&mut out, n);
    assert(out@ =~= decimal(n as nat));
    out
}

/// The decimal representation of `n`, as `Display` writes it.
pub fn signed_decimal_string(n: i64) -> (res: String)
    ensures
        res@ == signed_decimal(n as int),
{
    let mut out = String::new();
    if n < 0 {
        out.append("-");
        proof {
            reveal_strlit("-");
        }
        let mag: u64 = ((-(n + 1)) as u64) + 1;
        push_decimal(&mut out, mag);
        assert(out@ =~= signed_decimal(n as int));
    } else {
        push_decimal(&mut out, n as u64);
        assert(out@ =~= signed_decimal(n as int));
    }
    out
}

} // verus!
