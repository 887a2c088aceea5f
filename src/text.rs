//! Character-level helpers: whitespace trimming, copying ranges, and the
//! quote- and parenthesis-aware separator scanner.
use vstd::prelude::*;
use vstd::utf8::encode_utf8;

verus! {

/// The characters that carry Unicode's `White_Space` property, which is what
/// `char::is_whitespace` tests.
pub open spec fn is_ws(c: char) -> bool {
    ('\u{9}' <= c && c <= '\u{d}') || c == ' ' || c == '\u{85}' || c == '\u{a0}'
        || c == '\u{1680}' || ('\u{2000}' <= c && c <= '\u{200a}') || c == '\u{2028}'
        || c == '\u{2029}' || c == '\u{202f}' || c == '\u{205f}' || c == '\u{3000}'
}

pub open spec fn trim_start(s: Seq<char>) -> Seq<char>
    decreases s.len(),
{
    if s.len() > 0 && is_ws(s[0]) {
        trim_start(s.drop_first())
    } else {
        s
    }
}

pub open spec fn trim_end(s: Seq<char>) -> Seq<char>
    decreases s.len(),
{
    if s.len() > 0 && is_ws(s.last()) {
        trim_end(s.drop_last())
    } else {
        s
    }
}

/// `s` without leading and trailing whitespace.
pub open spec fn trim(s: Seq<char>) -> Seq<char> {
    trim_end(trim_start(s))
}

pub proof fn lemma_trim_start_len(s: Seq<char>)
    ensures
        trim_start(s).len() <= s.len(),
    decreases s.len(),
{
    if s.len() > 0 && is_ws(s[0]) {
        lemma_trim_start_len(s.drop_first());
    }
}

pub proof fn lemma_trim_end_len(s: Seq<char>)
    ensures
        trim_end(s).len() <= s.len(),
    decreases s.len(),
{
    if s.len() > 0 && is_ws(s.last()) {
        lemma_trim_end_len(s.drop_last());
    }
}

pub proof fn lemma_trim_len(s: Seq<char>)
    ensures
        trim(s).len() <= s.len(),
{
    lemma_trim_start_len(s);
    lemma_trim_end_len(trim_start(s));
}

pub fn is_whitespace(c: char) -> (r: bool)
    ensures
        r == is_ws(c),
{
    ('\u{9}' <= c && c <= '\u{d}') || c == ' ' || c == '\u{85}' || c == '\u{a0}'
        || c == '\u{1680}' || ('\u{2000}' <= c && c <= '\u{200a}') || c == '\u{2028}'
        || c == '\u{2029}' || c == '\u{202f}' || c == '\u{205f}' || c == '\u{3000}'
}

/// A copy of `s[lo..hi]`.
pub fn copy_range(s: &Vec<char>, lo: usize, hi: usize) -> (r: Vec<char>)
    requires
        lo <= hi <= s@.len(),
    ensures
        r@ == s@.subrange(lo as int, hi as int),
{
    let mut r: Vec<char> = Vec::new();
    let mut i: usize = lo;
    while i < hi
        invariant
            lo <= i <= hi <= s@.len(),
            r@ == s@.subrange(lo as int, i as int),
        decreases hi - i,
    {
        r.push(s[i]);
        i = i + 1;
        assert(r@ =~= s@.subrange(lo as int, i as int));
    }
    r
}

/// `s` with leading and trailing whitespace removed.
pub fn trim_chars(s: &Vec<char>) -> (r: Vec<char>)
    ensures
        r@ == trim(s@),
{
    let mut lo: usize = 0;
    assert(s@.subrange(0, s@.len() as int) =~= s@);
    while lo < s.len() && is_whitespace(s[lo])
        invariant
            lo <= s@.len(),
            trim_start(s@) == trim_start(s@.subrange(lo as int, s@.len() as int)),
        decreases s@.len() - lo,
    {
        assert(s@.subrange(lo as int, s@.len() as int).drop_first() =~= s@.subrange(
            lo + 1,
            s@.len() as int,
        ));
        lo = lo + 1;
    }
    let ghost mid = s@.subrange(lo as int, s@.len() as int);
    assert(trim_start(s@) == mid);
    let mut hi: usize = s.len();
    while hi > lo && is_whitespace(s[hi - 1])
        invariant
            lo <= hi <= s@.len(),
            mid == s@.subrange(lo as int, s@.len() as int),
            trim_end(mid) == trim_end(s@.subrange(lo as int, hi as int)),
        decreases hi,
    {
        assert(s@.subrange(lo as int, hi as int).drop_last() =~= s@.subrange(
            lo as int,
            hi - 1,
        ));
        hi = hi - 1;
    }
    copy_range(s, lo, hi)
}

/// `s` with leading whitespace removed.
pub fn trim_start_chars(s: &Vec<char>) -> (r: Vec<char>)
    ensures
        r@ == trim_start(s@),
{
    let mut lo: usize = 0;
    assert(s@.subrange(0, s@.len() as int) =~= s@);
    while lo < s.len() && is_whitespace(s[lo])
        invariant
            lo <= s@.len(),
            trim_start(s@) == trim_start(s@.subrange(lo as int, s@.len() as int)),
        decreases s@.len() - lo,
    {
        assert(s@.subrange(lo as int, s@.len() as int).drop_first() =~= s@.subrange(
            lo + 1,
            s@.len() as int,
        ));
        lo = lo + 1;
    }
    copy_range(s, lo, s.len())
}

/// Whether `pat` occurs in `s` at position `pos`.
pub fn matches_at(s: &Vec<char>, pos: usize, pat: &Vec<char>) -> (r: bool)
    requires
        pos <= s@.len(),
    ensures
        r == (pos + pat@.len() <= s@.len() && s@.subrange(pos as int, pos + pat@.len())
            == pat@),
{
    if pat.len() > s.len() - pos {
        return false;
    }
    let n = s.len();
    let mut k: usize = 0;
    while k < pat.len()
        invariant
            pos + pat@.len() <= s@.len(),
            n == s@.len(),
            k <= pat@.len(),
            forall|j: int| 0 <= j < k ==> s@[pos + j] == pat@[j],
        decreases pat@.len() - k,
    {
        if s[pos + k] != pat[k] {
            assert(s@.subrange(pos as int, pos + pat@.len())[k as int] != pat@[k as int]);
            return false;
        }
        k = k + 1;
    }
    assert(s@.subrange(pos as int, pos + pat@.len()) =~= pat@);
    true
}

/// Relies on `str::chars`: the characters of `s`, in order.
#[verifier::external_body]
pub(crate) fn chars_of(s: &str) -> (r: Vec<char>)
    ensures
        r@ == s@,
{
    s.chars().collect()
}

/// Relies on `FromIterator<char>` for `String`: the string made of `cs`.
#[verifier::external_body]
pub(crate) fn string_of(cs: &Vec<char>) -> (r: String)
    ensures
        r@ == cs@,
{
    cs.iter().collect()
}

// The separator scanner. Its state is (inside single quotes, inside double
// quotes, parenthesis depth).
pub open spec fn scan_step(st: (bool, bool, int), c: char) -> (bool, bool, int) {
    if c == '\'' && !st.1 {
        (!st.0, st.1, st.2)
    } else if c == '"' && !st.0 {
        (st.0, !st.1, st.2)
    } else if !st.0 && !st.1 && c == '(' {
        (st.0, st.1, st.2 + 1)
    } else if !st.0 && !st.1 && c == ')' {
        (st.0, st.1, st.2 - 1)
    } else {
        st
    }
}

/// The scanner's state after reading the first `i` characters of `s`.
pub open spec fn scan_state(s: Seq<char>, i: int) -> (bool, bool, int)
    decreases i,
{
    if i <= 0 {
        (false, false, 0)
    } else {
        scan_step(scan_state(s, i - 1), s[i - 1])
    }
}

/// `sep` starts at position `i` of `s`, outside quotes and parentheses.
pub open spec fn top_level_at(s: Seq<char>, sep: Seq<char>, i: int) -> bool {
    &&& 0 <= i < s.len()
    &&& i + sep.len() <= s.len()
    &&& !scan_state(s, i).0
    &&& !scan_state(s, i).1
    &&& s[i] != '\''
    &&& s[i] != '"'
    &&& scan_state(s, i + 1).2 == 0
    &&& s.subrange(i, i + sep.len()) == sep
}

/// The first position at or after `i` where `sep` occurs at top level.
pub open spec fn find_top_level_from(s: Seq<char>, sep: Seq<char>, i: int) -> Option<int>
    decreases s.len() - i,
{
    if i < 0 || i >= s.len() || i + sep.len() > s.len() {
        None
    } else if top_level_at(s, sep, i) {
        Some(i)
    } else {
        find_top_level_from(s, sep, i + 1)
    }
}

/// The first position of `s` where `sep` occurs outside quotes and parentheses.
pub open spec fn find_top_level(s: Seq<char>, sep: Seq<char>) -> Option<int> {
    find_top_level_from(s, sep, 0)
}

pub proof fn lemma_find_top_level_from(s: Seq<char>, sep: Seq<char>, i: int)
    requires
        0 <= i,
    ensures
        find_top_level_from(s, sep, i) matches Some(k) ==> i <= k && top_level_at(s, sep, k)
            && forall|j: int| i <= j < k ==> !top_level_at(s, sep, j),
        find_top_level_from(s, sep, i) is None ==> forall|j: int|
            i <= j ==> !top_level_at(s, sep, j),
    decreases s.len() - i,
{
    if i < s.len() && i + sep.len() <= s.len() && !top_level_at(s, sep, i) {
        lemma_find_top_level_from(s, sep, i + 1);
    }
}

/// Scans `s` for the first occurrence of `sep` that is outside quotes and
/// parentheses. Returns a position in characters.
pub fn find_top_level_chars(s: &Vec<char>, sep: &Vec<char>) -> (r: Option<usize>)
    ensures
        r matches Some(i) ==> find_top_level(s@, sep@) == Some(i as int),
        r is None ==> find_top_level(s@, sep@) is None,
{
    let mut single_quote = false;
    let mut double_quote = false;
    let mut depth: i128 = 0;
    let mut i: usize = 0;
    while i < s.len() && sep.len() <= s.len() - i
        invariant
            i <= s@.len(),
            scan_state(s@, i as int) == (single_quote, double_quote, depth as int),
            -(i as int) <= depth <= i,
            find_top_level(s@, sep@) == find_top_level_from(s@, sep@, i as int),
        decreases s@.len() - i,
    {
        let c = s[i];
        assert(scan_state(s@, i + 1) == scan_step(scan_state(s@, i as int), c));
        if c == '\'' && !double_quote {
            single_quote = !single_quote;
        } else if c == '"' && !single_quote {
            double_quote = !double_quote;
        } else if !single_quote && !double_quote {
            if c == '(' {
                depth = depth + 1;
            } else if c == ')' {
                depth = depth - 1;
            }
            if depth == 0 && matches_at(s, i, sep) {
                return Some(i);
            }
        }
        i = i + 1;
    }
    None
}

// The same scanner over UTF-8 bytes. Quotes and parentheses are ASCII, and
// no byte of a multi-byte character is ASCII, so it sees the same structure.
pub open spec fn scan_step_byte(st: (bool, bool, int), b: u8) -> (bool, bool, int) {
    if b == 0x27 && !st.1 {
        (!st.0, st.1, st.2)
    } else if b == 0x22 && !st.0 {
        (st.0, !st.1, st.2)
    } else if !st.0 && !st.1 && b == 0x28 {
        (st.0, st.1, st.2 + 1)
    } else if !st.0 && !st.1 && b == 0x29 {
        (st.0, st.1, st.2 - 1)
    } else {
        st
    }
}

/// The scanner's state after reading the first `i` bytes of `s`.
pub open spec fn scan_state_bytes(s: Seq<u8>, i: int) -> (bool, bool, int)
    decreases i,
{
    if i <= 0 {
        (false, false, 0)
    } else {
        scan_step_byte(scan_state_bytes(s, i - 1), s[i - 1])
    }
}

/// `sep` starts at byte `i` of `s`, outside quotes and parentheses.
pub open spec fn top_level_at_bytes(s: Seq<u8>, sep: Seq<u8>, i: int) -> bool {
    &&& 0 <= i < s.len()
    &&& i + sep.len() <= s.len()
    &&& !scan_state_bytes(s, i).0
    &&& !scan_state_bytes(s, i).1
    &&& s[i] != 0x27
    &&& s[i] != 0x22
    &&& scan_state_bytes(s, i + 1).2 == 0
    &&& s.subrange(i, i + sep.len()) == sep
}

/// The first byte position at or after `i` where `sep` occurs at top level.
pub open spec fn find_top_level_bytes_from(s: Seq<u8>, sep: Seq<u8>, i: int) -> Option<int>
    decreases s.len() - i,
{
    if i < 0 || i >= s.len() || i + sep.len() > s.len() {
        None
    } else if top_level_at_bytes(s, sep, i) {
        Some(i)
    } else {
        find_top_level_bytes_from(s, sep, i + 1)
    }
}

/// The first byte position of `s` where `sep` occurs outside quotes and
/// parentheses.
pub open spec fn find_top_level_bytes(s: Seq<u8>, sep: Seq<u8>) -> Option<int> {
    find_top_level_bytes_from(s, sep, 0)
}

pub proof fn lemma_find_top_level_bytes_from(s: Seq<u8>, sep: Seq<u8>, i: int)
    requires
        0 <= i,
    ensures
        find_top_level_bytes_from(s, sep, i) matches Some(k) ==> i <= k && top_level_at_bytes(
            s,
            sep,
            k,
        ) && forall|j: int| i <= j < k ==> !top_level_at_bytes(s, sep, j),
        find_top_level_bytes_from(s, sep, i) is None ==> forall|j: int|
            i <= j ==> !top_level_at_bytes(s, sep, j),
    decreases s.len() - i,
{
    if i < s.len() && i + sep.len() <= s.len() && !top_level_at_bytes(s, sep, i) {
        lemma_find_top_level_bytes_from(s, sep, i + 1);
    }
}

fn bytes_match_at(s: &[u8], pos: usize, pat: &[u8]) -> (r: bool)
    requires
        pos <= s@.len(),
    ensures
        r == (pos + pat@.len() <= s@.len() && s@.subrange(pos as int, pos + pat@.len())
            == pat@),
{
    let n = s.len();
    if pat.len() > n - pos {
        return false;
    }
    let mut k: usize = 0;
    while k < pat.len()
        invariant
            pos + pat@.len() <= s@.len(),
            n == s@.len(),
            k <= pat@.len(),
            forall|j: int| 0 <= j < k ==> s@[pos + j] == pat@[j],
        decreases pat@.len() - k,
    {
        if s[pos + k] != pat[k] {
            assert(s@.subrange(pos as int, pos + pat@.len())[k as int] != pat@[k as int]);
            return false;
        }
        k = k + 1;
    }
    assert(s@.subrange(pos as int, pos + pat@.len()) =~= pat@);
    true
}

/// The byte position of the first occurrence of `sep` in `s` that is
/// outside quotes and parentheses, or `None` if `sep` never occurs at top
/// level. Callers split `s` there: `&s[..i]` and `&s[i + sep.len()..]`.
pub fn split_top_level(s: &str, sep: &str) -> (r: Option<usize>)
    ensures
        r matches Some(i) ==> find_top_level_bytes(encode_utf8(s@), encode_utf8(sep@)) == Some(
            i as int,
        ),
        r is None ==> find_top_level_bytes(encode_utf8(s@), encode_utf8(sep@)) is None,
{
    let bytes = s.as_bytes();
    let sep_bytes = sep.as_bytes();
    let mut single_quote = false;
    let mut double_quote = false;
    let mut depth: i128 = 0;
    let mut i: usize = 0;
    while i < bytes.len() && sep_bytes.len() <= bytes.len() - i
        invariant
            i <= bytes@.len(),
            bytes@ == encode_utf8(s@),
            sep_bytes@ == encode_utf8(sep@),
            scan_state_bytes(bytes@, i as int) == (single_quote, double_quote, depth as int),
            -(i as int) <= depth <= i,
            find_top_level_bytes(bytes@, sep_bytes@) == find_top_level_bytes_from(
                bytes@,
                sep_bytes@,
                i as int,
            ),
        decreases bytes@.len() - i,
    {
        let c = bytes[i];
        assert(scan_state_bytes(bytes@, i + 1) == scan_step_byte(
            scan_state_bytes(bytes@, i as int),
            c,
        ));
        if c == 0x27 && !double_quote {
            single_quote = !single_quote;
        } else if c == 0x22 && !single_quote {
            double_quote = !double_quote;
        } else if !single_quote && !double_quote {
            if c == 0x28 {
                depth = depth + 1;
            } else if c == 0x29 {
                depth = depth - 1;
            }
            if depth == 0 && bytes_match_at(bytes, i, sep_bytes) {
                return Some(i);
            }
        }
        i = i + 1;
    }
    None
}

} // verus!
