//! The ASCII grey-map format (PGM, magic `P2`): a magic line, comment or
//! blank lines, a line with width and height, a line with the maximum grey
//! value, then pixel values separated by whitespace.
use vstd::prelude::*;
use crate::literal::{all_digits, digits_value, is_digit};
use crate::text::{chars_of, is_whitespace, is_ws, trim, trim_chars, trim_start, trim_start_chars};

verus! {

/// Why a grey map could not be read.
#[derive(Clone, Copy, Debug, PartialEq, Eq, Structural)]
pub enum PgmError {
    /// The first line does not start with `P2`.
    NotP2,
    /// No line holds the dimensions.
    MissingDimensions,
    /// The dimensions line does not start with two unsigned integers.
    BadDimensions,
    /// The line after the dimensions is not an integer in `0..=65535`.
    BadMaxval,
    /// The number of pixels is not width times height.
    PixelCountMismatch,
}

/// A grey map: its size, its pixels in row order, and its maximum grey value.
#[derive(Clone, Debug)]
pub struct Pgm {
    pub width: usize,
    pub height: usize,
    pub pixels: Vec<u16>,
    pub maxval: u16,
}

/// An unsigned integer of at most `max`: an optional `+`, then digits.
pub open spec fn parse_uint(t: Seq<char>, max: int) -> Option<int> {
    let body = if t.len() > 0 && t[0] == '+' {
        t.drop_first()
    } else {
        t
    };
    if body.len() > 0 && all_digits(body) && digits_value(body) <= max {
        Some(digits_value(body))
    } else {
        None
    }
}

/// The tokens read so far from `s`, and the token being read.
pub open spec fn token_state(s: Seq<char>) -> (Seq<Seq<char>>, Seq<char>)
    decreases s.len(),
{
    if s.len() == 0 {
        (Seq::empty(), Seq::empty())
    } else {
        let (done, cur) = token_state(s.drop_last());
        let c = s.last();
        if is_ws(c) {
            if cur.len() > 0 {
                (done.push(cur), Seq::empty())
            } else {
                (done, cur)
            }
        } else {
            (done, cur.push(c))
        }
    }
}

/// The maximal runs of non-whitespace characters of `s`.
pub open spec fn tokens(s: Seq<char>) -> Seq<Seq<char>> {
    let (done, cur) = token_state(s);
    if cur.len() > 0 {
        done.push(cur)
    } else {
        done
    }
}

/// The values of the tokens that are integers in `0..=65535`; others are
/// ignored.
pub open spec fn token_pixels(toks: Seq<Seq<char>>) -> Seq<u16>
    decreases toks.len(),
{
    if toks.len() == 0 {
        Seq::empty()
    } else {
        match parse_uint(toks.last(), 65535) {
            Some(v) => token_pixels(toks.drop_last()).push(v as u16),
            None => token_pixels(toks.drop_last()),
        }
    }
}

/// The pixels of `lines`, line after line.
pub open spec fn lines_pixels(lines: Seq<Seq<char>>) -> Seq<u16>
    decreases lines.len(),
{
    if lines.len() == 0 {
        Seq::empty()
    } else {
        lines_pixels(lines.drop_last()) + token_pixels(tokens(lines.last()))
    }
}

/// A comment or blank line, which may come before the dimensions.
pub open spec fn is_skipped(line: Seq<char>) -> bool {
    (trim_start(line).len() > 0 && trim_start(line)[0] == '#') || trim(line).len() == 0
}

/// The first line, from the `i`-th on, that is neither comment nor blank.
pub open spec fn dims_index(lines: Seq<Seq<char>>, i: int) -> Option<int>
    decreases lines.len() - i,
{
    if i < 0 || i >= lines.len() {
        None
    } else if !is_skipped(lines[i]) {
        Some(i)
    } else {
        dims_index(lines, i + 1)
    }
}

pub open spec fn starts_p2(line: Seq<char>) -> bool {
    trim(line).len() >= 2 && trim(line)[0] == 'P' && trim(line)[1] == '2'
}

/// The grey map that `lines` hold: width, height, pixels and maximum value.
pub open spec fn pgm_spec(lines: Seq<Seq<char>>) -> Result<(int, int, Seq<u16>, int), PgmError> {
    if lines.len() == 0 || !starts_p2(lines[0]) {
        Err(PgmError::NotP2)
    } else {
        match dims_index(lines, 1) {
            None => Err(PgmError::MissingDimensions),
            Some(k) => {
                let dims = tokens(lines[k]);
                if dims.len() < 2 || parse_uint(dims[0], usize::MAX as int) is None || parse_uint(
                    dims[1],
                    usize::MAX as int,
                ) is None {
                    Err(PgmError::BadDimensions)
                } else {
                    let w = parse_uint(dims[0], usize::MAX as int)->0;
                    let h = parse_uint(dims[1], usize::MAX as int)->0;
                    let max_line = if k + 1 < lines.len() {
                        lines[k + 1]
                    } else {
                        Seq::empty()
                    };
                    match parse_uint(trim(max_line), 65535) {
                        None => Err(PgmError::BadMaxval),
                        Some(m) => {
                            let rest = if k + 2 <= lines.len() {
                                lines.subrange(k + 2, lines.len() as int)
                            } else {
                                Seq::empty()
                            };
                            let px = lines_pixels(rest);
                            if px.len() != w * h {
                                Err(PgmError::PixelCountMismatch)
                            } else {
                                Ok((w, h, px, m))
                            }
                        },
                    }
                }
            },
        }
    }
}

proof fn lemma_digits_value_nonneg(s: Seq<char>)
    requires
        all_digits(s),
    ensures
        digits_value(s) >= 0,
    decreases s.len(),
{
    if s.len() > 0 {
        lemma_digits_value_nonneg(s.drop_last());
    }
}

proof fn lemma_digits_value_prefix(s: Seq<char>, k: int)
    requires
        all_digits(s),
        0 <= k <= s.len(),
    ensures
        digits_value(s.subrange(0, k)) <= digits_value(s),
    decreases s.len(),
{
    if k < s.len() {
        assert(s.drop_last() =~= s.subrange(0, s.len() - 1));
        assert(s.drop_last().subrange(0, k) =~= s.subrange(0, k));
        lemma_digits_value_prefix(s.drop_last(), k);
        lemma_digits_value_nonneg(s.drop_last());
    } else {
        assert(s.subrange(0, k) =~= s);
    }
}

/// Reads `t` as an unsigned integer of at most `max`.
fn parse_uint_chars(t: &Vec<char>, max: u64) -> (r: Option<u64>)
    ensures
        r matches Some(v) ==> parse_uint(t@, max as int) == Some(v as int),
        r is None ==> parse_uint(t@, max as int) is None,
{
    let n = t.len();
    let lo: usize = if n > 0 && t[0] == '+' {
        1
    } else {
        0
    };
    let ghost body = t@.subrange(lo as int, n as int);
    assert(lo == 1 ==> t@.drop_first() =~= body);
    assert(lo == 0 ==> t@ =~= body);
    if lo == n {
        return None;
    }
    let mut v: u128 = 0;
    let mut i: usize = lo;
    assert(t@.subrange(lo as int, lo as int) =~= Seq::<char>::empty());
    while i < n
        invariant
            lo <= i <= n == t@.len(),
            body == t@.subrange(lo as int, n as int),
            lo <= 1,
            (lo == 1) == (t@.len() > 0 && t@[0] == '+'),
            lo == 1 ==> t@.drop_first() == body,
            lo == 0 ==> t@ == body,
            all_digits(t@.subrange(lo as int, i as int)),
            v == digits_value(t@.subrange(lo as int, i as int)),
            v <= max,
        decreases n - i,
    {
        let c = t[i];
        if !('0' <= c && c <= '9') {
            assert(body[i - lo] == c);
            assert(!is_digit(body[i - lo]));
            return None;
        }
        let ghost pre = t@.subrange(lo as int, i + 1);
        assert(pre.drop_last() =~= t@.subrange(lo as int, i as int));
        assert(pre.last() == c);
        v = v * 10 + (c as u32 - '0' as u32) as u128;
        assert(v == digits_value(pre));
        i = i + 1;
        if v > max as u128 {
            proof {
                if all_digits(body) {
                    assert(body.subrange(0, i - lo) =~= pre);
                    lemma_digits_value_prefix(body, i - lo);
                }
            }
            return None;
        }
    }
    assert(t@.subrange(lo as int, i as int) =~= body);
    Some(v as u64)
}

/// The maximal runs of non-whitespace characters of `s`.
fn tokens_of(s: &Vec<char>) -> (r: Vec<Vec<char>>)
    ensures
        r@.map_values(|t: Vec<char>| t@) == tokens(s@),
{
    let mut done: Vec<Vec<char>> = Vec::new();
    let mut cur: Vec<char> = Vec::new();
    let mut i: usize = 0;
    assert(s@.subrange(0, 0) =~= Seq::<char>::empty());
    while i < s.len()
        invariant
            i <= s@.len(),
            done@.map_values(|t: Vec<char>| t@) == token_state(s@.subrange(0, i as int)).0,
            cur@ == token_state(s@.subrange(0, i as int)).1,
        decreases s@.len() - i,
    {
        let ghost pre = s@.subrange(0, i + 1);
        assert(pre.drop_last() =~= s@.subrange(0, i as int));
        let c = s[i];
        if is_whitespace(c) {
            if cur.len() > 0 {
                let ghost old_done = done@;
                done.push(cur);
                cur = Vec::new();
                assert(done@.map_values(|t: Vec<char>| t@) =~= old_done.map_values(
                    |t: Vec<char>| t@,
                ).push(token_state(s@.subrange(0, i as int)).1));
            }
        } else {
            cur.push(c);
        }
        i = i + 1;
    }
    assert(s@.subrange(0, i as int) =~= s@);
    if cur.len() > 0 {
        let ghost old_done = done@;
        done.push(cur);
        assert(done@.map_values(|t: Vec<char>| t@) =~= old_done.map_values(|t: Vec<char>| t@).push(
            token_state(s@).1,
        ));
    }
    done
}

/// Appends the pixel values of one line to `out`.
fn push_line_pixels(line: &Vec<char>, out: &mut Vec<u16>)
    ensures
        final(out)@ == old(out)@ + token_pixels(tokens(line@)),
{
    let toks = tokens_of(line);
    let ghost tv = toks@.map_values(|t: Vec<char>| t@);
    let mut j: usize = 0;
    assert(tv.subrange(0, 0) =~= Seq::<Seq<char>>::empty());
    assert(old(out)@ + Seq::<u16>::empty() =~= old(out)@);
    while j < toks.len()
        invariant
            j <= toks@.len(),
            tv == toks@.map_values(|t: Vec<char>| t@),
            out@ == old(out)@ + token_pixels(tv.subrange(0, j as int)),
        decreases toks@.len() - j,
    {
        let ghost pre = tv.subrange(0, j + 1);
        assert(pre.drop_last() =~= tv.subrange(0, j as int));
        assert(pre.last() == toks@[j as int]@);
        let ghost before = out@;
        if let Some(v) = parse_uint_chars(&toks[j], 65535) {
            out.push(v as u16);
            assert(out@ =~= old(out)@ + token_pixels(pre));
        } else {
            assert(out@ =~= old(out)@ + token_pixels(pre));
        }
        j = j + 1;
    }
    assert(tv.subrange(0, j as int) =~= tv);
}

/// Whether a line is a comment or blank.
fn skipped(line: &Vec<char>) -> (r: bool)
    ensures
        r == is_skipped(line@),
{
    let ts = trim_start_chars(line);
    let t = trim_chars(line);
    (ts.len() > 0 && ts[0] == '#') || t.len() == 0
}

/// Reads a grey map from its lines.
pub fn parse_pgm_lines(lines: &Vec<String>) -> (r: Result<Pgm, PgmError>)
    ensures
        r matches Ok(p) ==> pgm_spec(lines@.map_values(|l: String| l@)) == Ok::<
            (int, int, Seq<u16>, int),
            PgmError,
        >((p.width as int, p.height as int, p.pixels@, p.maxval as int)),
        r matches Err(e) ==> pgm_spec(lines@.map_values(|l: String| l@)) == Err::<
            (int, int, Seq<u16>, int),
            PgmError,
        >(e),
{
    let ghost lv = lines@.map_values(|l: String| l@);
    let n = lines.len();
    if n == 0 {
        return Err(PgmError::NotP2);
    }
    let magic = trim_chars(&chars_of(lines[0].as_str()));
    if !(magic.len() >= 2 && magic[0] == 'P' && magic[1] == '2') {
        return Err(PgmError::NotP2);
    }
    let mut k: usize = 1;
    while k < n && skipped(&chars_of(lines[k].as_str()))
        invariant
            1 <= k <= n == lines@.len(),
            lv == lines@.map_values(|l: String| l@),
            dims_index(lv, 1) == dims_index(lv, k as int),
        decreases n - k,
    {
        k = k + 1;
    }
    if k == n {
        return Err(PgmError::MissingDimensions);
    }
    let dims = tokens_of(&chars_of(lines[k].as_str()));
    if dims.len() < 2 {
        return Err(PgmError::BadDimensions);
    }
    assert(dims@.map_values(|t: Vec<char>| t@)[0] == dims@[0]@);
    assert(dims@.map_values(|t: Vec<char>| t@)[1] == dims@[1]@);
    let w = match parse_uint_chars(&dims[0], usize::MAX as u64) {
        Some(v) => v as usize,
        None => {
            return Err(PgmError::BadDimensions);
        },
    };
    let h = match parse_uint_chars(&dims[1], usize::MAX as u64) {
        Some(v) => v as usize,
        None => {
            return Err(PgmError::BadDimensions);
        },
    };
    let max_line = if k + 1 < n {
        chars_of(lines[k + 1].as_str())
    } else {
        Vec::new()
    };
    assert(max_line@ == (if k + 1 < lv.len() {
        lv[k + 1]
    } else {
        Seq::<char>::empty()
    }));
    let maxval = match parse_uint_chars(&trim_chars(&max_line), 65535) {
        Some(v) => v as u16,
        None => {
            return Err(PgmError::BadMaxval);
        },
    };
    let mut pixels: Vec<u16> = Vec::new();
    let start: usize = if k + 2 <= n {
        k + 2
    } else {
        n
    };
    let mut j: usize = start;
    assert(lv.subrange(start as int, start as int) =~= Seq::<Seq<char>>::empty());
    while j < n
        invariant
            start <= j <= n == lines@.len(),
            lv == lines@.map_values(|l: String| l@),
            pixels@ == lines_pixels(lv.subrange(start as int, j as int)),
        decreases n - j,
    {
        let ghost pre = lv.subrange(start as int, j + 1);
        assert(pre.drop_last() =~= lv.subrange(start as int, j as int));
        push_line_pixels(&chars_of(lines[j].as_str()), &mut pixels);
        j = j + 1;
    }
    if k + 2 > n {
        assert(lv.subrange(start as int, n as int) =~= Seq::<Seq<char>>::empty());
    }
    assert(w as int <= 0xffff_ffff_ffff_ffff_int && h as int <= 0xffff_ffff_ffff_ffff_int);
    assert((w as int) * (h as int) <= u128::MAX) by (nonlinear_arith)
        requires
            0 <= w <= 0xffff_ffff_ffff_ffff_int,
            0 <= h <= 0xffff_ffff_ffff_ffff_int,
    ;
    if pixels.len() as u128 != (w as u128) * (h as u128) {
        return Err(PgmError::PixelCountMismatch);
    }
    Ok(Pgm { width: w, height: h, pixels, maxval })
}

/// The sum of the pixels.
pub open spec fn pixel_sum(px: Seq<u16>) -> int
    decreases px.len(),
{
    if px.len() == 0 {
        0
    } else {
        pixel_sum(px.drop_last()) + px.last() as int
    }
}

/// The smallest pixel, 0 when there is none.
pub open spec fn pixel_min(px: Seq<u16>) -> int
    decreases px.len(),
{
    if px.len() == 0 {
        0
    } else if px.len() == 1 || (px.last() as int) < pixel_min(px.drop_last()) {
        px.last() as int
    } else {
        pixel_min(px.drop_last())
    }
}

/// The largest pixel, 0 when there is none.
pub open spec fn pixel_max(px: Seq<u16>) -> int
    decreases px.len(),
{
    if px.len() == 0 {
        0
    } else if px.len() == 1 || (px.last() as int) > pixel_max(px.drop_last()) {
        px.last() as int
    } else {
        pixel_max(px.drop_last())
    }
}

/// The mean grey level, relative to `maxval`, is below 0.4; with `maxval`
/// zero the relative level counts as zero.
pub open spec fn is_dark(px: Seq<u16>, maxval: int) -> bool {
    maxval == 0 || (px.len() > 0 && pixel_sum(px) * 10 < 4 * px.len() * maxval)
}

/// The mean grey level, relative to `maxval`, is above 0.6.
pub open spec fn is_bright(px: Seq<u16>, maxval: int) -> bool {
    maxval > 0 && px.len() > 0 && pixel_sum(px) * 10 > 6 * px.len() * maxval
}

/// The spread between the darkest and brightest pixel, relative to
/// `maxval`, is above 0.8.
pub open spec fn is_high_contrast(px: Seq<u16>, maxval: int) -> bool {
    maxval > 0 && (pixel_max(px) - pixel_min(px)) * 10 > 8 * maxval
}

/// The tags of an image, in this order: `mostly_dark`, `mostly_bright`,
/// `high_contrast`, each when it applies, or `neutral` when none does.
pub open spec fn image_tags(px: Seq<u16>, maxval: int) -> Seq<Seq<char>> {
    let t1: Seq<Seq<char>> = if is_dark(px, maxval) {
        seq!["mostly_dark"@]
    } else {
        Seq::empty()
    };
    let t2 = if is_bright(px, maxval) {
        t1.push("mostly_bright"@)
    } else {
        t1
    };
    let t3 = if is_high_contrast(px, maxval) {
        t2.push("high_contrast"@)
    } else {
        t2
    };
    if t3.len() == 0 {
        seq!["neutral"@]
    } else {
        t3
    }
}

/// Tags a grey map by its mean level and its contrast.
pub fn tag_image(pixels: &Vec<u16>, maxval: u16) -> (r: Vec<String>)
    ensures
        r@.map_values(|t: String| t@) == image_tags(pixels@, maxval as int),
{
    let n = pixels.len();
    let mut sum: u128 = 0;
    let mut lo: u16 = 0;
    let mut hi: u16 = 0;
    let mut i: usize = 0;
    assert(pixels@.subrange(0, 0) =~= Seq::<u16>::empty());
    while i < n
        invariant
            i <= n == pixels@.len(),
            sum == pixel_sum(pixels@.subrange(0, i as int)),
            sum <= 65535 * i,
            lo == pixel_min(pixels@.subrange(0, i as int)),
            hi == pixel_max(pixels@.subrange(0, i as int)),
        decreases n - i,
    {
        let ghost pre = pixels@.subrange(0, i + 1);
        assert(pre.drop_last() =~= pixels@.subrange(0, i as int));
        let v = pixels[i];
        if i == 0 || v < lo {
            lo = v;
        }
        if i == 0 || v > hi {
            hi = v;
        }
        sum = sum + v as u128;
        i = i + 1;
    }
    assert(pixels@.subrange(0, i as int) =~= pixels@);
    let m = maxval as u128;
    let len = n as u128;
    assert(len * m <= 0xffff_ffff_ffff_ffff_int * 65535) by (nonlinear_arith)
        requires
            0 <= len <= 0xffff_ffff_ffff_ffff_int,
            0 <= m <= 65535,
    ;
    let lm = len * m;
    assert(4 * lm == 4 * len * m && 6 * lm == 6 * len * m) by (nonlinear_arith)
        requires
            lm == len * m,
    ;
    let dark = maxval == 0 || (n > 0 && sum * 10 < 4 * lm);
    let bright = maxval > 0 && n > 0 && sum * 10 > 6 * lm;
    let contrast = maxval > 0 && (hi as u128 - lo as u128) * 10 > 8 * m;
    proof {
        if n > 0 {
            lemma_min_le_max(pixels@);
        }
    }
    let mut tags: Vec<String> = Vec::new();
    if dark {
        tags.push(String::from_str("mostly_dark"));
    }
    if bright {
        tags.push(String::from_str("mostly_bright"));
    }
    if contrast {
        tags.push(String::from_str("high_contrast"));
    }
    if tags.len() == 0 {
        tags.push(String::from_str("neutral"));
    }
    proof {
        reveal_strlit("mostly_dark");
        reveal_strlit("mostly_bright");
        reveal_strlit("high_contrast");
        reveal_strlit("neutral");
    }
    assert(tags@.map_values(|t: String| t@) =~= image_tags(pixels@, maxval as int));
    tags
}

proof fn lemma_min_le_max(px: Seq<u16>)
    ensures
        pixel_min(px) <= pixel_max(px),
    decreases px.len(),
{
    if px.len() > 1 {
        lemma_min_le_max(px.drop_last());
    }
}

} // verus!
