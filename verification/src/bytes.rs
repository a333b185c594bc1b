//! Byte-level text scanning over UTF-8 encoded strings.
//!
//! Positions are byte offsets into the UTF-8 encoding of a string, as they
//! are for `str::find` and string slicing in Rust.
use vstd::prelude::*;
use vstd::utf8::*;

verus! {

/// `pat` occurs in `b` starting at byte `i`.
pub open spec fn matches_at<A>(b: Seq<A>, pat: Seq<A>, i: int) -> bool {
    0 <= i && i + pat.len() <= b.len() && b.subrange(i, i + pat.len()) == pat
}

/// The first position at or after `from` where `pat` occurs, as `str::find`
/// reports it on the tail of a string that starts at `from`.
pub open spec fn find_from<A>(b: Seq<A>, pat: Seq<A>, from: int) -> Option<int>
    decreases b.len() + 1 - from,
{
    if from < 0 || from + pat.len() > b.len() {
        None
    } else if matches_at(b, pat, from) {
        Some(from)
    } else {
        find_from(b, pat, from + 1)
    }
}

pub proof fn lemma_find_from_bounds<A>(b: Seq<A>, pat: Seq<A>, from: int)
    ensures
        find_from(b, pat, from) matches Some(p) ==> from <= p && p + pat.len() <= b.len()
            && matches_at(b, pat, p),
        find_from(b, pat, from) matches Some(p) ==> forall|j: int|
            from <= j < p ==> !matches_at(b, pat, j),
    decreases b.len() + 1 - from,
{
    if from < 0 || from + pat.len() > b.len() {
    } else if matches_at(b, pat, from) {
    } else {
        lemma_find_from_bounds(b, pat, from + 1);
    }
}

/// Whether `pat` occurs at byte `i` of `b`.
pub fn bytes_match_at(b: &[u8], pat: &[u8], i: usize) -> (r: bool)
    ensures
        r == matches_at(b@, pat@, i as int),
{
    if i > b.len() || pat.len() > b.len() - i {
        return false;
    }
    let mut k: usize = 0;
    while k < pat.len()
        invariant
            i + pat@.len() <= b@.len(),
            b@.len() == b.len(),
            pat@.len() == pat.len(),
            k <= pat@.len(),
            forall|j: int| 0 <= j < k ==> b@[i + j] == pat@[j],
        decreases pat@.len() - k,
    {
        if b[i + k] != pat[k] {
            assert(b@.subrange(i as int, i + pat@.len())[k as int] != pat@[k as int]);
            return false;
        }
        k = k + 1;
    }
    assert(b@.subrange(i as int, i + pat@.len()) =~= pat@);
    true
}

/// `str::find` on the tail of `b` that starts at `from`, as an absolute position.
pub fn find_bytes(b: &[u8], pat: &[u8], from: usize) -> (r: Option<usize>)
    ensures
        match r {
            Some(p) => find_from(b@, pat@, from as int) == Some(p as int),
            None => find_from(b@, pat@, from as int) is None,
        },
{
    if from > b.len() || pat.len() > b.len() - from {
        return None;
    }
    let last = b.len() - pat.len();
    let mut i = from;
    loop
        invariant
            from <= i <= last,
            last + pat@.len() == b@.len(),
            find_from(b@, pat@, from as int) == find_from(b@, pat@, i as int),
        decreases last - i,
    {
        if bytes_match_at(b, pat, i) {
            return Some(i);
        }
        if i == last {
            assert(find_from(b@, pat@, i + 1) is None);
            return None;
        }
        i = i + 1;
    }
}


/// The `White_Space` property of Unicode, which `char::is_whitespace` tests.
pub open spec fn is_white_space(cp: u32) -> bool {
    ||| 0x09 <= cp <= 0x0d
    ||| cp == 0x20
    ||| cp == 0x85
    ||| cp == 0xa0
    ||| cp == 0x1680
    ||| 0x2000 <= cp <= 0x200a
    ||| cp == 0x2028
    ||| cp == 0x2029
    ||| cp == 0x202f
    ||| cp == 0x205f
    ||| cp == 0x3000
}

/// The code point and the encoded length of the character that starts at
/// byte `i`, when a leading byte and its continuation bytes stand there.
pub open spec fn char_at(b: Seq<u8>, i: int) -> Option<(u32, int)> {
    if 0 <= i < b.len() && valid_leading_and_continuation_bytes_first_codepoint(
        b.subrange(i, b.len() as int),
    ) {
        Some(
            (
                decode_first_codepoint(b.subrange(i, b.len() as int)),
                length_of_first_codepoint(b.subrange(i, b.len() as int)),
            ),
        )
    } else {
        None
    }
}

/// The code point and the encoded length of the character that ends just
/// before byte `i` (the last scalar of the first `i` bytes).
pub open spec fn char_before(b: Seq<u8>, i: int) -> Option<(u32, int)> {
    if !(0 < i <= b.len()) {
        None
    } else if !is_continuation_byte(b[i - 1]) {
        Some((codepoint_width_1(b[i - 1]), 1))
    } else if i >= 2 && !is_continuation_byte(b[i - 2]) {
        Some((codepoint_width_2(b[i - 2], b[i - 1]), 2))
    } else if i >= 3 && !is_continuation_byte(b[i - 3]) {
        Some((codepoint_width_3(b[i - 3], b[i - 2], b[i - 1]), 3))
    } else if i >= 4 {
        Some((codepoint_width_4(b[i - 4], b[i - 3], b[i - 2], b[i - 1]), 4))
    } else {
        None
    }
}

/// The character ending just before `i` is white space.
pub open spec fn white_space_before(b: Seq<u8>, i: int) -> bool {
    char_before(b, i) matches Some((cp, _)) && is_white_space(cp)
}

/// The first position at or after `i` that does not start a white-space
/// character (`str::trim_start` on the tail starting at `i`).
pub open spec fn skip_white_space(b: Seq<u8>, i: int) -> int
    decreases b.len() - i,
{
    match char_at(b, i) {
        Some((cp, n)) => if is_white_space(cp) {
            skip_white_space(b, i + n)
        } else {
            i
        },
        None => i,
    }
}

/// The last position at or before `j` that does not end a white-space
/// character (`str::trim_end` on the first `j` bytes).
pub open spec fn skip_white_space_back(b: Seq<u8>, j: int) -> int
    decreases j,
{
    match char_before(b, j) {
        Some((cp, n)) => if is_white_space(cp) {
            skip_white_space_back(b, j - n)
        } else {
            j
        },
        None => j,
    }
}

/// `str::trim`: white space removed from both ends.
pub open spec fn trimmed(s: Seq<u8>) -> Seq<u8> {
    let t = s.subrange(skip_white_space(s, 0), s.len() as int);
    t.subrange(0, skip_white_space_back(t, t.len() as int))
}

/// Decodes the character that starts at byte `i`.
pub fn decode_char_at(b: &[u8], i: usize) -> (r: Option<(u32, usize)>)
    ensures
        match r {
            Some((cp, n)) => char_at(b@, i as int) == Some((cp, n as int)),
            None => char_at(b@, i as int) is None,
        },
        r matches Some((_, n)) ==> 1 <= n <= 4 && i + n <= b@.len(),
{
    if i >= b.len() {
        return None;
    }
    let ghost t = b@.subrange(i as int, b@.len() as int);
    let rest = b.len() - i;
    let b0 = b[i];
    if b0 <= 0x7f {
        return Some(((b0 & 0x7f) as u32, 1));
    }
    if 0xc0 <= b0 && b0 <= 0xdf {
        if rest >= 2 && 0x80 <= b[i + 1] && b[i + 1] <= 0xbf {
            let b1 = b[i + 1];
            return Some(((((b0 & 0x1f) as u32) << 6) | ((b1 & 0x3f) as u32), 2));
        }
        return None;
    }
    if 0xe0 <= b0 && b0 <= 0xef {
        if rest >= 3 && 0x80 <= b[i + 1] && b[i + 1] <= 0xbf && 0x80 <= b[i + 2] && b[i + 2] <= 0xbf {
            let b1 = b[i + 1];
            let b2 = b[i + 2];
            return Some(
                (
                    (((b0 & 0x0f) as u32) << 12) | (((b1 & 0x3f) as u32) << 6) | ((b2 & 0x3f) as u32),
                    3,
                ),
            );
        }
        return None;
    }
    if 0xf0 <= b0 && b0 <= 0xf7 {
        if rest >= 4 && 0x80 <= b[i + 1] && b[i + 1] <= 0xbf && 0x80 <= b[i + 2] && b[i + 2]
            <= 0xbf && 0x80 <= b[i + 3] && b[i + 3] <= 0xbf {
            let b1 = b[i + 1];
            let b2 = b[i + 2];
            let b3 = b[i + 3];
            return Some(
                (
                    (((b0 & 0x07) as u32) << 18) | (((b1 & 0x3f) as u32) << 12) | (((b2 & 0x3f) as u32)
                        << 6) | ((b3 & 0x3f) as u32),
                    4,
                ),
            );
        }
        return None;
    }
    None
}


/// `char::is_whitespace` on a code point.
pub fn is_white_space_code(cp: u32) -> (r: bool)
    ensures
        r == is_white_space(cp),
{
    (0x09 <= cp && cp <= 0x0d) || cp == 0x20 || cp == 0x85 || cp == 0xa0 || cp == 0x1680 || (0x2000
        <= cp && cp <= 0x200a) || cp == 0x2028 || cp == 0x2029 || cp == 0x202f || cp == 0x205f || cp
        == 0x3000
}

/// Decodes the character that ends just before byte `i`.
pub fn decode_char_before(b: &[u8], i: usize) -> (r: Option<(u32, usize)>)
    ensures
        match r {
            Some((cp, n)) => char_before(b@, i as int) == Some((cp, n as int)),
            None => char_before(b@, i as int) is None,
        },
        r matches Some((_, n)) ==> 1 <= n <= 4 && n <= i,
{
    if i == 0 || i > b.len() {
        return None;
    }
    let c1 = b[i - 1];
    if !(0x80 <= c1 && c1 <= 0xbf) {
        return Some(((c1 & 0x7f) as u32, 1));
    }
    if i >= 2 && !(0x80 <= b[i - 2] && b[i - 2] <= 0xbf) {
        let c2 = b[i - 2];
        return Some(((((c2 & 0x1f) as u32) << 6) | ((c1 & 0x3f) as u32), 2));
    }
    if i >= 3 && !(0x80 <= b[i - 3] && b[i - 3] <= 0xbf) {
        let c2 = b[i - 2];
        let c3 = b[i - 3];
        return Some(
            (
                (((c3 & 0x0f) as u32) << 12) | (((c2 & 0x3f) as u32) << 6) | ((c1 & 0x3f) as u32),
                3,
            ),
        );
    }
    if i >= 4 {
        let c2 = b[i - 2];
        let c3 = b[i - 3];
        let c4 = b[i - 4];
        return Some(
            (
                (((c4 & 0x07) as u32) << 18) | (((c3 & 0x3f) as u32) << 12) | (((c2 & 0x3f) as u32)
                    << 6) | ((c1 & 0x3f) as u32),
                4,
            ),
        );
    }
    None
}

/// Whether the character ending just before `i` is white space.
pub fn white_space_ends_at(b: &[u8], i: usize) -> (r: bool)
    ensures
        r == white_space_before(b@, i as int),
{
    match decode_char_before(b, i) {
        Some((cp, _)) => is_white_space_code(cp),
        None => false,
    }
}

/// Skips the white space that starts at `i`.
pub fn skip_white_space_from(b: &[u8], i: usize) -> (r: usize)
    requires
        i <= b@.len(),
    ensures
        r as int == skip_white_space(b@, i as int),
        i <= r <= b@.len(),
{
    let mut k = i;
    loop
        invariant
            i <= k <= b@.len(),
            b@.len() == b.len(),
            skip_white_space(b@, i as int) == skip_white_space(b@, k as int),
        decreases b@.len() - k,
    {
        match decode_char_at(b, k) {
            Some((cp, n)) => {
                if is_white_space_code(cp) {
                    k = k + n;
                } else {
                    return k;
                }
            },
            None => {
                return k;
            },
        }
    }
}

/// Skips the white space that ends at `j`, never going below `lo`.
pub fn skip_white_space_back_to(b: &[u8], j: usize) -> (r: usize)
    requires
        j <= b@.len(),
    ensures
        r as int == skip_white_space_back(b@, j as int),
        r <= j,
{
    let mut k = j;
    loop
        invariant
            k <= j <= b@.len(),
            skip_white_space_back(b@, j as int) == skip_white_space_back(b@, k as int),
        decreases k,
    {
        match decode_char_before(b, k) {
            Some((cp, n)) => {
                if is_white_space_code(cp) {
                    k = k - n;
                } else {
                    return k;
                }
            },
            None => {
                return k;
            },
        }
    }
}

/// Copies `b[from..to]` into a new vector.
pub fn copy_range(b: &[u8], from: usize, to: usize) -> (r: Vec<u8>)
    requires
        from <= to <= b@.len(),
    ensures
        r@ == b@.subrange(from as int, to as int),
{
    let mut r: Vec<u8> = Vec::new();
    let mut k = from;
    while k < to
        invariant
            from <= k <= to <= b@.len(),
            r@ == b@.subrange(from as int, k as int),
        decreases to - k,
    {
        r.push(b[k]);
        k = k + 1;
        assert(r@ =~= b@.subrange(from as int, k as int));
    }
    r
}

/// Appends `b[from..to]` to `out`.
pub fn append_range(out: &mut Vec<u8>, b: &[u8], from: usize, to: usize)
    requires
        from <= to <= b@.len(),
    ensures
        final(out)@ == old(out)@ + b@.subrange(from as int, to as int),
{
    let mut k = from;
    while k < to
        invariant
            from <= k <= to <= b@.len(),
            out@ == old(out)@ + b@.subrange(from as int, k as int),
        decreases to - k,
    {
        out.push(b[k]);
        k = k + 1;
        assert(out@ =~= old(out)@ + b@.subrange(from as int, k as int));
    }
}

/// `str::trim` on a byte sequence: the bytes left once white space is
/// removed from both ends.
pub fn trim_bytes(s: &[u8]) -> (r: Vec<u8>)
    ensures
        r@ == trimmed(s@),
{
    let a = skip_white_space_from(s, 0);
    let t = copy_range(s, a, s.len());
    let e = skip_white_space_back_to(&t, t.len());
    copy_range(&t, 0, e)
}


/// In valid UTF-8, the byte after an ASCII byte starts a character.
pub proof fn lemma_after_ascii(b: Seq<u8>, i: int)
    requires
        valid_utf8(b),
        0 <= i < b.len(),
        b[i] < 0x80,
    ensures
        i + 1 < b.len() ==> !is_continuation_byte(b[i + 1]),
{
    is_char_boundary_iff_not_is_continuation_byte(b, i);
    valid_utf8_split(b, i);
    let suf = b.subrange(i, b.len() as int);
    reveal_with_fuel(valid_utf8, 2);
    assert(valid_first_scalar(suf));
    let rest = pop_first_scalar(suf);
    assert(rest =~= b.subrange(i + 1, b.len() as int));
    if i + 1 < b.len() {
        assert(valid_first_scalar(rest));
        assert(rest[0] == b[i + 1]);
    }
}

/// Cutting valid UTF-8 where characters start (or at its ends) leaves valid
/// UTF-8.
pub proof fn lemma_valid_subrange(b: Seq<u8>, i: int, j: int)
    requires
        valid_utf8(b),
        0 <= i <= j <= b.len(),
        i == b.len() || !is_continuation_byte(b[i]),
        j == b.len() || !is_continuation_byte(b[j]),
    ensures
        valid_utf8(b.subrange(i, j)),
{
    is_char_boundary_start_end_of_seq(b);
    if i < b.len() {
        is_char_boundary_iff_not_is_continuation_byte(b, i);
    }
    valid_utf8_split(b, i);
    let suf = b.subrange(i, b.len() as int);
    is_char_boundary_start_end_of_seq(suf);
    if j < b.len() {
        assert(suf[j - i] == b[j]);
        is_char_boundary_iff_not_is_continuation_byte(suf, j - i);
    }
    valid_utf8_split(suf, j - i);
    assert(suf.subrange(0, j - i) =~= b.subrange(i, j));
}


/// The decimal digits of `n`, as `n.to_string()` writes them.
pub open spec fn decimal_digits(n: nat) -> Seq<u8>
    decreases n,
{
    if n < 10 {
        seq![(0x30 + n) as u8]
    } else {
        decimal_digits(n / 10) + seq![(0x30 + n % 10) as u8]
    }
}

/// The decimal text of a signed number, with `-` in front of a negative one.
pub open spec fn signed_decimal(v: int) -> Seq<u8> {
    if v < 0 {
        seq![0x2du8] + decimal_digits((-v) as nat)
    } else {
        decimal_digits(v as nat)
    }
}

pub open spec fn is_ascii_bytes(b: Seq<u8>) -> bool {
    forall|i: int| 0 <= i < b.len() ==> #[trigger] b[i] < 0x80
}

/// Bytes below 0x80 are valid UTF-8.
pub proof fn lemma_ascii_valid(b: Seq<u8>)
    requires
        is_ascii_bytes(b),
    ensures
        valid_utf8(b),
    decreases b.len(),
{
    if b.len() > 0 {
        assert(valid_first_scalar(b));
        assert(pop_first_scalar(b) =~= b.subrange(1, b.len() as int));
        lemma_ascii_valid(b.subrange(1, b.len() as int));
    }
}

proof fn lemma_decimal_digits_ascii(n: nat)
    ensures
        is_ascii_bytes(decimal_digits(n)),
        decimal_digits(n).len() >= 1,
    decreases n,
{
    if n >= 10 {
        lemma_decimal_digits_ascii(n / 10);
        let d = decimal_digits(n);
        assert forall|i: int| 0 <= i < d.len() implies #[trigger] d[i] < 0x80 by {
            if i < decimal_digits(n / 10).len() {
                assert(d[i] == decimal_digits(n / 10)[i]);
            }
        }
    }
}

/// The decimal digits of `n`.
pub fn u64_decimal(n: u64) -> (r: Vec<u8>)
    ensures
        r@ == decimal_digits(n as nat),
        is_ascii_bytes(r@),
    decreases n,
{
    proof {
        lemma_decimal_digits_ascii(n as nat);
    }
    if n < 10 {
        let r: Vec<u8> = vec![(0x30 + n) as u8];
        assert(r@ =~= decimal_digits(n as nat));
        r
    } else {
        let mut r = u64_decimal(n / 10);
        r.push((0x30 + n % 10) as u8);
        assert(r@ =~= decimal_digits(n as nat));
        r
    }
}

/// The decimal text of a signed number.
pub fn i64_decimal(v: i64) -> (r: Vec<u8>)
    ensures
        r@ == signed_decimal(v as int),
        is_ascii_bytes(r@),
{
    if v < 0 {
        let magnitude: u64 = if v == i64::MIN {
            0x8000_0000_0000_0000
        } else {
            (-v) as u64
        };
        let digits = u64_decimal(magnitude);
        let mut r: Vec<u8> = vec![0x2d];
        append_range(&mut r, &digits, 0, digits.len());
        assert(digits@.subrange(0, digits@.len() as int) =~= digits@);
        assert(r@ =~= signed_decimal(v as int));
        assert forall|i: int| 0 <= i < r@.len() implies #[trigger] r@[i] < 0x80 by {
            if i > 0 {
                assert(r@[i] == digits@[i - 1]);
            }
        }
        r
    } else {
        u64_decimal(v as u64)
    }
}

} // verus!
