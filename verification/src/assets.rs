//! The `ascdesktop` asset protocol: turning a request URI into the request it
//! stands for, and the names and content types the answers carry.
use vstd::prelude::*;
use vstd::string::*;
use vstd::utf8::*;
use crate::text::{
    after_last, chars_match_at, chars_of, find_chars, has_prefix, has_suffix, push_chars, push_str_chars,
    string_from_chars, string_from_utf8,
};
use crate::bytes::{find_from, lemma_find_from_bounds};

verus! {

/// The value of a hexadecimal digit.
pub open spec fn hex_value(c: u8) -> Option<u8> {
    if 0x30 <= c <= 0x39 {
        Some((c - 0x30) as u8)
    } else if 0x61 <= c <= 0x66 {
        Some((c - 0x61 + 10) as u8)
    } else if 0x41 <= c <= 0x46 {
        Some((c - 0x41 + 10) as u8)
    } else {
        None
    }
}

/// `u8::from_str_radix(text, 16)` on the two bytes `a`, `b`: an optional
/// leading `+`, then hexadecimal digits only.
pub open spec fn hex_pair(a: u8, b: u8) -> Option<u8> {
    if a == 0x2b {
        hex_value(b)
    } else {
        match (hex_value(a), hex_value(b)) {
            (Some(x), Some(y)) => Some((x * 16 + y) as u8),
            _ => None,
        }
    }
}

/// Percent-decoding the bytes from position `i` on: a `%` followed by two
/// bytes that parse as a hexadecimal number becomes that byte; every other
/// byte is kept.
pub open spec fn percent_decoded(b: Seq<u8>, i: int) -> Seq<u8>
    decreases b.len() - i,
{
    if i < 0 || i >= b.len() {
        Seq::empty()
    } else if b[i] == 0x25 && i + 2 < b.len() && hex_pair(b[i + 1], b[i + 2]) is Some {
        seq![hex_pair(b[i + 1], b[i + 2])->0] + percent_decoded(b, i + 3)
    } else {
        seq![b[i]] + percent_decoded(b, i + 1)
    }
}

/// Decoding from position `i` on slices the text between two positions that
/// are not character boundaries: the decoder takes the two bytes after a
/// `%` as a string slice, which panics there.
pub open spec fn percent_decoding_panics(b: Seq<u8>, i: int) -> bool
    decreases b.len() - i,
{
    if i < 0 || i >= b.len() {
        false
    } else if b[i] == 0x25 && b.len() - i > 2 {
        if !(is_char_boundary(b, i + 1) && is_char_boundary(b, i + 3)) {
            true
        } else if hex_pair(b[i + 1], b[i + 2]) is Some {
            percent_decoding_panics(b, i + 3)
        } else {
            percent_decoding_panics(b, i + 1)
        }
    } else {
        percent_decoding_panics(b, i + 1)
    }
}

/// The decoded text: the decoded bytes when they are valid UTF-8, the input
/// unchanged when they are not.
pub open spec fn percent_decoded_text(input: Seq<char>) -> Seq<char> {
    let d = percent_decoded(encode_utf8(input), 0);
    if valid_utf8(d) {
        decode_utf8(d)
    } else {
        input
    }
}

proof fn lemma_scalar_bytes(v: u32)
    requires
        v != 0x25,
        v <= 0x10FFFF,
    ensures
        !encode_scalar(v).contains(0x25u8),
{
    if has_width_1_encoding(v) {
        assert((v & 0x7F) as u8 != 0x25) by (bit_vector)
            requires
                v <= 0x7F,
                v != 0x25,
        ;
        assert(encode_scalar(v)[0] == (v & 0x7F) as u8);
    } else {
        assert(forall|y: u8| #[trigger] (0xC0u8 | y) >= 0x80) by (bit_vector);
        assert(forall|y: u8| #[trigger] (0xE0u8 | y) >= 0x80) by (bit_vector);
        assert(forall|y: u8| #[trigger] (0xF0u8 | y) >= 0x80) by (bit_vector);
        assert(forall|y: u8| #[trigger] (0x80u8 | y) >= 0x80) by (bit_vector);
        let e = encode_scalar(v);
        assert forall|k: int| 0 <= k < e.len() implies e[k] >= 0x80 by {
            if has_width_2_encoding(v) {
                assert(e[0] == leading_byte_width_2(v));
                assert(e[1] == last_continuation_byte(v));
            } else if has_width_3_encoding(v) {
                assert(e[0] == leading_byte_width_3(v));
                assert(e[1] == second_last_continuation_byte(v));
                assert(e[2] == last_continuation_byte(v));
            } else {
                assert(e[0] == leading_byte_width_4(v));
                assert(e[1] == third_last_continuation_byte(v));
                assert(e[2] == second_last_continuation_byte(v));
                assert(e[3] == last_continuation_byte(v));
            }
        }
    }
}

proof fn lemma_encoding_without_percent(s: Seq<char>)
    requires
        !s.contains('%'),
    ensures
        !encode_utf8(s).contains(0x25u8),
    decreases s.len(),
{
    if s.len() > 0 {
        let rest = s.drop_first();
        assert(!rest.contains('%')) by {
            if rest.contains('%') {
                let k = choose|k: int| 0 <= k < rest.len() && rest[k] == '%';
                assert(s[k + 1] == '%');
            }
        }
        lemma_encoding_without_percent(rest);
        assert(s[0] != '%');
        let v = s[0] as u32;
        char_is_scalar(s[0]);
        char_u32_cast(s[0], v);
        assert(v != 0x25) by {
            if v == 0x25 {
                char_u32_cast('%', 0x25);
                assert(('%' as u32) == 0x25);
            }
        }
        assert(v <= 0x10FFFF);
        lemma_scalar_bytes(v);
        let a = encode_scalar(v);
        let b = encode_utf8(rest);
        assert(encode_utf8(s) == a + b);
        assert(!(a + b).contains(0x25u8)) by {
            if (a + b).contains(0x25u8) {
                let k = choose|k: int| 0 <= k < (a + b).len() && (a + b)[k] == 0x25u8;
                if k < a.len() {
                    assert(a[k] == 0x25u8);
                } else {
                    assert(b[k - a.len()] == 0x25u8);
                }
            }
        }
    }
}

proof fn lemma_decoding_without_percent(b: Seq<u8>, i: int)
    requires
        !b.contains(0x25u8),
        0 <= i <= b.len(),
    ensures
        percent_decoded(b, i) == b.skip(i),
        !percent_decoding_panics(b, i),
    decreases b.len() - i,
{
    if i < b.len() {
        assert(b[i] != 0x25);
        lemma_decoding_without_percent(b, i + 1);
        assert(seq![b[i]] + b.skip(i + 1) =~= b.skip(i));
    } else {
        assert(b.skip(i) =~= Seq::<u8>::empty());
    }
}

/// A path without `%` decodes to itself, and decoding it never panics.
pub proof fn law_text_without_escapes_is_kept(input: Seq<char>)
    requires
        !input.contains('%'),
    ensures
        percent_decoded_text(input) == input,
        !percent_decoding_panics(encode_utf8(input), 0),
{
    lemma_encoding_without_percent(input);
    lemma_decoding_without_percent(encode_utf8(input), 0);
    assert(encode_utf8(input).skip(0) =~= encode_utf8(input));
    encode_utf8_valid_utf8(input);
    encode_utf8_decode_utf8(input);
}

/// The hexadecimal digits in the order of their values, in lower case.
pub open spec fn lower_hex_digits() -> Seq<char> {
    seq!['0', '1', '2', '3', '4', '5', '6', '7', '8', '9', 'a', 'b', 'c', 'd', 'e', 'f']
}

/// The hexadecimal digits in the order of their values, in upper case.
pub open spec fn upper_hex_digits() -> Seq<char> {
    seq!['0', '1', '2', '3', '4', '5', '6', '7', '8', '9', 'A', 'B', 'C', 'D', 'E', 'F']
}

proof fn lemma_hex_digit_codes()
    ensures
        lower_hex_digits().len() == 16,
        upper_hex_digits().len() == 16,
        forall|k: int|
            0 <= k < 16 ==> #[trigger] lower_hex_digits()[k] as u8 == if k < 10 {
                0x30 + k
            } else {
                0x61 + k - 10
            },
        forall|k: int|
            0 <= k < 16 ==> #[trigger] upper_hex_digits()[k] as u8 == if k < 10 {
                0x30 + k
            } else {
                0x41 + k - 10
            },
{
    let lower = lower_hex_digits();
    let upper = upper_hex_digits();
    assert(lower[0] as u8 == 48);
    assert(lower[1] as u8 == 49);
    assert(lower[2] as u8 == 50);
    assert(lower[3] as u8 == 51);
    assert(lower[4] as u8 == 52);
    assert(lower[5] as u8 == 53);
    assert(lower[6] as u8 == 54);
    assert(lower[7] as u8 == 55);
    assert(lower[8] as u8 == 56);
    assert(lower[9] as u8 == 57);
    assert(lower[10] as u8 == 97);
    assert(lower[11] as u8 == 98);
    assert(lower[12] as u8 == 99);
    assert(lower[13] as u8 == 100);
    assert(lower[14] as u8 == 101);
    assert(lower[15] as u8 == 102);
    assert(upper[0] as u8 == 48);
    assert(upper[1] as u8 == 49);
    assert(upper[2] as u8 == 50);
    assert(upper[3] as u8 == 51);
    assert(upper[4] as u8 == 52);
    assert(upper[5] as u8 == 53);
    assert(upper[6] as u8 == 54);
    assert(upper[7] as u8 == 55);
    assert(upper[8] as u8 == 56);
    assert(upper[9] as u8 == 57);
    assert(upper[10] as u8 == 65);
    assert(upper[11] as u8 == 66);
    assert(upper[12] as u8 == 67);
    assert(upper[13] as u8 == 68);
    assert(upper[14] as u8 == 69);
    assert(upper[15] as u8 == 70);
}

/// A hexadecimal digit has the value `u8::from_str_radix(_, 16)` gives it,
/// in either case: the `k`-th digit, `0` to `9` then `a` to `f` or `A` to
/// `F`, has the value `k`; every other byte is no digit.
pub proof fn law_hex_digits(k: int, c: u8)
    requires
        0 <= k < 16,
    ensures
        hex_value(lower_hex_digits()[k] as u8) == Some(k as u8),
        hex_value(upper_hex_digits()[k] as u8) == Some(k as u8),
        hex_value(c) is Some <==> exists|j: int|
            0 <= j < 16 && (c == #[trigger] lower_hex_digits()[j] as u8 || c == upper_hex_digits()[j] as u8),
{
    lemma_hex_digit_codes();
    if hex_value(c) is Some {
        let j: int = if c <= 0x39 {
            c - 0x30
        } else if c >= 0x61 {
            c - 0x61 + 10
        } else {
            c - 0x41 + 10
        };
        assert(c == lower_hex_digits()[j] as u8 || c == upper_hex_digits()[j] as u8);
    }
}

/// A `%` followed by two hexadecimal digits, in either case, decodes to the
/// byte they name, `16 * high + low`, and decoding goes on after them.
pub proof fn law_escape_decodes_to_its_byte(b: Seq<u8>, i: int, high: int, low: int, upper_high: bool, upper_low: bool)
    requires
        0 <= i,
        i + 2 < b.len(),
        0 <= high < 16,
        0 <= low < 16,
        b[i] == '%' as u8,
        b[i + 1] == (if upper_high { upper_hex_digits()[high] } else { lower_hex_digits()[high] }) as u8,
        b[i + 2] == (if upper_low { upper_hex_digits()[low] } else { lower_hex_digits()[low] }) as u8,
    ensures
        percent_decoded(b, i) == seq![(16 * high + low) as u8] + percent_decoded(b, i + 3),
        16 * high + low < 256,
{
    lemma_hex_digit_codes();
    assert(hex_pair(b[i + 1], b[i + 2]) == Some((16 * high + low) as u8));
}

fn hex_digit(c: u8) -> (r: Option<u8>)
    ensures
        r == hex_value(c),
{
    if 0x30 <= c && c <= 0x39 {
        Some(c - 0x30)
    } else if 0x61 <= c && c <= 0x66 {
        Some(c - 0x61 + 10)
    } else if 0x41 <= c && c <= 0x46 {
        Some(c - 0x41 + 10)
    } else {
        None
    }
}

fn parse_hex_pair(a: u8, b: u8) -> (r: Option<u8>)
    ensures
        r == hex_pair(a, b),
{
    if a == 0x2b {
        hex_digit(b)
    } else {
        match (hex_digit(a), hex_digit(b)) {
            (Some(x), Some(y)) => Some(x * 16 + y),
            _ => None,
        }
    }
}

/// Percent-decoding of a request path, or `None` on the inputs where the
/// decoder panics (see `percent_decoding_panics`).
pub fn percent_decode_checked(input: &str) -> (r: Option<String>)
    ensures
        percent_decoding_panics(input.spec_bytes(), 0) <==> r is None,
        r matches Some(s) ==> s@ == percent_decoded_text(input@),
{
    let b = input.as_bytes();
    let ghost bs = b@;
    let mut out: Vec<u8> = Vec::new();
    let mut i: usize = 0;
    while i < b.len()
        invariant
            i <= b@.len(),
            b@ == bs,
            bs == input.spec_bytes(),
            out@ + percent_decoded(bs, i as int) == percent_decoded(bs, 0),
            percent_decoding_panics(bs, 0) == percent_decoding_panics(bs, i as int),
        decreases b@.len() - i,
    {
        if b[i] == 0x25 && b.len() - i > 2 {
            if !(input.is_char_boundary(i + 1) && input.is_char_boundary(i + 3)) {
                return None;
            }
            match parse_hex_pair(b[i + 1], b[i + 2]) {
                Some(v) => {
                    let ghost before = out@;
                    out.push(v);
                    assert(before + percent_decoded(bs, i as int) =~= out@ + percent_decoded(
                        bs,
                        i + 3,
                    ));
                    i = i + 3;
                    continue ;
                },
                None => {},
            }
        }
        let ghost before = out@;
        out.push(b[i]);
        assert(before + percent_decoded(bs, i as int) =~= out@ + percent_decoded(bs, i + 1));
        i = i + 1;
    }
    assert(out@ =~= percent_decoded(bs, 0));
    match string_from_utf8(out) {
        Some(s) => Some(s),
        None => Some(string_from_chars(&chars_of(input))),
    }
}

/// Percent-decoding of a request path. The decoder takes the two bytes
/// after a `%` as a string slice and so panics where those are not
/// character boundaries; those inputs are left out.
pub fn percent_decode_str(input: &str) -> (r: String)
    requires
        !percent_decoding_panics(input.spec_bytes(), 0),
    ensures
        r@ == percent_decoded_text(input@),
{
    match percent_decode_checked(input) {
        Some(s) => s,
        None => String::new(),
    }
}

/// `s` without its prefix `p`, when it starts with `p`.
pub open spec fn without_prefix(s: Seq<char>, p: Seq<char>) -> Option<Seq<char>> {
    if has_prefix(s, p) {
        Some(s.skip(p.len() as int))
    } else {
        None
    }
}

/// The path a request URI names: what follows `ascdesktop://` (or
/// `ascdesktop:///`, `http://ascdesktop.localhost/`,
/// `https://ascdesktop.localhost/`), empty for any other URI, and then
/// without a leading `localhost/`.
pub open spec fn asset_path(uri: Seq<char>) -> Seq<char> {
    let p = match without_prefix(uri, "ascdesktop://"@) {
        Some(t) => t,
        None => match without_prefix(uri, "ascdesktop:///"@) {
            Some(t) => t,
            None => match without_prefix(uri, "http://ascdesktop.localhost/"@) {
                Some(t) => t,
                None => match without_prefix(uri, "https://ascdesktop.localhost/"@) {
                    Some(t) => t,
                    None => Seq::empty(),
                },
            },
        },
    };
    match without_prefix(p, "localhost/"@) {
        Some(t) => t,
        None => p,
    }
}

fn strip_prefix_chars(s: &Vec<char>, p: &str) -> (r: Option<Vec<char>>)
    ensures
        match r {
            Some(t) => without_prefix(s@, p@) == Some(t@),
            None => without_prefix(s@, p@) is None,
        },
{
    let cp = chars_of(p);
    if chars_match_at(s, &cp, 0) {
        let mut t: Vec<char> = Vec::new();
        push_chars(&mut t, s, cp.len(), s.len());
        assert(t@ =~= s@.skip(p@.len() as int));
        Some(t)
    } else {
        None
    }
}

fn ends_with_chars(s: &Vec<char>, p: &str) -> (r: bool)
    ensures
        r == has_suffix(s@, p@),
{
    let cp = chars_of(p);
    if cp.len() > s.len() {
        return false;
    }
    chars_match_at(s, &cp, s.len() - cp.len())
}

/// The path named by a request URI (see `asset_path`).
pub fn asset_path_of(uri: &str) -> (r: Vec<char>)
    ensures
        r@ == asset_path(uri@),
{
    let u = chars_of(uri);
    let p = match strip_prefix_chars(&u, "ascdesktop://") {
        Some(t) => t,
        None => match strip_prefix_chars(&u, "ascdesktop:///") {
            Some(t) => t,
            None => match strip_prefix_chars(&u, "http://ascdesktop.localhost/") {
                Some(t) => t,
                None => match strip_prefix_chars(&u, "https://ascdesktop.localhost/") {
                    Some(t) => t,
                    None => Vec::new(),
                },
            },
        },
    };
    match strip_prefix_chars(&p, "localhost/") {
        Some(t) => t,
        None => p,
    }
}

/// `s` without the copies of `c` it starts with.
pub open spec fn trim_leading(s: Seq<char>, c: char) -> Seq<char>
    decreases s.len(),
{
    if s.len() > 0 && s[0] == c {
        trim_leading(s.skip(1), c)
    } else {
        s
    }
}

fn trim_leading_chars(s: &Vec<char>, c: char) -> (r: Vec<char>)
    ensures
        r@ == trim_leading(s@, c),
{
    let mut i: usize = 0;
    assert(s@.skip(0) =~= s@);
    while i < s.len() && s[i] == c
        invariant
            i <= s@.len(),
            trim_leading(s@.skip(i as int), c) == trim_leading(s@, c),
        decreases s@.len() - i,
    {
        assert(s@.skip(i as int).skip(1) =~= s@.skip(i + 1));
        i = i + 1;
    }
    let mut t: Vec<char> = Vec::new();
    push_chars(&mut t, s, i, s.len());
    assert(t@ =~= s@.skip(i as int));
    t
}

/// `str::replace`: the occurrences of `from`, found from the left without
/// overlapping, each replaced by `to`.
pub open spec fn replace_all(s: Seq<char>, from: Seq<char>, to: Seq<char>) -> Seq<char>
    decreases s.len(),
{
    if s.len() == 0 {
        s
    } else if from.len() > 0 && has_prefix(s, from) {
        to + replace_all(s.skip(from.len() as int), from, to)
    } else {
        seq![s[0]] + replace_all(s.skip(1), from, to)
    }
}

fn replace_all_chars(s: &Vec<char>, from: &str, to: &str) -> (r: Vec<char>)
    requires
        from@.len() > 0,
    ensures
        r@ == replace_all(s@, from@, to@),
{
    let cf = chars_of(from);
    let mut out: Vec<char> = Vec::new();
    let mut i: usize = 0;
    assert(s@.skip(0) =~= s@);
    while i < s.len()
        invariant
            i <= s@.len(),
            cf@ == from@,
            from@.len() > 0,
            out@ + replace_all(s@.skip(i as int), from@, to@) == replace_all(s@, from@, to@),
        decreases s@.len() - i,
    {
        let ghost rest = s@.skip(i as int);
        let ghost before = out@;
        if chars_match_at(s, &cf, i) {
            assert(rest.subrange(0, from@.len() as int) =~= s@.subrange(i as int, i + from@.len()));
            assert(rest.skip(from@.len() as int) =~= s@.skip(i + from@.len()));
            push_str_chars(&mut out, to);
            i = i + cf.len();
            assert(before + (to@ + replace_all(s@.skip(i as int), from@, to@)) =~= out@
                + replace_all(s@.skip(i as int), from@, to@));
        } else {
            assert(!has_prefix(rest, from@)) by {
                if has_prefix(rest, from@) {
                    assert(rest.subrange(0, from@.len() as int) =~= s@.subrange(
                        i as int,
                        i + from@.len(),
                    ));
                }
            }
            assert(rest.skip(1) =~= s@.skip(i + 1));
            out.push(s[i]);
            i = i + 1;
            assert(before + (seq![rest[0]] + replace_all(s@.skip(i as int), from@, to@)) =~= out@
                + replace_all(s@.skip(i as int), from@, to@));
        }
    }
    assert(s@.skip(i as int) =~= Seq::<char>::empty());
    assert(out@ + Seq::<char>::empty() =~= out@);
    out
}

/// The file a `docmedia/` request names, relative to the working directory:
/// the decoded path after `docmedia/`, from the point where an embedded
/// `ascdesktop://docmedia` (21 characters) ends when there is one, without
/// leading slashes, and with `media/media/` collapsed to `media/`.
pub open spec fn docmedia_rel_path(d: Seq<char>) -> Seq<char> {
    let raw = d.skip("docmedia/"@.len() as int);
    let inner = match find_from(raw, "ascdesktop://docmedia/"@, 0) {
        Some(pos) => raw.skip(pos + 21),
        None => raw,
    };
    replace_all(trim_leading(inner, '/'), "media/media/"@, "media/"@)
}

fn docmedia_relative(raw: &Vec<char>) -> (r: Vec<char>)
    ensures
        r@ == replace_all(
            trim_leading(
                match find_from(raw@, "ascdesktop://docmedia/"@, 0) {
                    Some(pos) => raw@.skip(pos + 21),
                    None => raw@,
                },
                '/',
            ),
            "media/media/"@,
            "media/"@,
        ),
{
    let marker = chars_of("ascdesktop://docmedia/");
    proof {
        reveal_strlit("ascdesktop://docmedia/");
        reveal_strlit("media/media/");
        lemma_find_from_bounds(raw@, marker@, 0);
    }
    let inner = match find_chars(raw, &marker, 0) {
        Some(pos) => {
            assert(pos + marker@.len() <= raw@.len());
            assert(marker@.len() == 22);
            assert(raw@.len() == raw.len());
            let mut t: Vec<char> = Vec::new();
            push_chars(&mut t, raw, pos + 21, raw.len());
            assert(t@ =~= raw@.skip(pos + 21));
            t
        },
        None => {
            let mut t: Vec<char> = Vec::new();
            push_chars(&mut t, raw, 0, raw.len());
            assert(t@ =~= raw@);
            t
        },
    };
    let trimmed = trim_leading_chars(&inner, '/');
    replace_all_chars(&trimmed, "media/media/", "media/")
}

/// The content type a `docmedia/` answer carries, by the decoded path's
/// extension.
pub open spec fn media_type(d: Seq<char>) -> Seq<char> {
    if has_suffix(d, ".png"@) {
        "image/png"@
    } else if has_suffix(d, ".jpg"@) || has_suffix(d, ".jpeg"@) {
        "image/jpeg"@
    } else if has_suffix(d, ".gif"@) {
        "image/gif"@
    } else if has_suffix(d, ".svg"@) {
        "image/svg+xml"@
    } else if has_suffix(d, ".bmp"@) {
        "image/bmp"@
    } else if has_suffix(d, ".webp"@) {
        "image/webp"@
    } else {
        "application/octet-stream"@
    }
}

fn media_content_type(d: &Vec<char>) -> (r: &'static str)
    ensures
        r@ == media_type(d@),
{
    if ends_with_chars(d, ".png") {
        "image/png"
    } else if ends_with_chars(d, ".jpg") || ends_with_chars(d, ".jpeg") {
        "image/jpeg"
    } else if ends_with_chars(d, ".gif") {
        "image/gif"
    } else if ends_with_chars(d, ".svg") {
        "image/svg+xml"
    } else if ends_with_chars(d, ".bmp") {
        "image/bmp"
    } else if ends_with_chars(d, ".webp") {
        "image/webp"
    } else {
        "application/octet-stream"
    }
}

/// The content type any other answer carries, by the decoded path's
/// extension.
pub open spec fn resource_type(d: Seq<char>) -> Seq<char> {
    if has_suffix(d, ".ttf"@) || has_suffix(d, ".otf"@) {
        "font/ttf"@
    } else if has_suffix(d, ".js"@) {
        "application/javascript"@
    } else if has_suffix(d, ".png"@) {
        "image/png"@
    } else if has_suffix(d, ".jpg"@) || has_suffix(d, ".jpeg"@) {
        "image/jpeg"@
    } else if has_suffix(d, ".gif"@) {
        "image/gif"@
    } else if has_suffix(d, ".svg"@) {
        "image/svg+xml"@
    } else if has_suffix(d, ".bmp"@) {
        "image/bmp"@
    } else if has_suffix(d, ".webp"@) {
        "image/webp"@
    } else if has_suffix(d, ".tif"@) || has_suffix(d, ".tiff"@) {
        "image/tiff"@
    } else if has_suffix(d, ".ico"@) {
        "image/x-icon"@
    } else {
        "application/octet-stream"@
    }
}

fn resource_content_type(d: &Vec<char>) -> (r: &'static str)
    ensures
        r@ == resource_type(d@),
{
    if ends_with_chars(d, ".ttf") || ends_with_chars(d, ".otf") {
        "font/ttf"
    } else if ends_with_chars(d, ".js") {
        "application/javascript"
    } else if ends_with_chars(d, ".png") {
        "image/png"
    } else if ends_with_chars(d, ".jpg") || ends_with_chars(d, ".jpeg") {
        "image/jpeg"
    } else if ends_with_chars(d, ".gif") {
        "image/gif"
    } else if ends_with_chars(d, ".svg") {
        "image/svg+xml"
    } else if ends_with_chars(d, ".bmp") {
        "image/bmp"
    } else if ends_with_chars(d, ".webp") {
        "image/webp"
    } else if ends_with_chars(d, ".tif") || ends_with_chars(d, ".tiff") {
        "image/tiff"
    } else if ends_with_chars(d, ".ico") {
        "image/x-icon"
    } else {
        "application/octet-stream"
    }
}

/// The part of `s` before its first `c`; all of `s` when it holds none.
pub open spec fn before_first(s: Seq<char>, c: char) -> Seq<char>
    decreases s.len(),
{
    if s.len() == 0 {
        s
    } else if s[0] == c {
        Seq::empty()
    } else {
        seq![s[0]] + before_first(s.skip(1), c)
    }
}

/// What `char::is_alphanumeric` answers for `c` (Unicode's Alphabetic or
/// Numeric property).
pub uninterp spec fn alphanumeric(c: char) -> bool;

/// `char::is_alphanumeric`. It depends on `c` alone, through Unicode's
/// tables, so the answer is named. Its documentation: true when the char is
/// Alphabetic or Numeric in Unicode's sense. Among the ASCII characters those
/// are the letters `A`-`Z`, `a`-`z` and the digits `0`-`9` and no other, and
/// that much is stated.
#[verifier::external_body]
fn is_alphanumeric(c: char) -> (r: bool)
    ensures
        r == alphanumeric(c),
        (c as u32) < 0x80 ==> (r <==> ('0' <= c <= '9' || 'a' <= c <= 'z' || 'A' <= c <= 'Z')),
{
    c.is_alphanumeric()
}

/// The characters a downloaded file's name keeps.
pub open spec fn name_char(c: char) -> bool {
    alphanumeric(c) || c == '.' || c == '-' || c == '_'
}

/// The name a downloaded file is stored under: the URL's last path segment
/// up to its query, with only the characters of `name_char` kept;
/// `fallback` when nothing is left.
pub open spec fn download_name(url: Seq<char>, fallback: Seq<char>) -> Seq<char> {
    let kept = before_first(after_last(url, '/'), '?').filter(|c: char| name_char(c));
    if kept.len() == 0 {
        fallback
    } else {
        kept
    }
}

fn after_last_chars(s: &Vec<char>, c: char) -> (r: Vec<char>)
    ensures
        r@ == after_last(s@, c),
{
    let mut cur: Vec<char> = Vec::new();
    let mut i: usize = 0;
    while i < s.len()
        invariant
            i <= s@.len(),
            cur@ == after_last(s@.take(i as int), c),
        decreases s@.len() - i,
    {
        assert(s@.take(i + 1).drop_last() =~= s@.take(i as int));
        if s[i] == c {
            cur = Vec::new();
        } else {
            cur.push(s[i]);
        }
        i = i + 1;
    }
    assert(s@.take(i as int) =~= s@);
    cur
}

fn before_first_chars(s: &Vec<char>, c: char) -> (r: Vec<char>)
    ensures
        r@ == before_first(s@, c),
{
    let mut out: Vec<char> = Vec::new();
    let mut i: usize = 0;
    assert(s@.skip(0) =~= s@);
    while i < s.len() && s[i] != c
        invariant
            i <= s@.len(),
            out@ == s@.take(i as int),
            out@ + before_first(s@.skip(i as int), c) == before_first(s@, c),
        decreases s@.len() - i,
    {
        let ghost rest = s@.skip(i as int);
        assert(rest.skip(1) =~= s@.skip(i + 1));
        let ghost before = out@;
        out.push(s[i]);
        i = i + 1;
        assert(before + (seq![rest[0]] + before_first(s@.skip(i as int), c)) =~= out@
            + before_first(s@.skip(i as int), c));
        assert(out@ =~= s@.take(i as int));
    }
    assert(out@ + Seq::<char>::empty() =~= out@);
    out
}

fn name_chars_of(s: &Vec<char>) -> (r: Vec<char>)
    ensures
        r@ == s@.filter(|c: char| name_char(c)),
        !r@.contains('/') && !r@.contains('\\'),
{
    let mut out: Vec<char> = Vec::new();
    let mut i: usize = 0;
    proof {
        reveal(Seq::filter);
        assert(s@.take(0) =~= Seq::<char>::empty());
    }
    while i < s.len()
        invariant
            i <= s@.len(),
            out@ == s@.take(i as int).filter(|c: char| name_char(c)),
            forall|j: int| 0 <= j < out@.len() ==> #[trigger] out@[j] != '/' && out@[j] != '\\',
        decreases s@.len() - i,
    {
        proof {
            reveal(Seq::filter);
            assert(s@.take(i + 1).drop_last() =~= s@.take(i as int));
        }
        let c = s[i];
        if is_alphanumeric(c) || c == '.' || c == '-' || c == '_' {
            out.push(c);
        }
        i = i + 1;
    }
    assert(s@.take(i as int) =~= s@);
    out
}

/// The name a file downloaded from `url` is stored under, `fallback` when
/// the URL gives none (see `download_name`).
pub fn download_file_name(url: &str, fallback: &str) -> (r: String)
    ensures
        r@ == download_name(url@, fallback@),
        r@ == fallback@ || !r@.contains('/') && !r@.contains('\\'),
{
    let u = chars_of(url);
    let segment = after_last_chars(&u, '/');
    let head = before_first_chars(&segment, '?');
    let kept = name_chars_of(&head);
    if kept.len() == 0 {
        string_from_chars(&chars_of(fallback))
    } else {
        string_from_chars(&kept)
    }
}

proof fn lemma_trim_leading(s: Seq<char>, c: char)
    ensures
        trim_leading(s, c).len() > 0 ==> trim_leading(s, c)[0] != c,
    decreases s.len(),
{
    if s.len() > 0 && s[0] == c {
        lemma_trim_leading(s.skip(1), c);
    }
}

proof fn lemma_replace_all_first(s: Seq<char>, from: Seq<char>, to: Seq<char>, c: char)
    requires
        s.len() > 0,
        s[0] != c,
        to.len() > 0,
        to[0] != c,
    ensures
        replace_all(s, from, to).len() > 0,
        replace_all(s, from, to)[0] != c,
{
}

/// The file a `docmedia/` request names is relative: its path never starts
/// with `/`, so it is looked up under the working directory.
pub proof fn law_docmedia_path_is_relative(d: Seq<char>)
    ensures
        docmedia_rel_path(d).len() > 0 ==> docmedia_rel_path(d)[0] != '/',
{
    reveal_strlit("media/");
    let raw = d.skip("docmedia/"@.len() as int);
    let inner = match find_from(raw, "ascdesktop://docmedia/"@, 0) {
        Some(pos) => raw.skip(pos + 21),
        None => raw,
    };
    let t = trim_leading(inner, '/');
    lemma_trim_leading(inner, '/');
    if t.len() > 0 {
        lemma_replace_all_first(t, "media/media/"@, "media/"@, '/');
    }
}

/// A downloaded file is stored under the fallback name, or under a name
/// that is not empty and is made of `name_char` characters only.
pub proof fn law_download_name_is_safe(url: Seq<char>, fallback: Seq<char>)
    ensures
        download_name(url, fallback) == fallback || {
            &&& download_name(url, fallback).len() > 0
            &&& forall|i: int|
                0 <= i < download_name(url, fallback).len() ==> name_char(
                    #[trigger] download_name(url, fallback)[i],
                )
        },
{
    let kept = before_first(after_last(url, '/'), '?').filter(|c: char| name_char(c));
    assert forall|i: int| 0 <= i < kept.len() implies name_char(#[trigger] kept[i]) by {
        before_first(after_last(url, '/'), '?').lemma_filter_pred(|c: char| name_char(c), i);
    }
}

/// A suffix made of a `.` and an extension holding no `.`.
pub open spec fn dot_suffix(a: Seq<char>) -> bool {
    &&& a.len() >= 2
    &&& a[0] == '.'
    &&& forall|i: int| 1 <= i < a.len() ==> #[trigger] a[i] != '.'
}

/// A text ends in at most one `.`-extension: two such suffixes of one text
/// are the same.
proof fn lemma_one_extension(d: Seq<char>, a: Seq<char>, b: Seq<char>)
    requires
        dot_suffix(a),
        dot_suffix(b),
        has_suffix(d, a),
        has_suffix(d, b),
    ensures
        a == b,
{
    let p = d.len() - a.len();
    let q = d.len() - b.len();
    assert(d.subrange(p, d.len() as int) == a);
    assert(d.subrange(q, d.len() as int) == b);
    if a.len() < b.len() {
        assert(d[p] == a[0]);
        assert(d[p] == b[p - q]);
    } else if b.len() < a.len() {
        assert(d[q] == b[0]);
        assert(d[q] == a[q - p]);
    } else {
        assert(a =~= b);
    }
}

proof fn lemma_suffix_shapes()
    ensures
        dot_suffix(seq!['.', 'b', 'm', 'p']),
        dot_suffix(seq!['.', 'g', 'i', 'f']),
        dot_suffix(seq!['.', 'i', 'c', 'o']),
        dot_suffix(seq!['.', 'j', 'p', 'e', 'g']),
        dot_suffix(seq!['.', 'j', 'p', 'g']),
        dot_suffix(seq!['.', 'j', 's']),
        dot_suffix(seq!['.', 'o', 't', 'f']),
        dot_suffix(seq!['.', 'p', 'n', 'g']),
        dot_suffix(seq!['.', 's', 'v', 'g']),
        dot_suffix(seq!['.', 't', 'i', 'f']),
        dot_suffix(seq!['.', 't', 'i', 'f', 'f']),
        dot_suffix(seq!['.', 't', 't', 'f']),
        dot_suffix(seq!['.', 'w', 'e', 'b', 'p']),
{
    assert(dot_suffix(seq!['.', 'b', 'm', 'p'])) by {
        let a = seq!['.', 'b', 'm', 'p'];
        assert forall|i: int| 1 <= i < a.len() implies #[trigger] a[i] != '.' by {
            if i == 1 {} else if i == 2 {} else if i == 3 {}
        }
    }
    assert(dot_suffix(seq!['.', 'g', 'i', 'f'])) by {
        let a = seq!['.', 'g', 'i', 'f'];
        assert forall|i: int| 1 <= i < a.len() implies #[trigger] a[i] != '.' by {
            if i == 1 {} else if i == 2 {} else if i == 3 {}
        }
    }
    assert(dot_suffix(seq!['.', 'i', 'c', 'o'])) by {
        let a = seq!['.', 'i', 'c', 'o'];
        assert forall|i: int| 1 <= i < a.len() implies #[trigger] a[i] != '.' by {
            if i == 1 {} else if i == 2 {} else if i == 3 {}
        }
    }
    assert(dot_suffix(seq!['.', 'j', 'p', 'e', 'g'])) by {
        let a = seq!['.', 'j', 'p', 'e', 'g'];
        assert forall|i: int| 1 <= i < a.len() implies #[trigger] a[i] != '.' by {
            if i == 1 {} else if i == 2 {} else if i == 3 {} else if i == 4 {}
        }
    }
    assert(dot_suffix(seq!['.', 'j', 'p', 'g'])) by {
        let a = seq!['.', 'j', 'p', 'g'];
        assert forall|i: int| 1 <= i < a.len() implies #[trigger] a[i] != '.' by {
            if i == 1 {} else if i == 2 {} else if i == 3 {}
        }
    }
    assert(dot_suffix(seq!['.', 'j', 's'])) by {
        let a = seq!['.', 'j', 's'];
        assert forall|i: int| 1 <= i < a.len() implies #[trigger] a[i] != '.' by {
            if i == 1 {} else if i == 2 {}
        }
    }
    assert(dot_suffix(seq!['.', 'o', 't', 'f'])) by {
        let a = seq!['.', 'o', 't', 'f'];
        assert forall|i: int| 1 <= i < a.len() implies #[trigger] a[i] != '.' by {
            if i == 1 {} else if i == 2 {} else if i == 3 {}
        }
    }
    assert(dot_suffix(seq!['.', 'p', 'n', 'g'])) by {
        let a = seq!['.', 'p', 'n', 'g'];
        assert forall|i: int| 1 <= i < a.len() implies #[trigger] a[i] != '.' by {
            if i == 1 {} else if i == 2 {} else if i == 3 {}
        }
    }
    assert(dot_suffix(seq!['.', 's', 'v', 'g'])) by {
        let a = seq!['.', 's', 'v', 'g'];
        assert forall|i: int| 1 <= i < a.len() implies #[trigger] a[i] != '.' by {
            if i == 1 {} else if i == 2 {} else if i == 3 {}
        }
    }
    assert(dot_suffix(seq!['.', 't', 'i', 'f'])) by {
        let a = seq!['.', 't', 'i', 'f'];
        assert forall|i: int| 1 <= i < a.len() implies #[trigger] a[i] != '.' by {
            if i == 1 {} else if i == 2 {} else if i == 3 {}
        }
    }
    assert(dot_suffix(seq!['.', 't', 'i', 'f', 'f'])) by {
        let a = seq!['.', 't', 'i', 'f', 'f'];
        assert forall|i: int| 1 <= i < a.len() implies #[trigger] a[i] != '.' by {
            if i == 1 {} else if i == 2 {} else if i == 3 {} else if i == 4 {}
        }
    }
    assert(dot_suffix(seq!['.', 't', 't', 'f'])) by {
        let a = seq!['.', 't', 't', 'f'];
        assert forall|i: int| 1 <= i < a.len() implies #[trigger] a[i] != '.' by {
            if i == 1 {} else if i == 2 {} else if i == 3 {}
        }
    }
    assert(dot_suffix(seq!['.', 'w', 'e', 'b', 'p'])) by {
        let a = seq!['.', 'w', 'e', 'b', 'p'];
        assert forall|i: int| 1 <= i < a.len() implies #[trigger] a[i] != '.' by {
            if i == 1 {} else if i == 2 {} else if i == 3 {} else if i == 4 {}
        }
    }
}

/// The content types of document media, by extension whatever the path
/// before it: PNG `image/png`, JPEG (`.jpg`, `.jpeg`) `image/jpeg`, GIF
/// `image/gif`, SVG `image/svg+xml`, BMP `image/bmp`, WebP `image/webp`.
pub proof fn law_media_types(d: Seq<char>)
    ensures
        has_suffix(d, seq!['.', 'p', 'n', 'g']) ==> media_type(d) == seq!['i', 'm', 'a', 'g', 'e', '/', 'p', 'n', 'g'],
        has_suffix(d, seq!['.', 'j', 'p', 'g']) || has_suffix(d, seq!['.', 'j', 'p', 'e', 'g']) ==> media_type(d) == seq!['i', 'm', 'a', 'g', 'e', '/', 'j', 'p', 'e', 'g'],
        has_suffix(d, seq!['.', 'g', 'i', 'f']) ==> media_type(d) == seq!['i', 'm', 'a', 'g', 'e', '/', 'g', 'i', 'f'],
        has_suffix(d, seq!['.', 's', 'v', 'g']) ==> media_type(d) == seq!['i', 'm', 'a', 'g', 'e', '/', 's', 'v', 'g', '+', 'x', 'm', 'l'],
        has_suffix(d, seq!['.', 'b', 'm', 'p']) ==> media_type(d) == seq!['i', 'm', 'a', 'g', 'e', '/', 'b', 'm', 'p'],
        has_suffix(d, seq!['.', 'w', 'e', 'b', 'p']) ==> media_type(d) == seq!['i', 'm', 'a', 'g', 'e', '/', 'w', 'e', 'b', 'p'],
{
    lemma_suffix_shapes();
    reveal_strlit(".bmp");
    assert(".bmp"@ =~= seq!['.', 'b', 'm', 'p']);
    reveal_strlit(".gif");
    assert(".gif"@ =~= seq!['.', 'g', 'i', 'f']);
    reveal_strlit(".jpeg");
    assert(".jpeg"@ =~= seq!['.', 'j', 'p', 'e', 'g']);
    reveal_strlit(".jpg");
    assert(".jpg"@ =~= seq!['.', 'j', 'p', 'g']);
    reveal_strlit(".png");
    assert(".png"@ =~= seq!['.', 'p', 'n', 'g']);
    reveal_strlit(".svg");
    assert(".svg"@ =~= seq!['.', 's', 'v', 'g']);
    reveal_strlit(".webp");
    assert(".webp"@ =~= seq!['.', 'w', 'e', 'b', 'p']);
    reveal_strlit("image/png");
    assert("image/png"@ =~= seq!['i', 'm', 'a', 'g', 'e', '/', 'p', 'n', 'g']);
    reveal_strlit("image/jpeg");
    assert("image/jpeg"@ =~= seq!['i', 'm', 'a', 'g', 'e', '/', 'j', 'p', 'e', 'g']);
    reveal_strlit("image/gif");
    assert("image/gif"@ =~= seq!['i', 'm', 'a', 'g', 'e', '/', 'g', 'i', 'f']);
    reveal_strlit("image/svg+xml");
    assert("image/svg+xml"@ =~= seq!['i', 'm', 'a', 'g', 'e', '/', 's', 'v', 'g', '+', 'x', 'm', 'l']);
    reveal_strlit("image/bmp");
    assert("image/bmp"@ =~= seq!['i', 'm', 'a', 'g', 'e', '/', 'b', 'm', 'p']);
    reveal_strlit("image/webp");
    assert("image/webp"@ =~= seq!['i', 'm', 'a', 'g', 'e', '/', 'w', 'e', 'b', 'p']);
    if has_suffix(d, seq!['.', 'p', 'n', 'g']) && has_suffix(d, seq!['.', 'j', 'p', 'g']) {
        lemma_one_extension(d, seq!['.', 'p', 'n', 'g'], seq!['.', 'j', 'p', 'g']);
        assert(seq!['.', 'p', 'n', 'g'][1] != seq!['.', 'j', 'p', 'g'][1]);
    }
    if has_suffix(d, seq!['.', 'p', 'n', 'g']) && has_suffix(d, seq!['.', 'j', 'p', 'e', 'g']) {
        lemma_one_extension(d, seq!['.', 'p', 'n', 'g'], seq!['.', 'j', 'p', 'e', 'g']);
        assert(seq!['.', 'p', 'n', 'g'].len() != seq!['.', 'j', 'p', 'e', 'g'].len());
    }
    if has_suffix(d, seq!['.', 'p', 'n', 'g']) && has_suffix(d, seq!['.', 'g', 'i', 'f']) {
        lemma_one_extension(d, seq!['.', 'p', 'n', 'g'], seq!['.', 'g', 'i', 'f']);
        assert(seq!['.', 'p', 'n', 'g'][1] != seq!['.', 'g', 'i', 'f'][1]);
    }
    if has_suffix(d, seq!['.', 'p', 'n', 'g']) && has_suffix(d, seq!['.', 's', 'v', 'g']) {
        lemma_one_extension(d, seq!['.', 'p', 'n', 'g'], seq!['.', 's', 'v', 'g']);
        assert(seq!['.', 'p', 'n', 'g'][1] != seq!['.', 's', 'v', 'g'][1]);
    }
    if has_suffix(d, seq!['.', 'p', 'n', 'g']) && has_suffix(d, seq!['.', 'b', 'm', 'p']) {
        lemma_one_extension(d, seq!['.', 'p', 'n', 'g'], seq!['.', 'b', 'm', 'p']);
        assert(seq!['.', 'p', 'n', 'g'][1] != seq!['.', 'b', 'm', 'p'][1]);
    }
    if has_suffix(d, seq!['.', 'p', 'n', 'g']) && has_suffix(d, seq!['.', 'w', 'e', 'b', 'p']) {
        lemma_one_extension(d, seq!['.', 'p', 'n', 'g'], seq!['.', 'w', 'e', 'b', 'p']);
        assert(seq!['.', 'p', 'n', 'g'].len() != seq!['.', 'w', 'e', 'b', 'p'].len());
    }
    if has_suffix(d, seq!['.', 'j', 'p', 'g']) && has_suffix(d, seq!['.', 'j', 'p', 'e', 'g']) {
        lemma_one_extension(d, seq!['.', 'j', 'p', 'g'], seq!['.', 'j', 'p', 'e', 'g']);
        assert(seq!['.', 'j', 'p', 'g'].len() != seq!['.', 'j', 'p', 'e', 'g'].len());
    }
    if has_suffix(d, seq!['.', 'j', 'p', 'g']) && has_suffix(d, seq!['.', 'g', 'i', 'f']) {
        lemma_one_extension(d, seq!['.', 'j', 'p', 'g'], seq!['.', 'g', 'i', 'f']);
        assert(seq!['.', 'j', 'p', 'g'][1] != seq!['.', 'g', 'i', 'f'][1]);
    }
    if has_suffix(d, seq!['.', 'j', 'p', 'g']) && has_suffix(d, seq!['.', 's', 'v', 'g']) {
        lemma_one_extension(d, seq!['.', 'j', 'p', 'g'], seq!['.', 's', 'v', 'g']);
        assert(seq!['.', 'j', 'p', 'g'][1] != seq!['.', 's', 'v', 'g'][1]);
    }
    if has_suffix(d, seq!['.', 'j', 'p', 'g']) && has_suffix(d, seq!['.', 'b', 'm', 'p']) {
        lemma_one_extension(d, seq!['.', 'j', 'p', 'g'], seq!['.', 'b', 'm', 'p']);
        assert(seq!['.', 'j', 'p', 'g'][1] != seq!['.', 'b', 'm', 'p'][1]);
    }
    if has_suffix(d, seq!['.', 'j', 'p', 'g']) && has_suffix(d, seq!['.', 'w', 'e', 'b', 'p']) {
        lemma_one_extension(d, seq!['.', 'j', 'p', 'g'], seq!['.', 'w', 'e', 'b', 'p']);
        assert(seq!['.', 'j', 'p', 'g'].len() != seq!['.', 'w', 'e', 'b', 'p'].len());
    }
    if has_suffix(d, seq!['.', 'j', 'p', 'e', 'g']) && has_suffix(d, seq!['.', 'g', 'i', 'f']) {
        lemma_one_extension(d, seq!['.', 'j', 'p', 'e', 'g'], seq!['.', 'g', 'i', 'f']);
        assert(seq!['.', 'j', 'p', 'e', 'g'].len() != seq!['.', 'g', 'i', 'f'].len());
    }
    if has_suffix(d, seq!['.', 'j', 'p', 'e', 'g']) && has_suffix(d, seq!['.', 's', 'v', 'g']) {
        lemma_one_extension(d, seq!['.', 'j', 'p', 'e', 'g'], seq!['.', 's', 'v', 'g']);
        assert(seq!['.', 'j', 'p', 'e', 'g'].len() != seq!['.', 's', 'v', 'g'].len());
    }
    if has_suffix(d, seq!['.', 'j', 'p', 'e', 'g']) && has_suffix(d, seq!['.', 'b', 'm', 'p']) {
        lemma_one_extension(d, seq!['.', 'j', 'p', 'e', 'g'], seq!['.', 'b', 'm', 'p']);
        assert(seq!['.', 'j', 'p', 'e', 'g'].len() != seq!['.', 'b', 'm', 'p'].len());
    }
    if has_suffix(d, seq!['.', 'j', 'p', 'e', 'g']) && has_suffix(d, seq!['.', 'w', 'e', 'b', 'p']) {
        lemma_one_extension(d, seq!['.', 'j', 'p', 'e', 'g'], seq!['.', 'w', 'e', 'b', 'p']);
        assert(seq!['.', 'j', 'p', 'e', 'g'][1] != seq!['.', 'w', 'e', 'b', 'p'][1]);
    }
    if has_suffix(d, seq!['.', 'g', 'i', 'f']) && has_suffix(d, seq!['.', 's', 'v', 'g']) {
        lemma_one_extension(d, seq!['.', 'g', 'i', 'f'], seq!['.', 's', 'v', 'g']);
        assert(seq!['.', 'g', 'i', 'f'][1] != seq!['.', 's', 'v', 'g'][1]);
    }
    if has_suffix(d, seq!['.', 'g', 'i', 'f']) && has_suffix(d, seq!['.', 'b', 'm', 'p']) {
        lemma_one_extension(d, seq!['.', 'g', 'i', 'f'], seq!['.', 'b', 'm', 'p']);
        assert(seq!['.', 'g', 'i', 'f'][1] != seq!['.', 'b', 'm', 'p'][1]);
    }
    if has_suffix(d, seq!['.', 'g', 'i', 'f']) && has_suffix(d, seq!['.', 'w', 'e', 'b', 'p']) {
        lemma_one_extension(d, seq!['.', 'g', 'i', 'f'], seq!['.', 'w', 'e', 'b', 'p']);
        assert(seq!['.', 'g', 'i', 'f'].len() != seq!['.', 'w', 'e', 'b', 'p'].len());
    }
    if has_suffix(d, seq!['.', 's', 'v', 'g']) && has_suffix(d, seq!['.', 'b', 'm', 'p']) {
        lemma_one_extension(d, seq!['.', 's', 'v', 'g'], seq!['.', 'b', 'm', 'p']);
        assert(seq!['.', 's', 'v', 'g'][1] != seq!['.', 'b', 'm', 'p'][1]);
    }
    if has_suffix(d, seq!['.', 's', 'v', 'g']) && has_suffix(d, seq!['.', 'w', 'e', 'b', 'p']) {
        lemma_one_extension(d, seq!['.', 's', 'v', 'g'], seq!['.', 'w', 'e', 'b', 'p']);
        assert(seq!['.', 's', 'v', 'g'].len() != seq!['.', 'w', 'e', 'b', 'p'].len());
    }
    if has_suffix(d, seq!['.', 'b', 'm', 'p']) && has_suffix(d, seq!['.', 'w', 'e', 'b', 'p']) {
        lemma_one_extension(d, seq!['.', 'b', 'm', 'p'], seq!['.', 'w', 'e', 'b', 'p']);
        assert(seq!['.', 'b', 'm', 'p'].len() != seq!['.', 'w', 'e', 'b', 'p'].len());
    }
}

/// The content types of every other answer, by extension whatever the path
/// before it: fonts (`.ttf`, `.otf`) `font/ttf`, scripts `application/javascript`,
/// and the images as for document media, plus TIFF (`.tif`, `.tiff`)
/// `image/tiff` and icons `image/x-icon`.
pub proof fn law_resource_types(d: Seq<char>)
    ensures
        has_suffix(d, seq!['.', 't', 't', 'f']) || has_suffix(d, seq!['.', 'o', 't', 'f']) ==> resource_type(d) == seq!['f', 'o', 'n', 't', '/', 't', 't', 'f'],
        has_suffix(d, seq!['.', 'j', 's']) ==> resource_type(d) == seq!['a', 'p', 'p', 'l', 'i', 'c', 'a', 't', 'i', 'o', 'n', '/', 'j', 'a', 'v', 'a', 's', 'c', 'r', 'i', 'p', 't'],
        has_suffix(d, seq!['.', 'p', 'n', 'g']) ==> resource_type(d) == seq!['i', 'm', 'a', 'g', 'e', '/', 'p', 'n', 'g'],
        has_suffix(d, seq!['.', 'j', 'p', 'g']) || has_suffix(d, seq!['.', 'j', 'p', 'e', 'g']) ==> resource_type(d) == seq!['i', 'm', 'a', 'g', 'e', '/', 'j', 'p', 'e', 'g'],
        has_suffix(d, seq!['.', 'g', 'i', 'f']) ==> resource_type(d) == seq!['i', 'm', 'a', 'g', 'e', '/', 'g', 'i', 'f'],
        has_suffix(d, seq!['.', 's', 'v', 'g']) ==> resource_type(d) == seq!['i', 'm', 'a', 'g', 'e', '/', 's', 'v', 'g', '+', 'x', 'm', 'l'],
        has_suffix(d, seq!['.', 'b', 'm', 'p']) ==> resource_type(d) == seq!['i', 'm', 'a', 'g', 'e', '/', 'b', 'm', 'p'],
        has_suffix(d, seq!['.', 'w', 'e', 'b', 'p']) ==> resource_type(d) == seq!['i', 'm', 'a', 'g', 'e', '/', 'w', 'e', 'b', 'p'],
        has_suffix(d, seq!['.', 't', 'i', 'f']) || has_suffix(d, seq!['.', 't', 'i', 'f', 'f']) ==> resource_type(d) == seq!['i', 'm', 'a', 'g', 'e', '/', 't', 'i', 'f', 'f'],
        has_suffix(d, seq!['.', 'i', 'c', 'o']) ==> resource_type(d) == seq!['i', 'm', 'a', 'g', 'e', '/', 'x', '-', 'i', 'c', 'o', 'n'],
{
    lemma_suffix_shapes();
    reveal_strlit(".bmp");
    assert(".bmp"@ =~= seq!['.', 'b', 'm', 'p']);
    reveal_strlit(".gif");
    assert(".gif"@ =~= seq!['.', 'g', 'i', 'f']);
    reveal_strlit(".ico");
    assert(".ico"@ =~= seq!['.', 'i', 'c', 'o']);
    reveal_strlit(".jpeg");
    assert(".jpeg"@ =~= seq!['.', 'j', 'p', 'e', 'g']);
    reveal_strlit(".jpg");
    assert(".jpg"@ =~= seq!['.', 'j', 'p', 'g']);
    reveal_strlit(".js");
    assert(".js"@ =~= seq!['.', 'j', 's']);
    reveal_strlit(".otf");
    assert(".otf"@ =~= seq!['.', 'o', 't', 'f']);
    reveal_strlit(".png");
    assert(".png"@ =~= seq!['.', 'p', 'n', 'g']);
    reveal_strlit(".svg");
    assert(".svg"@ =~= seq!['.', 's', 'v', 'g']);
    reveal_strlit(".tif");
    assert(".tif"@ =~= seq!['.', 't', 'i', 'f']);
    reveal_strlit(".tiff");
    assert(".tiff"@ =~= seq!['.', 't', 'i', 'f', 'f']);
    reveal_strlit(".ttf");
    assert(".ttf"@ =~= seq!['.', 't', 't', 'f']);
    reveal_strlit(".webp");
    assert(".webp"@ =~= seq!['.', 'w', 'e', 'b', 'p']);
    reveal_strlit("font/ttf");
    assert("font/ttf"@ =~= seq!['f', 'o', 'n', 't', '/', 't', 't', 'f']);
    reveal_strlit("application/javascript");
    assert("application/javascript"@ =~= seq!['a', 'p', 'p', 'l', 'i', 'c', 'a', 't', 'i', 'o', 'n', '/', 'j', 'a', 'v', 'a', 's', 'c', 'r', 'i', 'p', 't']);
    reveal_strlit("image/png");
    assert("image/png"@ =~= seq!['i', 'm', 'a', 'g', 'e', '/', 'p', 'n', 'g']);
    reveal_strlit("image/jpeg");
    assert("image/jpeg"@ =~= seq!['i', 'm', 'a', 'g', 'e', '/', 'j', 'p', 'e', 'g']);
    reveal_strlit("image/gif");
    assert("image/gif"@ =~= seq!['i', 'm', 'a', 'g', 'e', '/', 'g', 'i', 'f']);
    reveal_strlit("image/svg+xml");
    assert("image/svg+xml"@ =~= seq!['i', 'm', 'a', 'g', 'e', '/', 's', 'v', 'g', '+', 'x', 'm', 'l']);
    reveal_strlit("image/bmp");
    assert("image/bmp"@ =~= seq!['i', 'm', 'a', 'g', 'e', '/', 'b', 'm', 'p']);
    reveal_strlit("image/webp");
    assert("image/webp"@ =~= seq!['i', 'm', 'a', 'g', 'e', '/', 'w', 'e', 'b', 'p']);
    reveal_strlit("image/tiff");
    assert("image/tiff"@ =~= seq!['i', 'm', 'a', 'g', 'e', '/', 't', 'i', 'f', 'f']);
    reveal_strlit("image/x-icon");
    assert("image/x-icon"@ =~= seq!['i', 'm', 'a', 'g', 'e', '/', 'x', '-', 'i', 'c', 'o', 'n']);
    if has_suffix(d, seq!['.', 't', 't', 'f']) && has_suffix(d, seq!['.', 'o', 't', 'f']) {
        lemma_one_extension(d, seq!['.', 't', 't', 'f'], seq!['.', 'o', 't', 'f']);
        assert(seq!['.', 't', 't', 'f'][1] != seq!['.', 'o', 't', 'f'][1]);
    }
    if has_suffix(d, seq!['.', 't', 't', 'f']) && has_suffix(d, seq!['.', 'j', 's']) {
        lemma_one_extension(d, seq!['.', 't', 't', 'f'], seq!['.', 'j', 's']);
        assert(seq!['.', 't', 't', 'f'].len() != seq!['.', 'j', 's'].len());
    }
    if has_suffix(d, seq!['.', 't', 't', 'f']) && has_suffix(d, seq!['.', 'p', 'n', 'g']) {
        lemma_one_extension(d, seq!['.', 't', 't', 'f'], seq!['.', 'p', 'n', 'g']);
        assert(seq!['.', 't', 't', 'f'][1] != seq!['.', 'p', 'n', 'g'][1]);
    }
    if has_suffix(d, seq!['.', 't', 't', 'f']) && has_suffix(d, seq!['.', 'j', 'p', 'g']) {
        lemma_one_extension(d, seq!['.', 't', 't', 'f'], seq!['.', 'j', 'p', 'g']);
        assert(seq!['.', 't', 't', 'f'][1] != seq!['.', 'j', 'p', 'g'][1]);
    }
    if has_suffix(d, seq!['.', 't', 't', 'f']) && has_suffix(d, seq!['.', 'j', 'p', 'e', 'g']) {
        lemma_one_extension(d, seq!['.', 't', 't', 'f'], seq!['.', 'j', 'p', 'e', 'g']);
        assert(seq!['.', 't', 't', 'f'].len() != seq!['.', 'j', 'p', 'e', 'g'].len());
    }
    if has_suffix(d, seq!['.', 't', 't', 'f']) && has_suffix(d, seq!['.', 'g', 'i', 'f']) {
        lemma_one_extension(d, seq!['.', 't', 't', 'f'], seq!['.', 'g', 'i', 'f']);
        assert(seq!['.', 't', 't', 'f'][1] != seq!['.', 'g', 'i', 'f'][1]);
    }
    if has_suffix(d, seq!['.', 't', 't', 'f']) && has_suffix(d, seq!['.', 's', 'v', 'g']) {
        lemma_one_extension(d, seq!['.', 't', 't', 'f'], seq!['.', 's', 'v', 'g']);
        assert(seq!['.', 't', 't', 'f'][1] != seq!['.', 's', 'v', 'g'][1]);
    }
    if has_suffix(d, seq!['.', 't', 't', 'f']) && has_suffix(d, seq!['.', 'b', 'm', 'p']) {
        lemma_one_extension(d, seq!['.', 't', 't', 'f'], seq!['.', 'b', 'm', 'p']);
        assert(seq!['.', 't', 't', 'f'][1] != seq!['.', 'b', 'm', 'p'][1]);
    }
    if has_suffix(d, seq!['.', 't', 't', 'f']) && has_suffix(d, seq!['.', 'w', 'e', 'b', 'p']) {
        lemma_one_extension(d, seq!['.', 't', 't', 'f'], seq!['.', 'w', 'e', 'b', 'p']);
        assert(seq!['.', 't', 't', 'f'].len() != seq!['.', 'w', 'e', 'b', 'p'].len());
    }
    if has_suffix(d, seq!['.', 't', 't', 'f']) && has_suffix(d, seq!['.', 't', 'i', 'f']) {
        lemma_one_extension(d, seq!['.', 't', 't', 'f'], seq!['.', 't', 'i', 'f']);
        assert(seq!['.', 't', 't', 'f'][2] != seq!['.', 't', 'i', 'f'][2]);
    }
    if has_suffix(d, seq!['.', 't', 't', 'f']) && has_suffix(d, seq!['.', 't', 'i', 'f', 'f']) {
        lemma_one_extension(d, seq!['.', 't', 't', 'f'], seq!['.', 't', 'i', 'f', 'f']);
        assert(seq!['.', 't', 't', 'f'].len() != seq!['.', 't', 'i', 'f', 'f'].len());
    }
    if has_suffix(d, seq!['.', 't', 't', 'f']) && has_suffix(d, seq!['.', 'i', 'c', 'o']) {
        lemma_one_extension(d, seq!['.', 't', 't', 'f'], seq!['.', 'i', 'c', 'o']);
        assert(seq!['.', 't', 't', 'f'][1] != seq!['.', 'i', 'c', 'o'][1]);
    }
    if has_suffix(d, seq!['.', 'o', 't', 'f']) && has_suffix(d, seq!['.', 'j', 's']) {
        lemma_one_extension(d, seq!['.', 'o', 't', 'f'], seq!['.', 'j', 's']);
        assert(seq!['.', 'o', 't', 'f'].len() != seq!['.', 'j', 's'].len());
    }
    if has_suffix(d, seq!['.', 'o', 't', 'f']) && has_suffix(d, seq!['.', 'p', 'n', 'g']) {
        lemma_one_extension(d, seq!['.', 'o', 't', 'f'], seq!['.', 'p', 'n', 'g']);
        assert(seq!['.', 'o', 't', 'f'][1] != seq!['.', 'p', 'n', 'g'][1]);
    }
    if has_suffix(d, seq!['.', 'o', 't', 'f']) && has_suffix(d, seq!['.', 'j', 'p', 'g']) {
        lemma_one_extension(d, seq!['.', 'o', 't', 'f'], seq!['.', 'j', 'p', 'g']);
        assert(seq!['.', 'o', 't', 'f'][1] != seq!['.', 'j', 'p', 'g'][1]);
    }
    if has_suffix(d, seq!['.', 'o', 't', 'f']) && has_suffix(d, seq!['.', 'j', 'p', 'e', 'g']) {
        lemma_one_extension(d, seq!['.', 'o', 't', 'f'], seq!['.', 'j', 'p', 'e', 'g']);
        assert(seq!['.', 'o', 't', 'f'].len() != seq!['.', 'j', 'p', 'e', 'g'].len());
    }
    if has_suffix(d, seq!['.', 'o', 't', 'f']) && has_suffix(d, seq!['.', 'g', 'i', 'f']) {
        lemma_one_extension(d, seq!['.', 'o', 't', 'f'], seq!['.', 'g', 'i', 'f']);
        assert(seq!['.', 'o', 't', 'f'][1] != seq!['.', 'g', 'i', 'f'][1]);
    }
    if has_suffix(d, seq!['.', 'o', 't', 'f']) && has_suffix(d, seq!['.', 's', 'v', 'g']) {
        lemma_one_extension(d, seq!['.', 'o', 't', 'f'], seq!['.', 's', 'v', 'g']);
        assert(seq!['.', 'o', 't', 'f'][1] != seq!['.', 's', 'v', 'g'][1]);
    }
    if has_suffix(d, seq!['.', 'o', 't', 'f']) && has_suffix(d, seq!['.', 'b', 'm', 'p']) {
        lemma_one_extension(d, seq!['.', 'o', 't', 'f'], seq!['.', 'b', 'm', 'p']);
        assert(seq!['.', 'o', 't', 'f'][1] != seq!['.', 'b', 'm', 'p'][1]);
    }
    if has_suffix(d, seq!['.', 'o', 't', 'f']) && has_suffix(d, seq!['.', 'w', 'e', 'b', 'p']) {
        lemma_one_extension(d, seq!['.', 'o', 't', 'f'], seq!['.', 'w', 'e', 'b', 'p']);
        assert(seq!['.', 'o', 't', 'f'].len() != seq!['.', 'w', 'e', 'b', 'p'].len());
    }
    if has_suffix(d, seq!['.', 'o', 't', 'f']) && has_suffix(d, seq!['.', 't', 'i', 'f']) {
        lemma_one_extension(d, seq!['.', 'o', 't', 'f'], seq!['.', 't', 'i', 'f']);
        assert(seq!['.', 'o', 't', 'f'][1] != seq!['.', 't', 'i', 'f'][1]);
    }
    if has_suffix(d, seq!['.', 'o', 't', 'f']) && has_suffix(d, seq!['.', 't', 'i', 'f', 'f']) {
        lemma_one_extension(d, seq!['.', 'o', 't', 'f'], seq!['.', 't', 'i', 'f', 'f']);
        assert(seq!['.', 'o', 't', 'f'].len() != seq!['.', 't', 'i', 'f', 'f'].len());
    }
    if has_suffix(d, seq!['.', 'o', 't', 'f']) && has_suffix(d, seq!['.', 'i', 'c', 'o']) {
        lemma_one_extension(d, seq!['.', 'o', 't', 'f'], seq!['.', 'i', 'c', 'o']);
        assert(seq!['.', 'o', 't', 'f'][1] != seq!['.', 'i', 'c', 'o'][1]);
    }
    if has_suffix(d, seq!['.', 'j', 's']) && has_suffix(d, seq!['.', 'p', 'n', 'g']) {
        lemma_one_extension(d, seq!['.', 'j', 's'], seq!['.', 'p', 'n', 'g']);
        assert(seq!['.', 'j', 's'].len() != seq!['.', 'p', 'n', 'g'].len());
    }
    if has_suffix(d, seq!['.', 'j', 's']) && has_suffix(d, seq!['.', 'j', 'p', 'g']) {
        lemma_one_extension(d, seq!['.', 'j', 's'], seq!['.', 'j', 'p', 'g']);
        assert(seq!['.', 'j', 's'].len() != seq!['.', 'j', 'p', 'g'].len());
    }
    if has_suffix(d, seq!['.', 'j', 's']) && has_suffix(d, seq!['.', 'j', 'p', 'e', 'g']) {
        lemma_one_extension(d, seq!['.', 'j', 's'], seq!['.', 'j', 'p', 'e', 'g']);
        assert(seq!['.', 'j', 's'].len() != seq!['.', 'j', 'p', 'e', 'g'].len());
    }
    if has_suffix(d, seq!['.', 'j', 's']) && has_suffix(d, seq!['.', 'g', 'i', 'f']) {
        lemma_one_extension(d, seq!['.', 'j', 's'], seq!['.', 'g', 'i', 'f']);
        assert(seq!['.', 'j', 's'].len() != seq!['.', 'g', 'i', 'f'].len());
    }
    if has_suffix(d, seq!['.', 'j', 's']) && has_suffix(d, seq!['.', 's', 'v', 'g']) {
        lemma_one_extension(d, seq!['.', 'j', 's'], seq!['.', 's', 'v', 'g']);
        assert(seq!['.', 'j', 's'].len() != seq!['.', 's', 'v', 'g'].len());
    }
    if has_suffix(d, seq!['.', 'j', 's']) && has_suffix(d, seq!['.', 'b', 'm', 'p']) {
        lemma_one_extension(d, seq!['.', 'j', 's'], seq!['.', 'b', 'm', 'p']);
        assert(seq!['.', 'j', 's'].len() != seq!['.', 'b', 'm', 'p'].len());
    }
    if has_suffix(d, seq!['.', 'j', 's']) && has_suffix(d, seq!['.', 'w', 'e', 'b', 'p']) {
        lemma_one_extension(d, seq!['.', 'j', 's'], seq!['.', 'w', 'e', 'b', 'p']);
        assert(seq!['.', 'j', 's'].len() != seq!['.', 'w', 'e', 'b', 'p'].len());
    }
    if has_suffix(d, seq!['.', 'j', 's']) && has_suffix(d, seq!['.', 't', 'i', 'f']) {
        lemma_one_extension(d, seq!['.', 'j', 's'], seq!['.', 't', 'i', 'f']);
        assert(seq!['.', 'j', 's'].len() != seq!['.', 't', 'i', 'f'].len());
    }
    if has_suffix(d, seq!['.', 'j', 's']) && has_suffix(d, seq!['.', 't', 'i', 'f', 'f']) {
        lemma_one_extension(d, seq!['.', 'j', 's'], seq!['.', 't', 'i', 'f', 'f']);
        assert(seq!['.', 'j', 's'].len() != seq!['.', 't', 'i', 'f', 'f'].len());
    }
    if has_suffix(d, seq!['.', 'j', 's']) && has_suffix(d, seq!['.', 'i', 'c', 'o']) {
        lemma_one_extension(d, seq!['.', 'j', 's'], seq!['.', 'i', 'c', 'o']);
        assert(seq!['.', 'j', 's'].len() != seq!['.', 'i', 'c', 'o'].len());
    }
    if has_suffix(d, seq!['.', 'p', 'n', 'g']) && has_suffix(d, seq!['.', 'j', 'p', 'g']) {
        lemma_one_extension(d, seq!['.', 'p', 'n', 'g'], seq!['.', 'j', 'p', 'g']);
        assert(seq!['.', 'p', 'n', 'g'][1] != seq!['.', 'j', 'p', 'g'][1]);
    }
    if has_suffix(d, seq!['.', 'p', 'n', 'g']) && has_suffix(d, seq!['.', 'j', 'p', 'e', 'g']) {
        lemma_one_extension(d, seq!['.', 'p', 'n', 'g'], seq!['.', 'j', 'p', 'e', 'g']);
        assert(seq!['.', 'p', 'n', 'g'].len() != seq!['.', 'j', 'p', 'e', 'g'].len());
    }
    if has_suffix(d, seq!['.', 'p', 'n', 'g']) && has_suffix(d, seq!['.', 'g', 'i', 'f']) {
        lemma_one_extension(d, seq!['.', 'p', 'n', 'g'], seq!['.', 'g', 'i', 'f']);
        assert(seq!['.', 'p', 'n', 'g'][1] != seq!['.', 'g', 'i', 'f'][1]);
    }
    if has_suffix(d, seq!['.', 'p', 'n', 'g']) && has_suffix(d, seq!['.', 's', 'v', 'g']) {
        lemma_one_extension(d, seq!['.', 'p', 'n', 'g'], seq!['.', 's', 'v', 'g']);
        assert(seq!['.', 'p', 'n', 'g'][1] != seq!['.', 's', 'v', 'g'][1]);
    }
    if has_suffix(d, seq!['.', 'p', 'n', 'g']) && has_suffix(d, seq!['.', 'b', 'm', 'p']) {
        lemma_one_extension(d, seq!['.', 'p', 'n', 'g'], seq!['.', 'b', 'm', 'p']);
        assert(seq!['.', 'p', 'n', 'g'][1] != seq!['.', 'b', 'm', 'p'][1]);
    }
    if has_suffix(d, seq!['.', 'p', 'n', 'g']) && has_suffix(d, seq!['.', 'w', 'e', 'b', 'p']) {
        lemma_one_extension(d, seq!['.', 'p', 'n', 'g'], seq!['.', 'w', 'e', 'b', 'p']);
        assert(seq!['.', 'p', 'n', 'g'].len() != seq!['.', 'w', 'e', 'b', 'p'].len());
    }
    if has_suffix(d, seq!['.', 'p', 'n', 'g']) && has_suffix(d, seq!['.', 't', 'i', 'f']) {
        lemma_one_extension(d, seq!['.', 'p', 'n', 'g'], seq!['.', 't', 'i', 'f']);
        assert(seq!['.', 'p', 'n', 'g'][1] != seq!['.', 't', 'i', 'f'][1]);
    }
    if has_suffix(d, seq!['.', 'p', 'n', 'g']) && has_suffix(d, seq!['.', 't', 'i', 'f', 'f']) {
        lemma_one_extension(d, seq!['.', 'p', 'n', 'g'], seq!['.', 't', 'i', 'f', 'f']);
        assert(seq!['.', 'p', 'n', 'g'].len() != seq!['.', 't', 'i', 'f', 'f'].len());
    }
    if has_suffix(d, seq!['.', 'p', 'n', 'g']) && has_suffix(d, seq!['.', 'i', 'c', 'o']) {
        lemma_one_extension(d, seq!['.', 'p', 'n', 'g'], seq!['.', 'i', 'c', 'o']);
        assert(seq!['.', 'p', 'n', 'g'][1] != seq!['.', 'i', 'c', 'o'][1]);
    }
    if has_suffix(d, seq!['.', 'j', 'p', 'g']) && has_suffix(d, seq!['.', 'j', 'p', 'e', 'g']) {
        lemma_one_extension(d, seq!['.', 'j', 'p', 'g'], seq!['.', 'j', 'p', 'e', 'g']);
        assert(seq!['.', 'j', 'p', 'g'].len() != seq!['.', 'j', 'p', 'e', 'g'].len());
    }
    if has_suffix(d, seq!['.', 'j', 'p', 'g']) && has_suffix(d, seq!['.', 'g', 'i', 'f']) {
        lemma_one_extension(d, seq!['.', 'j', 'p', 'g'], seq!['.', 'g', 'i', 'f']);
        assert(seq!['.', 'j', 'p', 'g'][1] != seq!['.', 'g', 'i', 'f'][1]);
    }
    if has_suffix(d, seq!['.', 'j', 'p', 'g']) && has_suffix(d, seq!['.', 's', 'v', 'g']) {
        lemma_one_extension(d, seq!['.', 'j', 'p', 'g'], seq!['.', 's', 'v', 'g']);
        assert(seq!['.', 'j', 'p', 'g'][1] != seq!['.', 's', 'v', 'g'][1]);
    }
    if has_suffix(d, seq!['.', 'j', 'p', 'g']) && has_suffix(d, seq!['.', 'b', 'm', 'p']) {
        lemma_one_extension(d, seq!['.', 'j', 'p', 'g'], seq!['.', 'b', 'm', 'p']);
        assert(seq!['.', 'j', 'p', 'g'][1] != seq!['.', 'b', 'm', 'p'][1]);
    }
    if has_suffix(d, seq!['.', 'j', 'p', 'g']) && has_suffix(d, seq!['.', 'w', 'e', 'b', 'p']) {
        lemma_one_extension(d, seq!['.', 'j', 'p', 'g'], seq!['.', 'w', 'e', 'b', 'p']);
        assert(seq!['.', 'j', 'p', 'g'].len() != seq!['.', 'w', 'e', 'b', 'p'].len());
    }
    if has_suffix(d, seq!['.', 'j', 'p', 'g']) && has_suffix(d, seq!['.', 't', 'i', 'f']) {
        lemma_one_extension(d, seq!['.', 'j', 'p', 'g'], seq!['.', 't', 'i', 'f']);
        assert(seq!['.', 'j', 'p', 'g'][1] != seq!['.', 't', 'i', 'f'][1]);
    }
    if has_suffix(d, seq!['.', 'j', 'p', 'g']) && has_suffix(d, seq!['.', 't', 'i', 'f', 'f']) {
        lemma_one_extension(d, seq!['.', 'j', 'p', 'g'], seq!['.', 't', 'i', 'f', 'f']);
        assert(seq!['.', 'j', 'p', 'g'].len() != seq!['.', 't', 'i', 'f', 'f'].len());
    }
    if has_suffix(d, seq!['.', 'j', 'p', 'g']) && has_suffix(d, seq!['.', 'i', 'c', 'o']) {
        lemma_one_extension(d, seq!['.', 'j', 'p', 'g'], seq!['.', 'i', 'c', 'o']);
        assert(seq!['.', 'j', 'p', 'g'][1] != seq!['.', 'i', 'c', 'o'][1]);
    }
    if has_suffix(d, seq!['.', 'j', 'p', 'e', 'g']) && has_suffix(d, seq!['.', 'g', 'i', 'f']) {
        lemma_one_extension(d, seq!['.', 'j', 'p', 'e', 'g'], seq!['.', 'g', 'i', 'f']);
        assert(seq!['.', 'j', 'p', 'e', 'g'].len() != seq!['.', 'g', 'i', 'f'].len());
    }
    if has_suffix(d, seq!['.', 'j', 'p', 'e', 'g']) && has_suffix(d, seq!['.', 's', 'v', 'g']) {
        lemma_one_extension(d, seq!['.', 'j', 'p', 'e', 'g'], seq!['.', 's', 'v', 'g']);
        assert(seq!['.', 'j', 'p', 'e', 'g'].len() != seq!['.', 's', 'v', 'g'].len());
    }
    if has_suffix(d, seq!['.', 'j', 'p', 'e', 'g']) && has_suffix(d, seq!['.', 'b', 'm', 'p']) {
        lemma_one_extension(d, seq!['.', 'j', 'p', 'e', 'g'], seq!['.', 'b', 'm', 'p']);
        assert(seq!['.', 'j', 'p', 'e', 'g'].len() != seq!['.', 'b', 'm', 'p'].len());
    }
    if has_suffix(d, seq!['.', 'j', 'p', 'e', 'g']) && has_suffix(d, seq!['.', 'w', 'e', 'b', 'p']) {
        lemma_one_extension(d, seq!['.', 'j', 'p', 'e', 'g'], seq!['.', 'w', 'e', 'b', 'p']);
        assert(seq!['.', 'j', 'p', 'e', 'g'][1] != seq!['.', 'w', 'e', 'b', 'p'][1]);
    }
    if has_suffix(d, seq!['.', 'j', 'p', 'e', 'g']) && has_suffix(d, seq!['.', 't', 'i', 'f']) {
        lemma_one_extension(d, seq!['.', 'j', 'p', 'e', 'g'], seq!['.', 't', 'i', 'f']);
        assert(seq!['.', 'j', 'p', 'e', 'g'].len() != seq!['.', 't', 'i', 'f'].len());
    }
    if has_suffix(d, seq!['.', 'j', 'p', 'e', 'g']) && has_suffix(d, seq!['.', 't', 'i', 'f', 'f']) {
        lemma_one_extension(d, seq!['.', 'j', 'p', 'e', 'g'], seq!['.', 't', 'i', 'f', 'f']);
        assert(seq!['.', 'j', 'p', 'e', 'g'][1] != seq!['.', 't', 'i', 'f', 'f'][1]);
    }
    if has_suffix(d, seq!['.', 'j', 'p', 'e', 'g']) && has_suffix(d, seq!['.', 'i', 'c', 'o']) {
        lemma_one_extension(d, seq!['.', 'j', 'p', 'e', 'g'], seq!['.', 'i', 'c', 'o']);
        assert(seq!['.', 'j', 'p', 'e', 'g'].len() != seq!['.', 'i', 'c', 'o'].len());
    }
    if has_suffix(d, seq!['.', 'g', 'i', 'f']) && has_suffix(d, seq!['.', 's', 'v', 'g']) {
        lemma_one_extension(d, seq!['.', 'g', 'i', 'f'], seq!['.', 's', 'v', 'g']);
        assert(seq!['.', 'g', 'i', 'f'][1] != seq!['.', 's', 'v', 'g'][1]);
    }
    if has_suffix(d, seq!['.', 'g', 'i', 'f']) && has_suffix(d, seq!['.', 'b', 'm', 'p']) {
        lemma_one_extension(d, seq!['.', 'g', 'i', 'f'], seq!['.', 'b', 'm', 'p']);
        assert(seq!['.', 'g', 'i', 'f'][1] != seq!['.', 'b', 'm', 'p'][1]);
    }
    if has_suffix(d, seq!['.', 'g', 'i', 'f']) && has_suffix(d, seq!['.', 'w', 'e', 'b', 'p']) {
        lemma_one_extension(d, seq!['.', 'g', 'i', 'f'], seq!['.', 'w', 'e', 'b', 'p']);
        assert(seq!['.', 'g', 'i', 'f'].len() != seq!['.', 'w', 'e', 'b', 'p'].len());
    }
    if has_suffix(d, seq!['.', 'g', 'i', 'f']) && has_suffix(d, seq!['.', 't', 'i', 'f']) {
        lemma_one_extension(d, seq!['.', 'g', 'i', 'f'], seq!['.', 't', 'i', 'f']);
        assert(seq!['.', 'g', 'i', 'f'][1] != seq!['.', 't', 'i', 'f'][1]);
    }
    if has_suffix(d, seq!['.', 'g', 'i', 'f']) && has_suffix(d, seq!['.', 't', 'i', 'f', 'f']) {
        lemma_one_extension(d, seq!['.', 'g', 'i', 'f'], seq!['.', 't', 'i', 'f', 'f']);
        assert(seq!['.', 'g', 'i', 'f'].len() != seq!['.', 't', 'i', 'f', 'f'].len());
    }
    if has_suffix(d, seq!['.', 'g', 'i', 'f']) && has_suffix(d, seq!['.', 'i', 'c', 'o']) {
        lemma_one_extension(d, seq!['.', 'g', 'i', 'f'], seq!['.', 'i', 'c', 'o']);
        assert(seq!['.', 'g', 'i', 'f'][1] != seq!['.', 'i', 'c', 'o'][1]);
    }
    if has_suffix(d, seq!['.', 's', 'v', 'g']) && has_suffix(d, seq!['.', 'b', 'm', 'p']) {
        lemma_one_extension(d, seq!['.', 's', 'v', 'g'], seq!['.', 'b', 'm', 'p']);
        assert(seq!['.', 's', 'v', 'g'][1] != seq!['.', 'b', 'm', 'p'][1]);
    }
    if has_suffix(d, seq!['.', 's', 'v', 'g']) && has_suffix(d, seq!['.', 'w', 'e', 'b', 'p']) {
        lemma_one_extension(d, seq!['.', 's', 'v', 'g'], seq!['.', 'w', 'e', 'b', 'p']);
        assert(seq!['.', 's', 'v', 'g'].len() != seq!['.', 'w', 'e', 'b', 'p'].len());
    }
    if has_suffix(d, seq!['.', 's', 'v', 'g']) && has_suffix(d, seq!['.', 't', 'i', 'f']) {
        lemma_one_extension(d, seq!['.', 's', 'v', 'g'], seq!['.', 't', 'i', 'f']);
        assert(seq!['.', 's', 'v', 'g'][1] != seq!['.', 't', 'i', 'f'][1]);
    }
    if has_suffix(d, seq!['.', 's', 'v', 'g']) && has_suffix(d, seq!['.', 't', 'i', 'f', 'f']) {
        lemma_one_extension(d, seq!['.', 's', 'v', 'g'], seq!['.', 't', 'i', 'f', 'f']);
        assert(seq!['.', 's', 'v', 'g'].len() != seq!['.', 't', 'i', 'f', 'f'].len());
    }
    if has_suffix(d, seq!['.', 's', 'v', 'g']) && has_suffix(d, seq!['.', 'i', 'c', 'o']) {
        lemma_one_extension(d, seq!['.', 's', 'v', 'g'], seq!['.', 'i', 'c', 'o']);
        assert(seq!['.', 's', 'v', 'g'][1] != seq!['.', 'i', 'c', 'o'][1]);
    }
    if has_suffix(d, seq!['.', 'b', 'm', 'p']) && has_suffix(d, seq!['.', 'w', 'e', 'b', 'p']) {
        lemma_one_extension(d, seq!['.', 'b', 'm', 'p'], seq!['.', 'w', 'e', 'b', 'p']);
        assert(seq!['.', 'b', 'm', 'p'].len() != seq!['.', 'w', 'e', 'b', 'p'].len());
    }
    if has_suffix(d, seq!['.', 'b', 'm', 'p']) && has_suffix(d, seq!['.', 't', 'i', 'f']) {
        lemma_one_extension(d, seq!['.', 'b', 'm', 'p'], seq!['.', 't', 'i', 'f']);
        assert(seq!['.', 'b', 'm', 'p'][1] != seq!['.', 't', 'i', 'f'][1]);
    }
    if has_suffix(d, seq!['.', 'b', 'm', 'p']) && has_suffix(d, seq!['.', 't', 'i', 'f', 'f']) {
        lemma_one_extension(d, seq!['.', 'b', 'm', 'p'], seq!['.', 't', 'i', 'f', 'f']);
        assert(seq!['.', 'b', 'm', 'p'].len() != seq!['.', 't', 'i', 'f', 'f'].len());
    }
    if has_suffix(d, seq!['.', 'b', 'm', 'p']) && has_suffix(d, seq!['.', 'i', 'c', 'o']) {
        lemma_one_extension(d, seq!['.', 'b', 'm', 'p'], seq!['.', 'i', 'c', 'o']);
        assert(seq!['.', 'b', 'm', 'p'][1] != seq!['.', 'i', 'c', 'o'][1]);
    }
    if has_suffix(d, seq!['.', 'w', 'e', 'b', 'p']) && has_suffix(d, seq!['.', 't', 'i', 'f']) {
        lemma_one_extension(d, seq!['.', 'w', 'e', 'b', 'p'], seq!['.', 't', 'i', 'f']);
        assert(seq!['.', 'w', 'e', 'b', 'p'].len() != seq!['.', 't', 'i', 'f'].len());
    }
    if has_suffix(d, seq!['.', 'w', 'e', 'b', 'p']) && has_suffix(d, seq!['.', 't', 'i', 'f', 'f']) {
        lemma_one_extension(d, seq!['.', 'w', 'e', 'b', 'p'], seq!['.', 't', 'i', 'f', 'f']);
        assert(seq!['.', 'w', 'e', 'b', 'p'][1] != seq!['.', 't', 'i', 'f', 'f'][1]);
    }
    if has_suffix(d, seq!['.', 'w', 'e', 'b', 'p']) && has_suffix(d, seq!['.', 'i', 'c', 'o']) {
        lemma_one_extension(d, seq!['.', 'w', 'e', 'b', 'p'], seq!['.', 'i', 'c', 'o']);
        assert(seq!['.', 'w', 'e', 'b', 'p'].len() != seq!['.', 'i', 'c', 'o'].len());
    }
    if has_suffix(d, seq!['.', 't', 'i', 'f']) && has_suffix(d, seq!['.', 't', 'i', 'f', 'f']) {
        lemma_one_extension(d, seq!['.', 't', 'i', 'f'], seq!['.', 't', 'i', 'f', 'f']);
        assert(seq!['.', 't', 'i', 'f'].len() != seq!['.', 't', 'i', 'f', 'f'].len());
    }
    if has_suffix(d, seq!['.', 't', 'i', 'f']) && has_suffix(d, seq!['.', 'i', 'c', 'o']) {
        lemma_one_extension(d, seq!['.', 't', 'i', 'f'], seq!['.', 'i', 'c', 'o']);
        assert(seq!['.', 't', 'i', 'f'][1] != seq!['.', 'i', 'c', 'o'][1]);
    }
    if has_suffix(d, seq!['.', 't', 'i', 'f', 'f']) && has_suffix(d, seq!['.', 'i', 'c', 'o']) {
        lemma_one_extension(d, seq!['.', 't', 'i', 'f', 'f'], seq!['.', 'i', 'c', 'o']);
        assert(seq!['.', 't', 'i', 'f', 'f'].len() != seq!['.', 'i', 'c', 'o'].len());
    }
}

/// The kinds of request, told apart by the decoded path in this order.
pub enum AssetKind {
    DocMedia,
    CopyToMedia,
    DownloadToMedia,
    Absolute,
    AllFonts,
    Resource,
}

/// The kind of request a decoded path makes.
pub open spec fn asset_kind(d: Seq<char>) -> AssetKind {
    if has_prefix(d, "docmedia/"@) {
        AssetKind::DocMedia
    } else if has_prefix(d, "copy-to-media/"@) {
        AssetKind::CopyToMedia
    } else if has_prefix(d, "download-to-media/"@) {
        AssetKind::DownloadToMedia
    } else if has_prefix(d, "abs/"@) {
        AssetKind::Absolute
    } else if has_suffix(d, "sdkjs/common/AllFonts.js"@) {
        AssetKind::AllFonts
    } else {
        AssetKind::Resource
    }
}

/// What a request to the asset protocol asks for, with what the answer
/// needs: the file to read or the work to do, and the content type.
pub enum AssetRequest {
    /// A file taken out of the open document, under the working directory.
    DocMedia { rel_path: String, content_type: &'static str },
    /// Copy a local file into the working media directory; the answer is
    /// its name.
    CopyToMedia { source: String },
    /// Download a URL into the working directories under `file_name`; the
    /// answer is where it was stored.
    DownloadToMedia { url: String, file_name: String },
    /// A file by absolute path.
    Absolute { path: String, content_type: &'static str },
    /// The generated font list, or the bundled one at `resource`.
    AllFonts { resource: String, content_type: &'static str },
    /// A bundled resource at `resource`, under the resource directories.
    Resource { resource: String, content_type: &'static str },
}

/// `req` is the request that `path`, decoded to `d`, makes.
pub open spec fn request_for(req: AssetRequest, path: Seq<char>, d: Seq<char>) -> bool {
    match req {
        AssetRequest::DocMedia { rel_path, content_type } => {
            &&& asset_kind(d) == AssetKind::DocMedia
            &&& rel_path@ == docmedia_rel_path(d)
            &&& content_type@ == media_type(d)
        },
        AssetRequest::CopyToMedia { source } => {
            &&& asset_kind(d) == AssetKind::CopyToMedia
            &&& source@ == d.skip("copy-to-media/"@.len() as int)
        },
        AssetRequest::DownloadToMedia { url, file_name } => {
            &&& asset_kind(d) == AssetKind::DownloadToMedia
            &&& url@ == d.skip("download-to-media/"@.len() as int)
            &&& file_name@ == download_name(url@, "download.jpg"@)
            &&& !file_name@.contains('/') && !file_name@.contains('\\')
        },
        AssetRequest::Absolute { path: p, content_type } => {
            &&& asset_kind(d) == AssetKind::Absolute
            &&& p@ == d.skip("abs/"@.len() as int)
            &&& content_type@ == resource_type(d)
        },
        AssetRequest::AllFonts { resource, content_type } => {
            &&& asset_kind(d) == AssetKind::AllFonts
            &&& resource@ == path
            &&& content_type@ == resource_type(d)
        },
        AssetRequest::Resource { resource, content_type } => {
            &&& asset_kind(d) == AssetKind::Resource
            &&& resource@ == path
            &&& content_type@ == resource_type(d)
        },
    }
}

/// The request that `uri` makes of the asset protocol: its path is taken
/// from the URI, percent-decoded, and told apart by prefix. `None` exactly
/// where decoding the path panics (see `percent_decoding_panics`).
pub fn route_request(uri: &str) -> (r: Option<AssetRequest>)
    ensures
        r is None <==> percent_decoding_panics(encode_utf8(asset_path(uri@)), 0),
        r matches Some(req) ==> request_for(
            req,
            asset_path(uri@),
            percent_decoded_text(asset_path(uri@)),
        ),
{
    let pc = asset_path_of(uri);
    let path = string_from_chars(&pc);
    let decoded = match percent_decode_checked(path.as_str()) {
        Some(t) => t,
        None => {
            return None;
        },
    };
    let d = chars_of(decoded.as_str());
    if let Some(raw) = strip_prefix_chars(&d, "docmedia/") {
        let rel = docmedia_relative(&raw);
        return Some(
            AssetRequest::DocMedia {
                rel_path: string_from_chars(&rel),
                content_type: media_content_type(&d),
            },
        );
    }
    if let Some(source) = strip_prefix_chars(&d, "copy-to-media/") {
        return Some(AssetRequest::CopyToMedia { source: string_from_chars(&source) });
    }
    if let Some(url) = strip_prefix_chars(&d, "download-to-media/") {
        let url = string_from_chars(&url);
        let file_name = download_file_name(url.as_str(), "download.jpg");
        proof {
            reveal_strlit("download.jpg");
            if file_name@ == "download.jpg"@ {
                assert(!file_name@.contains('/')) by {
                    if file_name@.contains('/') {
                        let k = choose|k: int| 0 <= k < file_name@.len() && file_name@[k] == '/';
                        assert(file_name@[k] != '/');
                    }
                }
                assert(!file_name@.contains('\\')) by {
                    if file_name@.contains('\\') {
                        let k = choose|k: int| 0 <= k < file_name@.len() && file_name@[k] == '\\';
                        assert(file_name@[k] != '\\');
                    }
                }
            }
        }
        return Some(AssetRequest::DownloadToMedia { url, file_name });
    }
    if let Some(p) = strip_prefix_chars(&d, "abs/") {
        return Some(
            AssetRequest::Absolute {
                path: string_from_chars(&p),
                content_type: resource_content_type(&d),
            },
        );
    }
    let content_type = resource_content_type(&d);
    if ends_with_chars(&d, "sdkjs/common/AllFonts.js") {
        Some(AssetRequest::AllFonts { resource: path, content_type })
    } else {
        Some(AssetRequest::Resource { resource: path, content_type })
    }
}

} // verus!
