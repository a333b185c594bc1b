//! Strings built from bytes, and the few `str`/`char` operations of std that
//! vstd does not specify.
use vstd::prelude::*;
use vstd::utf8::*;
use vstd::string::*;
use crate::bytes::{
    find_from, i64_decimal, u64_decimal, is_ascii_bytes, lemma_ascii_valid, matches_at,
    signed_decimal,
};

verus! {

/// `String::from_utf8`. Its documentation: the conversion succeeds exactly
/// when the bytes are valid UTF-8, and the string then holds the characters
/// they encode.
#[verifier::external_body]
pub(crate) fn string_from_utf8(bytes: Vec<u8>) -> (r: Option<String>)
    ensures
        r is Some <==> valid_utf8(bytes@),
        r matches Some(s) ==> s@ == decode_utf8(bytes@),
{
    String::from_utf8(bytes).ok()
}

/// The string whose UTF-8 encoding is `bytes`.
pub fn string_of_utf8(bytes: Vec<u8>) -> (r: String)
    requires
        valid_utf8(bytes@),
    ensures
        encode_utf8(r@) == bytes@,
        r@ == decode_utf8(bytes@),
{
    let ghost b = bytes@;
    proof {
        decode_utf8_encode_utf8(b);
    }
    match string_from_utf8(bytes) {
        Some(s) => s,
        None => String::new(),
    }
}


/// The string whose characters are the ASCII bytes `bytes`.
pub fn ascii_string(bytes: Vec<u8>) -> (r: String)
    requires
        is_ascii_bytes(bytes@),
    ensures
        encode_utf8(r@) == bytes@,
{
    proof {
        lemma_ascii_valid(bytes@);
    }
    string_of_utf8(bytes)
}


/// `a` followed by `b`.
pub fn join2(a: &str, b: &str) -> (r: String)
    ensures
        r@ == a@ + b@,
{
    let mut r = String::from_str(a);
    r.append(b);
    r
}

/// `a`, `b`, `c` and `d` one after the other.
pub fn join4(a: &str, b: &str, c: &str, d: &str) -> (r: String)
    ensures
        r@ == a@ + b@ + c@ + d@,
{
    let mut r = String::from_str(a);
    r.append(b);
    r.append(c);
    r.append(d);
    r
}


/// UTF-8 encoding distributes over concatenation.
pub proof fn lemma_encode_utf8_concat(a: Seq<char>, b: Seq<char>)
    ensures
        encode_utf8(a + b) == encode_utf8(a) + encode_utf8(b),
    decreases a.len(),
{
    if a.len() == 0 {
        assert(a + b =~= b);
        assert(encode_utf8(a) =~= Seq::<u8>::empty());
        assert(encode_utf8(a) + encode_utf8(b) =~= encode_utf8(b));
    } else {
        assert((a + b).drop_first() =~= a.drop_first() + b);
        assert((a + b)[0] == a[0]);
        lemma_encode_utf8_concat(a.drop_first(), b);
        assert(encode_utf8(a + b) =~= encode_scalar(a[0] as u32) + encode_utf8(a.drop_first() + b));
        assert(encode_utf8(a) =~= encode_scalar(a[0] as u32) + encode_utf8(a.drop_first()));
    }
}

/// Appends the UTF-8 encoding of `c`.
fn push_char_utf8(out: &mut Vec<u8>, c: char)
    ensures
        final(out)@ == old(out)@ + encode_scalar(c as u32),
{
    let v = c as u32;
    proof {
        char_is_scalar(c);
    }
    if v <= 0x7f {
        out.push((v & 0x7f) as u8);
        assert(final(out)@ =~= old(out)@ + encode_scalar(v));
    } else if v <= 0x7ff {
        out.push(0xc0 | ((v >> 6) & 0x1f) as u8);
        out.push(0x80 | (v & 0x3f) as u8);
        assert(out@ =~= old(out)@ + encode_scalar(v));
    } else if v <= 0xffff {
        out.push(0xe0 | ((v >> 12) & 0x0f) as u8);
        out.push(0x80 | ((v >> 6) & 0x3f) as u8);
        out.push(0x80 | (v & 0x3f) as u8);
        assert(out@ =~= old(out)@ + encode_scalar(v));
    } else {
        out.push(0xf0 | ((v >> 18) & 0x7) as u8);
        out.push(0x80 | ((v >> 12) & 0x3f) as u8);
        out.push(0x80 | ((v >> 6) & 0x3f) as u8);
        out.push(0x80 | (v & 0x3f) as u8);
        assert(out@ =~= old(out)@ + encode_scalar(v));
    }
}

/// The string made of the characters `cs`.
pub fn string_from_chars(cs: &[char]) -> (r: String)
    ensures
        r@ == cs@,
{
    let mut out: Vec<u8> = Vec::new();
    let mut i: usize = 0;
    assert(encode_utf8(cs@.subrange(0, 0)) =~= Seq::<u8>::empty());
    while i < cs.len()
        invariant
            i <= cs@.len(),
            out@ == encode_utf8(cs@.subrange(0, i as int)),
        decreases cs@.len() - i,
    {
        let c = cs[i];
        push_char_utf8(&mut out, c);
        proof {
            lemma_encode_utf8_concat(cs@.subrange(0, i as int), seq![c]);
            assert(cs@.subrange(0, i + 1) =~= cs@.subrange(0, i as int) + seq![c]);
            assert(seq![c].drop_first() =~= Seq::<char>::empty());
            assert(encode_utf8(seq![c]) =~= encode_scalar(c as u32) + encode_utf8(Seq::<char>::empty()));
            assert(encode_utf8(Seq::<char>::empty()) =~= Seq::<u8>::empty());
        }
        i = i + 1;
    }
    assert(cs@.subrange(0, cs@.len() as int) =~= cs@);
    proof {
        encode_utf8_valid_utf8(cs@);
        encode_utf8_decode_utf8(cs@);
    }
    string_of_utf8(out)
}

/// The characters of `s`.
pub fn chars_of(s: &str) -> (r: Vec<char>)
    ensures
        r@ == s@,
{
    let n = s.unicode_len();
    let mut r: Vec<char> = Vec::new();
    let mut i: usize = 0;
    while i < n
        invariant
            n == s@.len(),
            i <= n,
            r@ == s@.subrange(0, i as int),
        decreases n - i,
    {
        r.push(s.get_char(i));
        i = i + 1;
        assert(r@ =~= s@.subrange(0, i as int));
    }
    assert(s@.subrange(0, n as int) =~= s@);
    r
}

/// Whether `pat` occurs in `s` at character `i`.
pub fn chars_match_at(s: &[char], pat: &[char], i: usize) -> (r: bool)
    ensures
        r == matches_at(s@, pat@, i as int),
{
    if i > s.len() || pat.len() > s.len() - i {
        return false;
    }
    let mut k: usize = 0;
    while k < pat.len()
        invariant
            i + pat@.len() <= s@.len(),
            s@.len() == s.len(),
            pat@.len() == pat.len(),
            k <= pat@.len(),
            forall|j: int| 0 <= j < k ==> s@[i + j] == pat@[j],
        decreases pat@.len() - k,
    {
        if s[i + k] != pat[k] {
            assert(s@.subrange(i as int, i + pat@.len())[k as int] != pat@[k as int]);
            return false;
        }
        k = k + 1;
    }
    assert(s@.subrange(i as int, i + pat@.len()) =~= pat@);
    true
}

/// The first occurrence of `pat` in `s` at or after character `from`.
pub fn find_chars(s: &[char], pat: &[char], from: usize) -> (r: Option<usize>)
    ensures
        match r {
            Some(p) => find_from(s@, pat@, from as int) == Some(p as int),
            None => find_from(s@, pat@, from as int) is None,
        },
{
    if from > s.len() || pat.len() > s.len() - from {
        return None;
    }
    let last = s.len() - pat.len();
    let mut i = from;
    loop
        invariant
            from <= i <= last,
            last + pat@.len() == s@.len(),
            find_from(s@, pat@, from as int) == find_from(s@, pat@, i as int),
        decreases last - i,
    {
        if chars_match_at(s, pat, i) {
            return Some(i);
        }
        if i == last {
            assert(find_from(s@, pat@, i + 1) is None);
            return None;
        }
        i = i + 1;
    }
}

/// The part of `s` after its last `c`; all of `s` when it holds none.
pub open spec fn after_last(s: Seq<char>, c: char) -> Seq<char>
    decreases s.len(),
{
    if s.len() == 0 {
        s
    } else if s.last() == c {
        Seq::empty()
    } else {
        after_last(s.drop_last(), c).push(s.last())
    }
}

/// `s` starts with `p`.
pub open spec fn has_prefix(s: Seq<char>, p: Seq<char>) -> bool {
    matches_at(s, p, 0)
}

/// `s` ends with `p`.
pub open spec fn has_suffix(s: Seq<char>, p: Seq<char>) -> bool {
    p.len() <= s.len() && matches_at(s, p, s.len() - p.len())
}

/// `p` occurs somewhere in `s`.
pub open spec fn occurs_in(s: Seq<char>, p: Seq<char>) -> bool {
    find_from(s, p, 0) is Some
}

/// `str::starts_with`.
pub fn str_starts_with(s: &str, p: &str) -> (r: bool)
    ensures
        r == has_prefix(s@, p@),
{
    chars_match_at(&chars_of(s), &chars_of(p), 0)
}

/// `str::ends_with`.
pub fn str_ends_with(s: &str, p: &str) -> (r: bool)
    ensures
        r == has_suffix(s@, p@),
{
    let cs = chars_of(s);
    let cp = chars_of(p);
    if cp.len() > cs.len() {
        return false;
    }
    chars_match_at(&cs, &cp, cs.len() - cp.len())
}

/// `str::contains` with a string pattern.
pub fn str_contains(s: &str, p: &str) -> (r: bool)
    ensures
        r == occurs_in(s@, p@),
{
    find_chars(&chars_of(s), &chars_of(p), 0).is_some()
}

/// `==` on strings.
pub fn str_eq(a: &str, b: &str) -> (r: bool)
    ensures
        r == (a@ == b@),
{
    let ca = chars_of(a);
    let cb = chars_of(b);
    if ca.len() != cb.len() {
        return false;
    }
    let r = chars_match_at(&ca, &cb, 0);
    assert(ca@.subrange(0, cb@.len() as int) =~= ca@);
    r
}


/// Appends the characters of `s`.
pub fn push_str_chars(out: &mut Vec<char>, s: &str)
    ensures
        final(out)@ == old(out)@ + s@,
{
    let cs = chars_of(s);
    push_chars(out, &cs, 0, cs.len());
    assert(cs@.subrange(0, cs@.len() as int) =~= cs@);
}

/// Appends `cs[from..to]`.
pub fn push_chars(out: &mut Vec<char>, cs: &[char], from: usize, to: usize)
    requires
        from <= to <= cs@.len(),
    ensures
        final(out)@ == old(out)@ + cs@.subrange(from as int, to as int),
{
    let mut k = from;
    while k < to
        invariant
            from <= k <= to <= cs@.len(),
            out@ == old(out)@ + cs@.subrange(from as int, k as int),
        decreases to - k,
    {
        out.push(cs[k]);
        k = k + 1;
        assert(out@ =~= old(out)@ + cs@.subrange(from as int, k as int));
    }
}

/// Every `from` character replaced by `to`.
pub open spec fn replace_char_spec(s: Seq<char>, from: char, to: char) -> Seq<char> {
    s.map_values(|c: char| if c == from { to } else { c })
}

/// `s.replace(from, to)` for single characters.
pub fn replace_char(s: &str, from: char, to: char) -> (r: String)
    ensures
        r@ == replace_char_spec(s@, from, to),
{
    let cs = chars_of(s);
    let mut out: Vec<char> = Vec::new();
    let mut i: usize = 0;
    while i < cs.len()
        invariant
            i <= cs@.len(),
            out@ == replace_char_spec(cs@.subrange(0, i as int), from, to),
        decreases cs@.len() - i,
    {
        let c = cs[i];
        if c == from {
            out.push(to);
        } else {
            out.push(c);
        }
        i = i + 1;
        assert(out@ =~= replace_char_spec(cs@.subrange(0, i as int), from, to));
    }
    assert(cs@.subrange(0, cs@.len() as int) =~= cs@);
    string_from_chars(&out)
}

/// `str::contains` with a character.
pub fn str_contains_char(s: &str, c: char) -> (r: bool)
    ensures
        r == s@.contains(c),
{
    let cs = chars_of(s);
    let mut i: usize = 0;
    while i < cs.len()
        invariant
            i <= cs@.len(),
            cs@ == s@,
            forall|j: int| 0 <= j < i ==> cs@[j] != c,
        decreases cs@.len() - i,
    {
        if cs[i] == c {
            return true;
        }
        i = i + 1;
    }
    false
}

/// The decimal text of `v` as characters.
pub open spec fn decimal_chars(v: int) -> Seq<char> {
    signed_decimal(v).map_values(|b: u8| b as char)
}

/// `v.to_string()` as characters.
pub fn i64_decimal_chars(v: i64) -> (r: Vec<char>)
    ensures
        r@ == decimal_chars(v as int),
{
    let digits = i64_decimal(v);
    let mut r: Vec<char> = Vec::new();
    let mut i: usize = 0;
    while i < digits.len()
        invariant
            i <= digits@.len(),
            digits@ == signed_decimal(v as int),
            r@ == digits@.subrange(0, i as int).map_values(|b: u8| b as char),
        decreases digits@.len() - i,
    {
        r.push(digits[i] as char);
        i = i + 1;
        assert(r@ =~= digits@.subrange(0, i as int).map_values(|b: u8| b as char));
    }
    assert(digits@.subrange(0, digits@.len() as int) =~= digits@);
    r
}


/// `v.to_string()` as characters, for an unsigned number.
pub fn u64_decimal_chars(v: u64) -> (r: Vec<char>)
    ensures
        r@ == decimal_chars(v as int),
{
    let digits = u64_decimal(v);
    let mut r: Vec<char> = Vec::new();
    let mut i: usize = 0;
    while i < digits.len()
        invariant
            i <= digits@.len(),
            digits@ == signed_decimal(v as int),
            r@ == digits@.subrange(0, i as int).map_values(|b: u8| b as char),
        decreases digits@.len() - i,
    {
        r.push(digits[i] as char);
        i = i + 1;
        assert(r@ =~= digits@.subrange(0, i as int).map_values(|b: u8| b as char));
    }
    assert(digits@.subrange(0, digits@.len() as int) =~= digits@);
    r
}

} // verus!
