//! Locating and removing the note separator rules of a WordprocessingML
//! notes part (`word/footnotes.xml` or `word/endnotes.xml`).
//!
//! The engine draws the horizontal rules above the notes from two special
//! notes of each part: the note of type `separator` holds a run with
//! `<w:separator/>`, the note of type `continuationSeparator` a run with
//! `<w:continuationSeparator/>`. Dropping the run that holds the element
//! leaves an empty special note, which is what a document without the rule
//! looks like. A part whose only notes are the special ones is regenerated
//! wholesale by the engine, so only parts with real notes (a positive
//! `w:id`) are worth operating on.
//!
//! All positions are byte offsets into the UTF-8 encoding of the part.
use vstd::prelude::*;
use vstd::utf8::*;
use vstd::string::*;
use crate::bytes::{
    append_range, char_at, copy_range, decode_char_at, find_bytes, find_from, is_white_space,
    bytes_match_at, is_white_space_code, lemma_after_ascii, lemma_find_from_bounds, lemma_valid_subrange, matches_at,
    skip_white_space, skip_white_space_from, trim_bytes, trimmed, white_space_before,
    white_space_ends_at,
};
use crate::text::string_of_utf8;

verus! {

/// `<` followed by the element name: what opens the element.
pub open spec fn element_needle(name: Seq<u8>) -> Seq<u8> {
    seq![0x3cu8] + name
}

/// The character at `i` ends an element name: `>`, `/` or white space.
pub open spec fn ends_element_name(b: Seq<u8>, i: int) -> bool {
    char_at(b, i) matches Some((cp, _)) && (cp == 0x3e || cp == 0x2f || is_white_space(cp))
}

/// The positions where the element opened by `needle` starts, scanning from
/// `from`: each occurrence of `needle` is a start when the character after
/// it ends the name, and the scan resumes right after the occurrence.
pub open spec fn element_scan(b: Seq<u8>, needle: Seq<u8>, from: int) -> Seq<int>
    decreases b.len() + 1 - from,
{
    if needle.len() == 0 || from < 0 {
        seq![]
    } else {
        match find_from(b, needle, from) {
            None => seq![],
            Some(p) => {
                proof {
                    lemma_find_from_bounds(b, needle, from);
                }
                let after = p + needle.len();
                (if ends_element_name(b, after) {
                    seq![p]
                } else {
                    seq![]
                }) + element_scan(b, needle, after)
            },
        }
    }
}

/// Every position the scan reports opens the element, with the name ended
/// right after it, and the positions increase.
pub proof fn lemma_element_scan_sound(b: Seq<u8>, needle: Seq<u8>, from: int)
    ensures
        forall|k: int|
            0 <= k < element_scan(b, needle, from).len() ==> {
                let p = #[trigger] element_scan(b, needle, from)[k];
                &&& from <= p
                &&& matches_at(b, needle, p)
                &&& ends_element_name(b, p + needle.len())
            },
        forall|k1: int, k2: int|
            0 <= k1 < k2 < element_scan(b, needle, from).len() ==> element_scan(b, needle, from)[k1]
                < element_scan(b, needle, from)[k2],
    decreases b.len() + 1 - from,
{
    if needle.len() == 0 || from < 0 {
    } else {
        lemma_find_from_bounds(b, needle, from);
        match find_from(b, needle, from) {
            None => {},
            Some(p) => {
                let after = p + needle.len();
                lemma_element_scan_sound(b, needle, after);
                let rest = element_scan(b, needle, after);
                let head: Seq<int> = if ends_element_name(b, after) {
                    seq![p]
                } else {
                    seq![]
                };
                let all = element_scan(b, needle, from);
                assert(all == head + rest);
                assert forall|k: int| 0 <= k < all.len() implies {
                    let q = #[trigger] all[k];
                    &&& from <= q
                    &&& matches_at(b, needle, q)
                    &&& ends_element_name(b, q + needle.len())
                } by {
                    if k >= head.len() {
                        assert(all[k] == rest[k - head.len()]);
                    }
                }
                assert forall|k1: int, k2: int| 0 <= k1 < k2 < all.len() implies all[k1] < all[k2] by {
                    if k1 >= head.len() {
                        assert(all[k1] == rest[k1 - head.len()]);
                    }
                    assert(all[k2] == rest[k2 - head.len()]);
                }
            },
        }
    }
}

proof fn lemma_find_from_reaches<A>(b: Seq<A>, pat: Seq<A>, from: int, p: int)
    requires
        0 <= from <= p,
        matches_at(b, pat, p),
    ensures
        find_from(b, pat, from) matches Some(q) && from <= q <= p,
    decreases p - from,
{
    if from + pat.len() > b.len() {
    } else if matches_at(b, pat, from) {
    } else {
        lemma_find_from_reaches(b, pat, from + 1, p);
    }
}

/// Nothing is missed: every place from `from` on where the element opens,
/// with its name ended right after, is reported, as long as the name holds
/// no `<` (so that two occurrences cannot overlap).
pub proof fn law_element_scan_complete(b: Seq<u8>, needle: Seq<u8>, from: int, p: int)
    requires
        needle.len() > 0,
        needle[0] == 0x3c,
        forall|k: int| 1 <= k < needle.len() ==> #[trigger] needle[k] != 0x3c,
        0 <= from <= p,
        matches_at(b, needle, p),
        ends_element_name(b, p + needle.len()),
    ensures
        element_scan(b, needle, from).contains(p),
    decreases b.len() + 1 - from,
{
    lemma_find_from_reaches(b, needle, from, p);
    lemma_find_from_bounds(b, needle, from);
    let q = find_from(b, needle, from)->0;
    let after = q + needle.len();
    let head: Seq<int> = if ends_element_name(b, after) {
        seq![q]
    } else {
        seq![]
    };
    let rest = element_scan(b, needle, after);
    assert(element_scan(b, needle, from) == head + rest);
    if q == p {
        assert((head + rest)[0] == p);
    } else {
        if p < after {
            assert(b.subrange(p, p + needle.len())[0] == b[p]);
            assert(b.subrange(q, q + needle.len())[p - q] == b[p]);
            assert(needle[p - q] != 0x3c);
        }
        law_element_scan_complete(b, needle, after, p);
        let k = choose|k: int| 0 <= k < rest.len() && rest[k] == p;
        assert((head + rest)[head.len() + k] == p);
    }
}

/// Whether the character at `i` ends an element name.
fn name_ends_at(b: &[u8], i: usize) -> (r: bool)
    ensures
        r == ends_element_name(b@, i as int),
{
    match decode_char_at(b, i) {
        Some((cp, _)) => cp == 0x3e || cp == 0x2f || is_white_space_code(cp),
        None => false,
    }
}

/// The element starts of `needle` in `b`.
pub fn element_positions(b: &[u8], needle: &[u8]) -> (r: Vec<usize>)
    requires
        needle@.len() > 0,
    ensures
        r@.map_values(|x: usize| x as int) == element_scan(b@, needle@, 0),
{
    let mut found: Vec<usize> = Vec::new();
    let mut from: usize = 0;
    assert(found@.map_values(|x: usize| x as int) + element_scan(b@, needle@, 0) =~= element_scan(
        b@,
        needle@,
        0,
    ));
    loop
        invariant
            from <= b@.len(),
            b@.len() == b.len(),
            needle@.len() > 0,
            found@.map_values(|x: usize| x as int) + element_scan(b@, needle@, from as int)
                == element_scan(b@, needle@, 0),
        decreases b@.len() + 1 - from,
    {
        proof {
            lemma_find_from_bounds(b@, needle@, from as int);
        }
        match find_bytes(b, needle, from) {
            None => {
                assert(found@.map_values(|x: usize| x as int) =~= found@.map_values(
                    |x: usize| x as int,
                ) + element_scan(b@, needle@, from as int));
                return found;
            },
            Some(p) => {
                let after = p + needle.len();
                let ghost old_found = found@;
                if name_ends_at(b, after) {
                    found.push(p);
                }
                assert(found@.map_values(|x: usize| x as int) + element_scan(
                    b@,
                    needle@,
                    after as int,
                ) =~= old_found.map_values(|x: usize| x as int) + element_scan(
                    b@,
                    needle@,
                    from as int,
                ));
                from = after;
            },
        }
    }
}

/// The bytes of `<` followed by `name`.
pub fn needle_for(name: &[u8]) -> (r: Vec<u8>)
    ensures
        r@ == element_needle(name@),
{
    let mut r: Vec<u8> = Vec::new();
    r.push(0x3c);
    append_range(&mut r, name, 0, name.len());
    assert(name@.subrange(0, name@.len() as int) =~= name@);
    assert(r@ =~= element_needle(name@));
    r
}

/// Positions where element `name` opens. The character after the name must
/// end it, so `w:r` does not match `<w:rPr>`, `w:footnote` does not match
/// `<w:footnotePr>`, `<w:footnoteRef>` or the `<w:footnotes>` root, and
/// `w:separator` does not match `<w:continuationSeparator/>`.
pub fn element_starts(xml: &str, name: &str) -> (r: Vec<usize>)
    ensures
        r@.map_values(|x: usize| x as int) == element_scan(
            xml.spec_bytes(),
            element_needle(name.spec_bytes()),
            0,
        ),
{
    let needle = needle_for(name.as_bytes());
    element_positions(xml.as_bytes(), &needle)
}


/// The tag text of the opening tag that starts at `pos` (angle brackets
/// excluded): from just after `pos` to the next `>`.
pub open spec fn open_tag_range(b: Seq<u8>, pos: int) -> Option<(int, int)> {
    match find_from(b, seq![0x3eu8], pos) {
        Some(e) => Some((pos + 1, e)),
        None => None,
    }
}

/// Attribute lookup inside one opening tag, scanning occurrences of `name`
/// from `from`. An occurrence counts when it starts the tag or follows white
/// space, and is followed (white space allowed) by `=` and then a quote; the
/// value runs to the next occurrence of the same quote. Yields the value's
/// byte range. The scan gives up (`None`) when nothing follows the `=` or the
/// value is never closed.
pub open spec fn attr_scan(t: Seq<u8>, name: Seq<u8>, from: int) -> Option<(int, int)>
    decreases t.len() + 1 - from,
{
    if name.len() == 0 || from < 0 {
        None
    } else {
        match find_from(t, name, from) {
            None => None,
            Some(pos) => {
                proof {
                    lemma_find_from_bounds(t, name, from);
                }
                let next = pos + name.len();
                if !(pos == 0 || white_space_before(t, pos)) {
                    attr_scan(t, name, next)
                } else {
                    let r = skip_white_space(t, next);
                    if !(0 <= r < t.len() && t[r] == 0x3d) {
                        attr_scan(t, name, next)
                    } else {
                        let q = skip_white_space(t, r + 1);
                        if !(0 <= q < t.len()) {
                            None
                        } else if t[q] != 0x22 && t[q] != 0x27 {
                            attr_scan(t, name, next)
                        } else {
                            match find_from(t, seq![t[q]], q + 1) {
                                None => None,
                                Some(e) => Some((q + 1, e)),
                            }
                        }
                    }
                }
            },
        }
    }
}

pub proof fn lemma_skip_white_space_bounds(b: Seq<u8>, i: int)
    requires
        0 <= i <= b.len(),
    ensures
        i <= skip_white_space(b, i) <= b.len(),
    decreases b.len() - i,
{
    match char_at(b, i) {
        Some((cp, n)) => if is_white_space(cp) {
            lemma_skip_white_space_bounds(b, i + n);
        },
        None => {},
    }
}

/// The value range that `attr_scan` reports lies inside the tag, right after
/// an ASCII quote and ending at the same quote.
pub proof fn lemma_attr_scan_range(t: Seq<u8>, name: Seq<u8>, from: int)
    ensures
        attr_scan(t, name, from) matches Some((vs, ve)) ==> {
            &&& 1 <= vs <= ve < t.len()
            &&& (t[vs - 1] == 0x22 || t[vs - 1] == 0x27)
            &&& t[ve] == t[vs - 1]
        },
    decreases t.len() + 1 - from,
{
    if name.len() == 0 || from < 0 {
    } else {
        lemma_find_from_bounds(t, name, from);
        match find_from(t, name, from) {
            None => {},
            Some(pos) => {
                let next = pos + name.len();
                lemma_attr_scan_range(t, name, next);
                lemma_skip_white_space_bounds(t, next);
                let r = skip_white_space(t, next);
                if 0 <= r < t.len() {
                    lemma_skip_white_space_bounds(t, r + 1);
                    let q = skip_white_space(t, r + 1);
                    if 0 <= q < t.len() {
                        lemma_find_from_bounds(t, seq![t[q]], q + 1);
                        match find_from(t, seq![t[q]], q + 1) {
                            None => {},
                            Some(e) => {
                                assert(t.subrange(e, e + 1)[0] == t[e]);
                            },
                        }
                    }
                }
            },
        }
    }
}

/// The byte range of the value of attribute `name` in tag text `t`.
pub fn attr_value_range(t: &[u8], name: &[u8]) -> (r: Option<(usize, usize)>)
    requires
        name@.len() > 0,
    ensures
        match r {
            Some((vs, ve)) => attr_scan(t@, name@, 0) == Some((vs as int, ve as int)),
            None => attr_scan(t@, name@, 0) is None,
        },
{
    let mut from: usize = 0;
    loop
        invariant
            from <= t@.len(),
            t@.len() == t.len(),
            name@.len() > 0,
            attr_scan(t@, name@, 0) == attr_scan(t@, name@, from as int),
        decreases t@.len() + 1 - from,
    {
        proof {
            lemma_find_from_bounds(t@, name@, from as int);
        }
        let pos = match find_bytes(t, name, from) {
            Some(p) => p,
            None => {
                return None;
            },
        };
        let next = pos + name.len();
        if !(pos == 0 || white_space_ends_at(t, pos)) {
            from = next;
            continue;
        }
        let r = skip_white_space_from(t, next);
        if !(r < t.len() && t[r] == 0x3d) {
            from = next;
            continue;
        }
        let q = skip_white_space_from(t, r + 1);
        if q >= t.len() {
            return None;
        }
        let quote = t[q];
        if quote != 0x22 && quote != 0x27 {
            from = next;
            continue;
        }
        let mut pat: Vec<u8> = Vec::new();
        pat.push(quote);
        assert(pat@ =~= seq![t@[q as int]]);
        match find_bytes(t, &pat, q + 1) {
            Some(e) => {
                return Some((q + 1, e));
            },
            None => {
                return None;
            },
        }
    }
}

/// With an empty name the lookup looks at the start of the tag and nowhere
/// else: it stops when the tag, past leading white space, starts with `=`
/// followed (white space allowed) by a quote or by nothing; on any other tag
/// it looks at the same place forever.
pub open spec fn empty_name_stops(t: Seq<u8>) -> bool {
    let r = skip_white_space(t, 0);
    &&& 0 <= r < t.len()
    &&& t[r] == 0x3d
    &&& ({
        let q = skip_white_space(t, r + 1);
        !(0 <= q < t.len()) || t[q] == 0x22 || t[q] == 0x27
    })
}

/// The value range the lookup with an empty name yields, where it stops.
pub open spec fn empty_name_scan(t: Seq<u8>) -> Option<(int, int)> {
    let r = skip_white_space(t, 0);
    let q = skip_white_space(t, r + 1);
    if !(0 <= q < t.len()) {
        None
    } else {
        match find_from(t, seq![t[q]], q + 1) {
            None => None,
            Some(e) => Some((q + 1, e)),
        }
    }
}

/// The lookup's value range for attribute `name` in tag text `t`.
pub open spec fn attr_lookup(t: Seq<u8>, name: Seq<u8>) -> Option<(int, int)> {
    if name.len() > 0 {
        attr_scan(t, name, 0)
    } else {
        empty_name_scan(t)
    }
}

/// Attribute lookup inside one opening tag. Names are matched whole, so `w:id`
/// does not answer for `w:idOther`, and both quote styles are accepted.
/// With an empty name the lookup does not end on most tags; those are left
/// out (see `empty_name_stops`).
pub fn attr_value(tag: &str, name: &str) -> (r: Option<String>)
    requires
        name@.len() > 0 || empty_name_stops(tag.spec_bytes()),
    ensures
        match attr_lookup(tag.spec_bytes(), name.spec_bytes()) {
            Some((vs, ve)) => r matches Some(v) && encode_utf8(v@) == tag.spec_bytes().subrange(
                vs,
                ve,
            ),
            None => r is None,
        },
{
    let t = tag.as_bytes();
    let nm = name.as_bytes();
    proof {
        encode_utf8_valid_utf8(tag@);
        if nm@.len() == 0 && name@.len() > 0 {
            assert(encode_utf8(name@).len() > 0) by {
                reveal_with_fuel(encode_utf8, 2);
            }
        }
        if nm@.len() > 0 && name@.len() == 0 {
            assert(encode_utf8(name@).len() == 0);
        }
    }
    if nm.len() == 0 {
        assert(name@.len() == 0);
        assert(empty_name_stops(t@));
        let r0 = skip_white_space_from(t, 0);
        assert(r0 < t@.len());
        assert(t@.len() == t.len());
        let q = skip_white_space_from(t, r0 + 1);
        if q >= t.len() {
            return None;
        }
        let mut pat: Vec<u8> = Vec::new();
        pat.push(t[q]);
        assert(pat@ =~= seq![t@[q as int]]);
        proof {
            lemma_find_from_bounds(t@, pat@, q + 1);
        }
        return match find_bytes(t, &pat, q + 1) {
            None => None,
            Some(e) => {
                proof {
                    assert(t@.subrange(e as int, e + 1)[0] == t@[e as int]);
                    lemma_after_ascii(t@, q as int);
                    lemma_valid_subrange(t@, q + 1, e as int);
                }
                Some(string_of_utf8(copy_range(t, q + 1, e)))
            },
        };
    }
    match attr_value_range(t, nm) {
        Some((vs, ve)) => {
            proof {
                lemma_attr_scan_range(t@, nm@, 0);
                lemma_after_ascii(t@, vs - 1);
                lemma_valid_subrange(t@, vs as int, ve as int);
            }
            Some(string_of_utf8(copy_range(t, vs, ve)))
        },
        None => None,
    }
}


/// `w:id`
pub open spec fn id_attr() -> Seq<u8> {
    seq![0x77u8, 0x3a, 0x69, 0x64]
}

pub open spec fn is_ascii_digit(c: u8) -> bool {
    0x30 <= c <= 0x39
}

/// The number written in decimal digits `d`.
pub open spec fn decimal_value(d: Seq<u8>) -> nat
    decreases d.len(),
{
    if d.len() == 0 {
        0
    } else {
        decimal_value(d.drop_last()) * 10 + (d.last() - 0x30) as nat
    }
}

/// The text with one leading `+` removed, if it has one.
pub open spec fn without_plus(s: Seq<u8>) -> Seq<u8> {
    if s.len() > 0 && s[0] == 0x2b {
        s.drop_first()
    } else {
        s
    }
}

/// At least one decimal digit and nothing else, writing a number from 1 to
/// `i64::MAX`.
pub open spec fn is_positive_decimal(d: Seq<u8>) -> bool {
    &&& d.len() > 0
    &&& forall|k: int| 0 <= k < d.len() ==> is_ascii_digit(#[trigger] d[k])
    &&& 0 < decimal_value(d) <= i64::MAX
}

/// `s.parse::<i64>()` succeeds with a number greater than zero: an optional
/// `+`, then at least one decimal digit and nothing else, the number being
/// at most `i64::MAX`.
pub open spec fn parses_to_positive_i64(s: Seq<u8>) -> bool {
    is_positive_decimal(without_plus(s))
}

/// The element starting at `pos` is a real note: its opening tag carries a
/// `w:id` whose trimmed value parses to a positive number.
pub open spec fn is_real_note_at(b: Seq<u8>, pos: int) -> bool {
    match open_tag_range(b, pos) {
        Some((s, e)) => match attr_scan(b.subrange(s, e), id_attr(), 0) {
            Some((vs, ve)) => parses_to_positive_i64(trimmed(b.subrange(s, e).subrange(vs, ve))),
            None => false,
        },
        None => false,
    }
}

/// The part holds a real note of element `note_element`.
pub open spec fn holds_real_notes(b: Seq<u8>, note_element: Seq<u8>) -> bool {
    let starts = element_scan(b, element_needle(note_element), 0);
    exists|k: int| 0 <= k < starts.len() && is_real_note_at(b, #[trigger] starts[k])
}

proof fn lemma_decimal_grows(d: Seq<u8>)
    requires
        d.len() > 0,
        is_ascii_digit(d.last()),
    ensures
        decimal_value(d) >= decimal_value(d.drop_last()),
{
}

/// `s.parse::<i64>().map(|n| n > 0).unwrap_or(false)`.
pub fn parses_positive(s: &[u8]) -> (r: bool)
    ensures
        r == parses_to_positive_i64(s@),
{
    let start: usize = if s.len() > 0 && s[0] == 0x2b {
        1
    } else {
        0
    };
    let ghost d = without_plus(s@);
    assert(d =~= s@.subrange(start as int, s@.len() as int));
    if start == s.len() {
        return false;
    }
    let mut acc: u64 = 0;
    let mut too_big = false;
    let mut k = start;
    assert(d.subrange(0, 0) =~= Seq::<u8>::empty());
    while k < s.len()
        invariant
            start <= k <= s@.len(),
            s@.len() == s.len(),
            d == without_plus(s@),
            d =~= s@.subrange(start as int, s@.len() as int),
            forall|j: int| 0 <= j < k - start ==> is_ascii_digit(#[trigger] d[j]),
            !too_big ==> acc as nat == decimal_value(d.subrange(0, k - start)) && acc <= i64::MAX,
            too_big ==> decimal_value(d.subrange(0, k - start)) > i64::MAX,
        decreases s@.len() - k,
    {
        let c = s[k];
        if !(0x30 <= c && c <= 0x39) {
            assert(d[k - start] == c);
            assert(!is_ascii_digit(d[(k - start) as int]));
            assert(!(forall|j: int| 0 <= j < d.len() ==> is_ascii_digit(#[trigger] d[j])));
            return false;
        }
        let ghost prefix = d.subrange(0, k - start);
        let ghost next = d.subrange(0, k - start + 1);
        assert(next.drop_last() =~= prefix);
        assert(next.last() == c);
        if !too_big {
            let v: u128 = (acc as u128) * 10 + ((c - 0x30) as u128);
            if v > 0x7fff_ffff_ffff_ffff {
                too_big = true;
            } else {
                acc = v as u64;
            }
        } else {
            proof {
                lemma_decimal_grows(next);
            }
        }
        k = k + 1;
    }
    assert(d.subrange(0, d.len() as int) =~= d);
    !too_big && acc > 0
}

/// The tag text range of the opening tag that starts at `pos` (a `<`).
fn open_tag_bounds(b: &[u8], pos: usize) -> (r: Option<(usize, usize)>)
    requires
        pos < b@.len(),
        b@[pos as int] == 0x3c,
    ensures
        match r {
            Some((s, e)) => open_tag_range(b@, pos as int) == Some((s as int, e as int)) && s <= e
                <= b@.len(),
            None => open_tag_range(b@, pos as int) is None,
        },
{
    let mut gt: Vec<u8> = Vec::new();
    gt.push(0x3e);
    assert(gt@ =~= seq![0x3eu8]);
    proof {
        lemma_find_from_bounds(b@, gt@, pos as int);
    }
    match find_bytes(b, &gt, pos) {
        Some(e) => {
            if e == pos {
                assert(b@.subrange(pos as int, pos + 1)[0] == b@[pos as int]);
            }
            Some((pos + 1, e))
        },
        None => None,
    }
}

/// Whether the element starting at `pos` (a `<`) is a real note.
fn real_note_at(b: &[u8], pos: usize) -> (r: bool)
    requires
        pos < b@.len(),
        b@[pos as int] == 0x3c,
    ensures
        r == is_real_note_at(b@, pos as int),
{
    let (s, e) = match open_tag_bounds(b, pos) {
        Some(range) => range,
        None => {
            return false;
        },
    };
    let tag = copy_range(b, s, e);
    let id: Vec<u8> = vec![0x77, 0x3a, 0x69, 0x64];
    assert(id@ =~= id_attr());
    match attr_value_range(&tag, &id) {
        Some((vs, ve)) => {
            proof {
                lemma_attr_scan_range(tag@, id@, 0);
            }
            let value = copy_range(&tag, vs, ve);
            let t = trim_bytes(&value);
            parses_positive(&t)
        },
        None => false,
    }
}

/// Whether the xml bytes hold a real note of the element `needle` opens.
pub fn has_real_notes_in(b: &[u8], needle: &[u8]) -> (r: bool)
    requires
        needle@.len() > 0,
        needle@[0] == 0x3c,
    ensures
        r == holds_real_notes(b@, needle@.drop_first()),
{
    let ghost name = needle@.drop_first();
    assert(element_needle(name) =~= needle@);
    let starts = element_positions(b, needle);
    let ghost sp = element_scan(b@, needle@, 0);
    proof {
        lemma_element_scan_sound(b@, needle@, 0);
    }
    let mut k: usize = 0;
    while k < starts.len()
        invariant
            k <= starts@.len(),
            starts@.map_values(|x: usize| x as int) == sp,
            sp == element_scan(b@, needle@, 0),
            element_needle(name) == needle@,
            name == needle@.drop_first(),
            needle@.len() > 0,
            needle@[0] == 0x3c,
            forall|j: int| 0 <= j < sp.len() ==> matches_at(b@, needle@, #[trigger] sp[j]),
            forall|j: int| 0 <= j < k ==> !is_real_note_at(b@, #[trigger] sp[j]),
        decreases starts@.len() - k,
    {
        let pos = starts[k];
        assert(sp[k as int] == pos as int);
        assert(matches_at(b@, needle@, pos as int));
        assert(b@.subrange(pos as int, pos + needle@.len())[0] == b@[pos as int]);
        if real_note_at(b, pos) {
            assert(is_real_note_at(b@, sp[k as int]));
            assert(element_scan(b@, element_needle(name), 0) == sp);
            return true;
        }
        k = k + 1;
    }
    false
}

/// A real note carries a positive id: the separator is -1 and the
/// continuationSeparator is 0, and both exist in a part nobody has ever added
/// a note to. `note_element` is `w:footnote` or `w:endnote` depending on the
/// part.
pub fn has_real_notes(xml: &str, note_element: &str) -> (r: bool)
    ensures
        r == holds_real_notes(xml.spec_bytes(), note_element.spec_bytes()),
{
    let needle = needle_for(note_element.as_bytes());
    assert(needle@.drop_first() =~= note_element.spec_bytes());
    has_real_notes_in(xml.as_bytes(), &needle)
}


/// `</` name `>`: what closes the element.
pub open spec fn closing_tag(name: Seq<u8>) -> Seq<u8> {
    seq![0x3cu8, 0x2f] + name + seq![0x3eu8]
}

/// `w:type`
pub open spec fn type_attr() -> Seq<u8> {
    seq!['w' as u8, ':' as u8, 't' as u8, 'y' as u8, 'p' as u8, 'e' as u8]
}

/// The opening tag at `pos` carries a `w:type` whose value is `note_type`.
pub open spec fn has_type_at(b: Seq<u8>, pos: int, note_type: Seq<u8>) -> bool {
    match open_tag_range(b, pos) {
        Some((s, e)) => match attr_scan(b.subrange(s, e), type_attr(), 0) {
            Some((vs, ve)) => b.subrange(s, e).subrange(vs, ve) == note_type,
            None => false,
        },
        None => false,
    }
}

/// Going through the element starts from the `k`-th on: the first one typed
/// `note_type` gives the span from its start to the end of the next closing
/// tag of the element (`None` when that closing tag is missing).
pub open spec fn span_scan(
    b: Seq<u8>,
    name: Seq<u8>,
    note_type: Seq<u8>,
    starts: Seq<int>,
    k: int,
) -> Option<(int, int)>
    decreases starts.len() - k,
{
    if k < 0 || k >= starts.len() {
        None
    } else if has_type_at(b, starts[k], note_type) {
        match find_from(b, closing_tag(name), starts[k]) {
            Some(c) => Some((starts[k], c + closing_tag(name).len())),
            None => None,
        }
    } else {
        span_scan(b, name, note_type, starts, k + 1)
    }
}

/// The byte span of the special note of type `note_type`, from its opening
/// `<` to the end of its closing tag.
pub open spec fn special_note_span(b: Seq<u8>, name: Seq<u8>, note_type: Seq<u8>) -> Option<
    (int, int),
> {
    span_scan(b, name, note_type, element_scan(b, element_needle(name), 0), 0)
}

/// `</w:r>`
pub open spec fn run_close() -> Seq<u8> {
    seq!['<' as u8, '/' as u8, 'w' as u8, ':' as u8, 'r' as u8, '>' as u8]
}

/// `w:r`
pub open spec fn run_name() -> Seq<u8> {
    seq!['w' as u8, ':' as u8, 'r' as u8]
}

/// The byte range removed from the part to empty the special note of type
/// `note_type`: inside that note, the first element `run_element` is found,
/// and the range runs from the nearest `<w:r` element start before it to the
/// end of the first `</w:r>` after it. `None` when the note, the element,
/// the enclosing run start or the run's end is missing.
pub open spec fn run_removal(
    b: Seq<u8>,
    name: Seq<u8>,
    note_type: Seq<u8>,
    run_element: Seq<u8>,
) -> Option<(int, int)> {
    match special_note_span(b, name, note_type) {
        None => None,
        Some((bs, be)) => {
            let block = b.subrange(bs, be);
            let seps = element_scan(block, element_needle(run_element), 0);
            if seps.len() == 0 {
                None
            } else {
                let runs = element_scan(block.subrange(0, seps[0]), element_needle(run_name()), 0);
                if runs.len() == 0 {
                    None
                } else {
                    match find_from(block, run_close(), seps[0]) {
                        None => None,
                        Some(p) => Some((bs + runs.last(), bs + p + run_close().len())),
                    }
                }
            }
        },
    }
}

/// The part with the run removed, when there is one to remove.
pub open spec fn strip_run(
    b: Seq<u8>,
    name: Seq<u8>,
    note_type: Seq<u8>,
    run_element: Seq<u8>,
) -> Option<Seq<u8>> {
    match run_removal(b, name, note_type, run_element) {
        Some((s, e)) => Some(b.subrange(0, s) + b.subrange(e, b.len() as int)),
        None => None,
    }
}

pub proof fn lemma_span_scan(b: Seq<u8>, name: Seq<u8>, note_type: Seq<u8>, starts: Seq<int>, k: int)
    requires
        forall|j: int| 0 <= j < starts.len() ==> 0 <= #[trigger] starts[j] < b.len(),
    ensures
        span_scan(b, name, note_type, starts, k) matches Some((s, e)) ==> {
            &&& 0 <= s < e <= b.len()
            &&& has_type_at(b, s, note_type)
            &&& exists|j: int| 0 <= j < starts.len() && starts[j] == s
        },
    decreases starts.len() - k,
{
    if k < 0 || k >= starts.len() {
    } else if has_type_at(b, starts[k], note_type) {
        lemma_find_from_bounds(b, closing_tag(name), starts[k]);
    } else {
        lemma_span_scan(b, name, note_type, starts, k + 1);
    }
}

/// The special note's span lies in the part and starts at an element start.
pub proof fn lemma_special_note_span(b: Seq<u8>, name: Seq<u8>, note_type: Seq<u8>)
    ensures
        special_note_span(b, name, note_type) matches Some((s, e)) ==> {
            &&& 0 <= s < e <= b.len()
            &&& b[s] == 0x3c
            &&& has_type_at(b, s, note_type)
        },
{
    let starts = element_scan(b, element_needle(name), 0);
    lemma_element_scan_sound(b, element_needle(name), 0);
    assert forall|j: int| 0 <= j < starts.len() implies 0 <= #[trigger] starts[j] < b.len() by {
        assert(matches_at(b, element_needle(name), starts[j]));
    }
    lemma_span_scan(b, name, note_type, starts, 0);
    if let Some((s, e)) = special_note_span(b, name, note_type) {
        let j = choose|j: int| 0 <= j < starts.len() && starts[j] == s;
        assert(matches_at(b, element_needle(name), starts[j]));
        assert(b.subrange(s, s + element_needle(name).len())[0] == b[s]);
    }
}

/// The removed range lies inside the special note, starts at a `<` and ends
/// right after a `>`.
pub proof fn lemma_run_removal_range(
    b: Seq<u8>,
    name: Seq<u8>,
    note_type: Seq<u8>,
    run_element: Seq<u8>,
)
    ensures
        run_removal(b, name, note_type, run_element) matches Some((s, e)) ==> {
            &&& special_note_span(b, name, note_type) matches Some((bs, be)) && bs <= s < e <= be
            &&& b[s] == 0x3c
            &&& b[e - 1] == 0x3e
        },
{
    lemma_special_note_span(b, name, note_type);
    if let Some((bs, be)) = special_note_span(b, name, note_type) {
        let block = b.subrange(bs, be);
        let seps = element_scan(block, element_needle(run_element), 0);
        lemma_element_scan_sound(block, element_needle(run_element), 0);
        if seps.len() > 0 {
            let sep = seps[0];
            assert(matches_at(block, element_needle(run_element), sep));
            let head = block.subrange(0, sep);
            let runs = element_scan(head, element_needle(run_name()), 0);
            lemma_element_scan_sound(head, element_needle(run_name()), 0);
            if runs.len() > 0 {
                let rs = runs.last();
                assert(matches_at(head, element_needle(run_name()), rs));
                assert(head.subrange(rs, rs + 4)[0] == head[rs]);
                lemma_find_from_bounds(block, run_close(), sep);
                if let Some(p) = find_from(block, run_close(), sep) {
                    assert(block.subrange(p, p + 6)[5] == block[p + 5]);
                }
            }
        }
    }
}


/// Emptying a special note removes one range of bytes lying inside that
/// note, from a `<` to a `>`: everything before the note and after it is
/// kept as it was, so no other note is touched.
pub proof fn law_emptying_stays_inside_the_note(
    b: Seq<u8>,
    name: Seq<u8>,
    note_type: Seq<u8>,
    run_element: Seq<u8>,
)
    ensures
        strip_run(b, name, note_type, run_element) matches Some(x) ==> {
            &&& special_note_span(b, name, note_type) matches Some((bs, be))
            &&& run_removal(b, name, note_type, run_element) matches Some((s, e))
            &&& bs <= s < e <= be
            &&& b[s] == 0x3c
            &&& b[e - 1] == 0x3e
            &&& x == b.subrange(0, s) + b.subrange(e, b.len() as int)
            &&& x.len() == b.len() - (e - s)
            &&& x.subrange(0, bs) == b.subrange(0, bs)
            &&& x.subrange(x.len() - (b.len() - be), x.len() as int) == b.subrange(be, b.len() as int)
        },
{
    lemma_run_removal_range(b, name, note_type, run_element);
    lemma_special_note_span(b, name, note_type);
    if let Some(x) = strip_run(b, name, note_type, run_element) {
        let (bs, be) = special_note_span(b, name, note_type)->0;
        let (s, e) = run_removal(b, name, note_type, run_element)->0;
        assert(x.subrange(0, bs) =~= b.subrange(0, bs));
        assert(x.subrange(x.len() - (b.len() - be), x.len() as int) =~= b.subrange(be, b.len() as int));
    }
}

/// The bytes of `</` name `>`.
fn closing_for(name: &[u8]) -> (r: Vec<u8>)
    ensures
        r@ == closing_tag(name@),
{
    let mut r: Vec<u8> = Vec::new();
    r.push(0x3c);
    r.push(0x2f);
    append_range(&mut r, name, 0, name.len());
    r.push(0x3e);
    assert(name@.subrange(0, name@.len() as int) =~= name@);
    assert(r@ =~= closing_tag(name@));
    r
}

/// Whether the opening tag at `pos` (a `<`) is typed `note_type`.
fn typed_at(b: &[u8], pos: usize, note_type: &[u8]) -> (r: bool)
    requires
        pos < b@.len(),
        b@[pos as int] == 0x3c,
    ensures
        r == has_type_at(b@, pos as int, note_type@),
{
    let (s, e) = match open_tag_bounds(b, pos) {
        Some(range) => range,
        None => {
            return false;
        },
    };
    let tag = copy_range(b, s, e);
    let type_key: Vec<u8> = vec!['w' as u8, ':' as u8, 't' as u8, 'y' as u8, 'p' as u8, 'e' as u8];
    assert(type_key@ =~= type_attr());
    match attr_value_range(&tag, &type_key) {
        Some((vs, ve)) => {
            proof {
                lemma_attr_scan_range(tag@, type_key@, 0);
            }
            let value = copy_range(&tag, vs, ve);
            assert(value@.subrange(0, value@.len() as int) =~= value@);
            value.len() == note_type.len() && bytes_match_at(&value, note_type, 0)
        },
        None => false,
    }
}

/// The span of the special note of type `note_type` among the `name`
/// elements of `b`.
fn find_special_note(b: &[u8], name: &[u8], note_type: &[u8]) -> (r: Option<(usize, usize)>)
    ensures
        match r {
            Some((s, e)) => special_note_span(b@, name@, note_type@) == Some((s as int, e as int)),
            None => special_note_span(b@, name@, note_type@) is None,
        },
{
    let needle = needle_for(name);
    let starts = element_positions(b, &needle);
    let closing = closing_for(name);
    let ghost sp = element_scan(b@, element_needle(name@), 0);
    proof {
        lemma_element_scan_sound(b@, element_needle(name@), 0);
    }
    let mut k: usize = 0;
    while k < starts.len()
        invariant
            k <= starts@.len(),
            starts@.map_values(|x: usize| x as int) == sp,
            sp == element_scan(b@, element_needle(name@), 0),
            needle@ == element_needle(name@),
            closing@ == closing_tag(name@),
            b@.len() == b.len(),
            forall|j: int| 0 <= j < sp.len() ==> matches_at(b@, needle@, #[trigger] sp[j]),
            span_scan(b@, name@, note_type@, sp, 0) == span_scan(b@, name@, note_type@, sp, k as int),
        decreases starts@.len() - k,
    {
        let pos = starts[k];
        assert(sp[k as int] == pos as int);
        assert(matches_at(b@, needle@, pos as int));
        assert(b@.subrange(pos as int, pos + needle@.len())[0] == b@[pos as int]);
        if typed_at(b, pos, note_type) {
            proof {
                lemma_find_from_bounds(b@, closing@, pos as int);
            }
            match find_bytes(b, &closing, pos) {
                Some(c) => {
                    return Some((pos, c + closing.len()));
                },
                None => {
                    return None;
                },
            }
        }
        k = k + 1;
    }
    None
}

/// The byte range to remove to empty the special note of type
/// `note_type`.
fn find_run_removal(b: &[u8], name: &[u8], note_type: &[u8], run_element: &[u8]) -> (r: Option<
    (usize, usize),
>)
    ensures
        match r {
            Some((s, e)) => run_removal(b@, name@, note_type@, run_element@) == Some(
                (s as int, e as int),
            ),
            None => run_removal(b@, name@, note_type@, run_element@) is None,
        },
{
    proof {
        lemma_special_note_span(b@, name@, note_type@);
    }
    let (bs, be) = match find_special_note(b, name, note_type) {
        Some(span) => span,
        None => {
            return None;
        },
    };
    let block = copy_range(b, bs, be);
    let sep_needle = needle_for(run_element);
    let seps = element_positions(&block, &sep_needle);
    if seps.len() == 0 {
        return None;
    }
    let sep = seps[0];
    proof {
        lemma_element_scan_sound(block@, sep_needle@, 0);
        assert(seps@.map_values(|x: usize| x as int)[0] == sep as int);
    }
    let head = copy_range(&block, 0, sep);
    let run_needle: Vec<u8> = vec![0x3c, 'w' as u8, ':' as u8, 'r' as u8];
    assert(run_needle@ =~= element_needle(run_name()));
    let runs = element_positions(&head, &run_needle);
    if runs.len() == 0 {
        return None;
    }
    let rs = runs[runs.len() - 1];
    assert(runs@.map_values(|x: usize| x as int).last() == rs as int);
    let close: Vec<u8> = vec![0x3c, 0x2f, 'w' as u8, ':' as u8, 'r' as u8, 0x3e];
    assert(close@ =~= run_close());
    proof {
        lemma_find_from_bounds(block@, close@, sep as int);
        lemma_element_scan_sound(head@, run_needle@, 0);
        assert(runs@.map_values(|x: usize| x as int)[runs@.len() - 1] == rs as int);
    }
    match find_bytes(&block, &close, sep) {
        Some(p) => Some((bs + rs, bs + p + close.len())),
        None => None,
    }
}

/// `b` without the bytes from `s` to `e`.
fn remove_range(b: &[u8], s: usize, e: usize) -> (r: Vec<u8>)
    requires
        s <= e <= b@.len(),
    ensures
        r@ == b@.subrange(0, s as int) + b@.subrange(e as int, b@.len() as int),
{
    let mut r = copy_range(b, 0, s);
    append_range(&mut r, b, e, b.len());
    r
}

/// Removing a range that starts at a `<` and ends after a `>` keeps valid
/// UTF-8 valid.
pub proof fn lemma_removal_keeps_utf8(b: Seq<u8>, s: int, e: int)
    requires
        valid_utf8(b),
        0 <= s < e <= b.len(),
        b[s] == 0x3c,
        b[e - 1] == 0x3e,
    ensures
        valid_utf8(b.subrange(0, s) + b.subrange(e, b.len() as int)),
{
    lemma_valid_subrange(b, 0, s);
    lemma_after_ascii(b, e - 1);
    lemma_valid_subrange(b, e, b.len() as int);
    valid_utf8_concat(b.subrange(0, s), b.subrange(e, b.len() as int));
}

/// The part with the run of the special note removed, when there is one.
pub fn strip_run_bytes(b: &[u8], name: &[u8], note_type: &[u8], run_element: &[u8]) -> (r: Option<
    Vec<u8>,
>)
    ensures
        match r {
            Some(v) => strip_run(b@, name@, note_type@, run_element@) == Some(v@),
            None => strip_run(b@, name@, note_type@, run_element@) is None,
        },
        r matches Some(v) ==> (valid_utf8(b@) ==> valid_utf8(v@)),
{
    proof {
        lemma_run_removal_range(b@, name@, note_type@, run_element@);
        lemma_special_note_span(b@, name@, note_type@);
    }
    match find_run_removal(b, name, note_type, run_element) {
        Some((s, e)) => {
            proof {
                if valid_utf8(b@) {
                    lemma_removal_keeps_utf8(b@, s as int, e as int);
                }
            }
            Some(remove_range(b, s, e))
        },
        None => None,
    }
}


/// `separator`
pub open spec fn separator_type() -> Seq<u8> {
    seq!['s' as u8, 'e' as u8, 'p' as u8, 'a' as u8, 'r' as u8, 'a' as u8, 't' as u8, 'o' as u8, 'r' as u8]
}

/// `w:separator`
pub open spec fn separator_element() -> Seq<u8> {
    seq!['w' as u8, ':' as u8, 's' as u8, 'e' as u8, 'p' as u8, 'a' as u8, 'r' as u8, 'a' as u8, 't' as u8, 'o' as u8, 'r' as u8]
}

/// `continuationSeparator`
pub open spec fn continuation_type() -> Seq<u8> {
    seq!['c' as u8, 'o' as u8, 'n' as u8, 't' as u8, 'i' as u8, 'n' as u8, 'u' as u8, 'a' as u8, 't' as u8, 'i' as u8, 'o' as u8, 'n' as u8, 'S' as u8, 'e' as u8, 'p' as u8, 'a' as u8, 'r' as u8, 'a' as u8, 't' as u8, 'o' as u8, 'r' as u8]
}

/// `w:continuationSeparator`
pub open spec fn continuation_element() -> Seq<u8> {
    seq!['w' as u8, ':' as u8, 'c' as u8, 'o' as u8, 'n' as u8, 't' as u8, 'i' as u8, 'n' as u8, 'u' as u8, 'a' as u8, 't' as u8, 'i' as u8, 'o' as u8, 'n' as u8, 'S' as u8, 'e' as u8, 'p' as u8, 'a' as u8, 'r' as u8, 'a' as u8, 't' as u8, 'o' as u8, 'r' as u8]
}

fn separator_type_bytes() -> (r: Vec<u8>)
    ensures
        r@ == separator_type(),
{
    let r: Vec<u8> = vec!['s' as u8, 'e' as u8, 'p' as u8, 'a' as u8, 'r' as u8, 'a' as u8, 't' as u8, 'o' as u8, 'r' as u8];
    assert(r@ =~= separator_type());
    r
}

fn separator_element_bytes() -> (r: Vec<u8>)
    ensures
        r@ == separator_element(),
{
    let r: Vec<u8> = vec!['w' as u8, ':' as u8, 's' as u8, 'e' as u8, 'p' as u8, 'a' as u8, 'r' as u8, 'a' as u8, 't' as u8, 'o' as u8, 'r' as u8];
    assert(r@ =~= separator_element());
    r
}

fn continuation_type_bytes() -> (r: Vec<u8>)
    ensures
        r@ == continuation_type(),
{
    let r: Vec<u8> = vec!['c' as u8, 'o' as u8, 'n' as u8, 't' as u8, 'i' as u8, 'n' as u8, 'u' as u8, 'a' as u8, 't' as u8, 'i' as u8, 'o' as u8, 'n' as u8, 'S' as u8, 'e' as u8, 'p' as u8, 'a' as u8, 'r' as u8, 'a' as u8, 't' as u8, 'o' as u8, 'r' as u8];
    assert(r@ =~= continuation_type());
    r
}

fn continuation_element_bytes() -> (r: Vec<u8>)
    ensures
        r@ == continuation_element(),
{
    let r: Vec<u8> = vec!['w' as u8, ':' as u8, 'c' as u8, 'o' as u8, 'n' as u8, 't' as u8, 'i' as u8, 'n' as u8, 'u' as u8, 'a' as u8, 't' as u8, 'i' as u8, 'o' as u8, 'n' as u8, 'S' as u8, 'e' as u8, 'p' as u8, 'a' as u8, 'r' as u8, 'a' as u8, 't' as u8, 'o' as u8, 'r' as u8];
    assert(r@ =~= continuation_element());
    r
}

/// Both special notes of one part, emptied in turn: first the `separator`
/// note loses its `w:separator` run, then the `continuationSeparator` note
/// of the result loses its `w:continuationSeparator` run. `None` when there
/// was nothing to remove in either of them.
pub open spec fn strip_separators(b: Seq<u8>, name: Seq<u8>) -> Option<Seq<u8>> {
    let first = strip_run(b, name, separator_type(), separator_element());
    let source = match first {
        Some(x) => x,
        None => b,
    };
    match strip_run(source, name, continuation_type(), continuation_element()) {
        Some(x) => Some(x),
        None => first,
    }
}

/// Both special notes of one part, emptied in turn (on bytes).
pub fn strip_separator_bytes(b: &[u8], name: &[u8]) -> (r: Option<Vec<u8>>)
    ensures
        match r {
            Some(v) => strip_separators(b@, name@) == Some(v@),
            None => strip_separators(b@, name@) is None,
        },
        r matches Some(v) ==> (valid_utf8(b@) ==> valid_utf8(v@)),
{
    let first = strip_run_bytes(b, name, &separator_type_bytes(), &separator_element_bytes());
    let second = match &first {
        Some(x) => strip_run_bytes(
            x,
            name,
            &continuation_type_bytes(),
            &continuation_element_bytes(),
        ),
        None => strip_run_bytes(b, name, &continuation_type_bytes(), &continuation_element_bytes()),
    };
    match second {
        Some(x) => Some(x),
        None => first,
    }
}

/// Both special notes of one part, emptied in turn. Returns the edited XML,
/// or `None` when there was nothing to remove in either of them.
pub fn strip_separator_runs(xml: &str, note_element: &str) -> (r: Option<String>)
    ensures
        match strip_separators(xml.spec_bytes(), note_element.spec_bytes()) {
            Some(v) => r matches Some(s) && encode_utf8(s@) == v,
            None => r is None,
        },
{
    proof {
        encode_utf8_valid_utf8(xml@);
    }
    match strip_separator_bytes(xml.as_bytes(), note_element.as_bytes()) {
        Some(v) => Some(string_of_utf8(v)),
        None => None,
    }
}

} // verus!
