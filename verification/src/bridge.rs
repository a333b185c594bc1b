//! What the desktop bridge answers the editor: window titles, the
//! placeholder commands, and the listing of the media directory.
use vstd::prelude::*;
use crate::text::{
    chars_match_at, chars_of, decimal_chars, has_prefix, push_chars, push_str_chars,
    string_from_chars, u64_decimal_chars,
};

verus! {

/// The window title for the document called `name`.
pub fn window_title(name: &str) -> (r: String)
    ensures
        r@ == "Euro-Office Lite — "@ + name@,
{
    let mut out: Vec<char> = Vec::new();
    push_str_chars(&mut out, "Euro-Office Lite — ");
    push_str_chars(&mut out, name);
    string_from_chars(&out)
}

/// The mark in front of the title of a document with unsaved changes.
pub open spec fn modified_mark() -> Seq<char> {
    "● "@
}

/// `s.trim_start_matches(p)`: every leading repetition of `p` removed.
pub open spec fn strip_leading(s: Seq<char>, p: Seq<char>) -> Seq<char>
    decreases s.len(),
{
    if p.len() > 0 && has_prefix(s, p) {
        strip_leading(s.subrange(p.len() as int, s.len() as int), p)
    } else {
        s
    }
}

/// The title of a window currently titled `current`, once the editor
/// reports whether the document is modified: the mark goes in front when it
/// is, and is taken off when it is not.
pub open spec fn title_marked(current: Seq<char>, modified: bool) -> Seq<char> {
    let base = strip_leading(current, modified_mark());
    if modified {
        modified_mark() + base
    } else {
        base
    }
}

/// What is left after the leading marks are stripped starts with no mark,
/// and stripping a mark put in front gives the same.
proof fn lemma_strip_leading(s: Seq<char>, p: Seq<char>)
    requires
        p.len() > 0,
    ensures
        !has_prefix(strip_leading(s, p), p),
        strip_leading(p + s, p) == strip_leading(s, p),
        strip_leading(strip_leading(s, p), p) == strip_leading(s, p),
    decreases s.len(),
{
    if has_prefix(s, p) {
        lemma_strip_leading(s.subrange(p.len() as int, s.len() as int), p);
    }
    assert((p + s).subrange(0, p.len() as int) =~= p);
    assert((p + s).subrange(p.len() as int, (p + s).len() as int) =~= s);
}

/// The title reflects the last report only: marking a title as modified or
/// not, then reporting again, gives what the second report alone gives. In
/// particular the mark is never doubled and unmarking removes it.
pub proof fn law_title_follows_last_report(current: Seq<char>, first: bool, second: bool)
    ensures
        title_marked(title_marked(current, first), second) == title_marked(current, second),
        !has_prefix(title_marked(current, false), modified_mark()),
{
    reveal_strlit("● ");
    lemma_strip_leading(current, modified_mark());
    lemma_strip_leading(strip_leading(current, modified_mark()), modified_mark());
}

/// The window title once the modified state is known.
pub fn modified_title(current: &str, modified: bool) -> (r: String)
    ensures
        r@ == title_marked(current@, modified),
{
    let cs = chars_of(current);
    let mark = chars_of("● ");
    let mut start: usize = 0;
    proof {
        reveal_strlit("● ");
    }
    assert(mark@.len() == 2);
    assert(cs@.subrange(0, cs@.len() as int) =~= cs@);
    while chars_match_at(&cs, &mark, start)
        invariant
            start <= cs@.len(),
            cs@.len() == cs.len(),
            mark@ == modified_mark(),
            mark@.len() == 2,
            strip_leading(cs@, mark@) == strip_leading(cs@.subrange(start as int, cs@.len() as int), mark@),
        decreases cs@.len() - start,
    {
        let ghost rest = cs@.subrange(start as int, cs@.len() as int);
        assert(rest.subrange(0, 2) =~= cs@.subrange(start as int, start + 2));
        assert(rest.subrange(2, rest.len() as int) =~= cs@.subrange(start + 2, cs@.len() as int));
        start = start + 2;
    }
    let ghost rest = cs@.subrange(start as int, cs@.len() as int);
    assert(!has_prefix(rest, mark@)) by {
        if has_prefix(rest, mark@) {
            assert(rest.subrange(0, 2) =~= cs@.subrange(start as int, start + 2));
        }
    }
    let mut out: Vec<char> = Vec::new();
    if modified {
        push_chars(&mut out, &mark, 0, 2);
        assert(mark@.subrange(0, 2) =~= mark@);
    }
    push_chars(&mut out, &cs, start, cs.len());
    string_from_chars(&out)
}

/// The text `{:?}` gives an optional string.
pub uninterp spec fn debug_text_of_option(v: Option<Seq<char>>) -> Seq<char>;

/// `format!("{:?}", v)`. The derived `Debug` writes a unit variant as its
/// name, so `None` is written `None`; what it writes for `Some` (the string
/// quoted, with escapes) is left to the name.
#[verifier::external_body]
fn debug_option_string(v: &Option<String>) -> (r: String)
    ensures
        r@ == debug_text_of_option(
            match v {
                Some(s) => Some(s@),
                None => None,
            },
        ),
        v is None ==> r@ == "None"@,
{
    format!("{:?}", v)
}

/// The editor's generic command hook: the backend only echoes what it was
/// asked.
pub fn exec_command(cmd: String, param: Option<String>) -> (r: Result<String, String>)
    ensures
        r matches Ok(t) && t@ == "cmd:"@ + cmd@ + " param:"@ + debug_text_of_option(
            match param {
                Some(s) => Some(s@),
                None => None,
            },
        ),
{
    let mut out: Vec<char> = Vec::new();
    push_str_chars(&mut out, "cmd:");
    push_str_chars(&mut out, cmd.as_str());
    push_str_chars(&mut out, " param:");
    push_str_chars(&mut out, debug_option_string(&param).as_str());
    Ok(string_from_chars(&out))
}

/// Fonts are served from the font directory, not through the bridge: the
/// answer is always that there is nothing to load.
pub fn load_font(_name: String) -> (r: Result<Option<String>, String>)
    ensures
        r matches Ok(None),
{
    Ok(None)
}

/// One entry of the media listing: its name and size in bytes.
pub open spec fn media_entry_text(name: Seq<char>, size: u64) -> Seq<char> {
    name + "("@ + decimal_chars(size as int) + ")"@
}

/// The entries joined with `, `.
pub open spec fn media_entries_text(entries: Seq<(Seq<char>, u64)>) -> Seq<char>
    decreases entries.len(),
{
    if entries.len() == 0 {
        Seq::empty()
    } else if entries.len() == 1 {
        media_entry_text(entries[0].0, entries[0].1)
    } else {
        media_entries_text(entries.drop_last()) + ", "@ + media_entry_text(
            entries.last().0,
            entries.last().1,
        )
    }
}

/// The media directory as the bridge describes it: its entries with their
/// sizes, or a note that it is missing (`None`: the directory could not be
/// read).
pub fn media_listing(entries: &Option<Vec<(String, u64)>>) -> (r: String)
    ensures
        match entries {
            Some(es) => r@ == media_entries_text(es@.map_values(|e: (String, u64)| (e.0@, e.1))),
            None => r@ == "media/ not found"@,
        },
{
    match entries {
        None => string_from_chars(&chars_of("media/ not found")),
        Some(es) => {
            let ghost items = es@.map_values(|e: (String, u64)| (e.0@, e.1));
            let mut out: Vec<char> = Vec::new();
            let mut i: usize = 0;
            assert(items.subrange(0, 0) =~= Seq::<(Seq<char>, u64)>::empty());
            while i < es.len()
                invariant
                    i <= es@.len(),
                    items == es@.map_values(|e: (String, u64)| (e.0@, e.1)),
                    out@ == media_entries_text(items.subrange(0, i as int)),
                decreases es@.len() - i,
            {
                let ghost before = out@;
                if i > 0 {
                    push_str_chars(&mut out, ", ");
                }
                push_str_chars(&mut out, es[i].0.as_str());
                push_str_chars(&mut out, "(");
                let digits = u64_decimal_chars(es[i].1);
                push_chars(&mut out, &digits, 0, digits.len());
                assert(digits@.subrange(0, digits@.len() as int) =~= digits@);
                push_str_chars(&mut out, ")");
                let ghost next = items.subrange(0, i + 1);
                assert(next.drop_last() =~= items.subrange(0, i as int));
                assert(next.last() == items[i as int]);
                if i == 0 {
                    assert(out@ =~= media_entries_text(next));
                } else {
                    assert(out@ =~= media_entries_text(next));
                }
                i = i + 1;
            }
            assert(items.subrange(0, es@.len() as int) =~= items);
            string_from_chars(&out)
        },
    }
}

} // verus!
