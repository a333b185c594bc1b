//! Document formats as x2t numbers them, told from a path's extension.
use vstd::prelude::*;
use crate::text::{after_last, chars_of, has_prefix, occurs_in, str_eq};

verus! {

/// A path whose final component every platform reads alike: it holds no
/// `\\` (a separator on Windows only) and no `:` (a Windows drive prefix),
/// does not start with `//` (a Windows network prefix), and its text after
/// the last `/` is a name, neither empty nor `.` or `..`. That text is then
/// its final component, on Unix and on Windows.
pub open spec fn plain_path(path: Seq<char>) -> bool {
    let name = after_last(path, '/');
    &&& !path.contains('\\')
    &&& !path.contains(':')
    &&& !has_prefix(path, "//"@)
    &&& name.len() > 0
    &&& name != "."@
    &&& name != ".."@
}

/// The extension of a file name, as `Path::extension` documents it: none when
/// the name holds no `.` other than a leading one, else the text after its
/// last `.`.
pub open spec fn name_extension(name: Seq<char>) -> Option<Seq<char>> {
    if exists|i: int| 1 <= i < name.len() && #[trigger] name[i] == '.' {
        Some(after_last(name, '.'))
    } else {
        None
    }
}

/// The text of a path after its last `/` or `\\`.
pub open spec fn final_name(path: Seq<char>) -> Seq<char>
    decreases path.len(),
{
    if path.len() == 0 {
        path
    } else if path.last() == '/' || path.last() == '\\' {
        Seq::empty()
    } else {
        final_name(path.drop_last()).push(path.last())
    }
}

/// A path whose extension every platform reads alike: its text after the
/// last `/` or `\\` holds a `.` past its first character, holds no `:`, and
/// is not `..`, and the path does not start with two separators (a Windows
/// network or device prefix). On Unix, where `\\` is an ordinary character,
/// the file name may be longer, but its last `.` is the same one; on
/// Windows that text is the file name.
pub open spec fn clear_extension(path: Seq<char>) -> bool {
    let n = final_name(path);
    &&& !(path.len() >= 2 && (path[0] == '/' || path[0] == '\\') && (path[1] == '/' || path[1]
        == '\\'))
    &&& !n.contains(':')
    &&& n != ".."@
    &&& exists|i: int| 1 <= i < n.len() && #[trigger] n[i] == '.'
}

/// A path whose final component is a name on every platform: its text after
/// the last `/` or `\\` is neither empty nor `.` or `..` and holds no `:`, and
/// the path does not start with two separators (a Windows network or device
/// prefix). On Windows that text is its file name; on Unix, where `\\` is an
/// ordinary character, its file name is the text after the last `/`.
pub open spec fn clear_name(path: Seq<char>) -> bool {
    let n = final_name(path);
    &&& !(path.len() >= 2 && (path[0] == '/' || path[0] == '\\') && (path[1] == '/' || path[1]
        == '\\'))
    &&& n.len() > 0
    &&& !n.contains(':')
    &&& n != "."@
    &&& n != ".."@
}

/// The extension of a path with a clear one (see `clear_extension`): the
/// text after the last `.`.
pub open spec fn clear_extension_of(path: Seq<char>) -> Seq<char> {
    after_last(final_name(path), '.')
}

/// `Path::extension`, as a string. Its documentation: `None` when there is no
/// file name, no embedded `.`, or the file name begins with `.` and has no
/// other `.`; otherwise the portion of the file name after the final `.`.
/// What the file name is depends on the platform's separators and prefixes,
/// so what is stated is what holds on every platform: for plain paths (see
/// `plain_path`) the extension of their text after the last `/`; for a path
/// with a clear extension (see `clear_extension`), Windows ones among them,
/// the text after its last `.`; of any path, that the extension holds no `.`
/// and stands in the path right after a `.`.
#[verifier::external_body]
pub(crate) fn path_extension(path: &str) -> (r: Option<String>)
    ensures
        r matches Some(e) ==> !e@.contains('.') && occurs_in(path@, seq!['.'] + e@),
        plain_path(path@) ==> match r {
            Some(e) => name_extension(after_last(path@, '/')) == Some(e@),
            None => name_extension(after_last(path@, '/')) is None,
        },
        match r {
            Some(e) => clear_extension(path@) ==> e@ == clear_extension_of(path@),
            None => !clear_extension(path@),
        },
{
    std::path::Path::new(path).extension().and_then(|e| e.to_str()).map(|e| e.to_string())
}

/// `Path::file_name`, as a string. Its documentation: the final component of
/// the path, `None` when the path ends in `..`. For a plain path (see
/// `plain_path`) that is its text after the last `/`; of any other path what
/// is stated holds everywhere: the name is not empty, not `.` or `..`, and
/// stands in the path. For a path with a clear name (see `clear_name`) there
/// is one, and it is the text after the last `/` (Unix) or after the last `/`
/// or `\\` (Windows).
#[verifier::external_body]
pub(crate) fn path_file_name(path: &str) -> (r: Option<String>)
    ensures
        r matches Some(n) ==> n@.len() > 0 && n@ != "."@ && n@ != ".."@ && occurs_in(path@, n@),
        match r {
            Some(n) => plain_path(path@) ==> n@ == after_last(path@, '/'),
            None => !plain_path(path@),
        },
        match r {
            Some(n) => clear_name(path@) ==> (n@ == after_last(path@, '/') || n@ == final_name(
                path@,
            )),
            None => !clear_name(path@),
        },
{
    std::path::Path::new(path).file_name().map(|n| n.to_string_lossy().to_string())
}

/// The file name a path may have: one that is not empty, not `.` or `..`,
/// and stands in the path, or none.
pub open spec fn possible_file_name(path: Seq<char>, name: Option<Seq<char>>) -> bool {
    name matches Some(n) ==> n.len() > 0 && n != "."@ && n != ".."@ && occurs_in(path, n)
}

/// The extension a path may have: one holding no `.` that stands in the path
/// right after a `.`, or none.
pub open spec fn possible_extension(path: Seq<char>, ext: Option<Seq<char>>) -> bool {
    ext matches Some(e) ==> !e.contains('.') && occurs_in(path, seq!['.'] + e)
}

/// x2t's number for the document format with this extension; 0 for an
/// unknown one. Extensions are matched exactly, in lower case.
pub open spec fn format_code(ext: Option<Seq<char>>) -> i32 {
    match ext {
        Some(e) => if e == "docx"@ {
            65
        } else if e == "doc"@ {
            66
        } else if e == "odt"@ {
            67
        } else if e == "rtf"@ {
            68
        } else if e == "txt"@ {
            69
        } else if e == "xlsx"@ {
            257
        } else if e == "xls"@ {
            258
        } else if e == "ods"@ {
            259
        } else if e == "csv"@ {
            260
        } else if e == "pptx"@ {
            129
        } else if e == "ppt"@ {
            130
        } else if e == "odp"@ {
            131
        } else if e == "pdf"@ {
            513
        } else {
            0
        },
        None => 0,
    }
}

/// x2t's numbering of the document formats, as a table: DOCX 65, DOC 66,
/// ODT 67, RTF 68, TXT 69, XLSX 257, XLS 258, ODS 259, CSV 260, PPTX 129,
/// PPT 130, ODP 131, PDF 513. Two different extensions never share a number,
/// and an extension outside the table has none (0).
pub proof fn law_format_numbers(e1: Seq<char>, e2: Seq<char>)
    ensures
        format_code(Some(seq!['d', 'o', 'c', 'x'])) == 65,
        format_code(Some(seq!['d', 'o', 'c'])) == 66,
        format_code(Some(seq!['o', 'd', 't'])) == 67,
        format_code(Some(seq!['r', 't', 'f'])) == 68,
        format_code(Some(seq!['t', 'x', 't'])) == 69,
        format_code(Some(seq!['x', 'l', 's', 'x'])) == 257,
        format_code(Some(seq!['x', 'l', 's'])) == 258,
        format_code(Some(seq!['o', 'd', 's'])) == 259,
        format_code(Some(seq!['c', 's', 'v'])) == 260,
        format_code(Some(seq!['p', 'p', 't', 'x'])) == 129,
        format_code(Some(seq!['p', 'p', 't'])) == 130,
        format_code(Some(seq!['o', 'd', 'p'])) == 131,
        format_code(Some(seq!['p', 'd', 'f'])) == 513,
        format_code(None) == 0,
        format_code(Some(e1)) != 0 && format_code(Some(e1)) == format_code(Some(e2)) ==> e1 == e2,
{
    reveal_strlit("docx");
    assert("docx"@ =~= seq!['d', 'o', 'c', 'x']);
    reveal_strlit("doc");
    assert("doc"@ =~= seq!['d', 'o', 'c']);
    reveal_strlit("odt");
    assert("odt"@ =~= seq!['o', 'd', 't']);
    reveal_strlit("rtf");
    assert("rtf"@ =~= seq!['r', 't', 'f']);
    reveal_strlit("txt");
    assert("txt"@ =~= seq!['t', 'x', 't']);
    reveal_strlit("xlsx");
    assert("xlsx"@ =~= seq!['x', 'l', 's', 'x']);
    reveal_strlit("xls");
    assert("xls"@ =~= seq!['x', 'l', 's']);
    reveal_strlit("ods");
    assert("ods"@ =~= seq!['o', 'd', 's']);
    reveal_strlit("csv");
    assert("csv"@ =~= seq!['c', 's', 'v']);
    reveal_strlit("pptx");
    assert("pptx"@ =~= seq!['p', 'p', 't', 'x']);
    reveal_strlit("ppt");
    assert("ppt"@ =~= seq!['p', 'p', 't']);
    reveal_strlit("odp");
    assert("odp"@ =~= seq!['o', 'd', 'p']);
    reveal_strlit("pdf");
    assert("pdf"@ =~= seq!['p', 'd', 'f']);
}

/// The editor's own internal format.
pub const EDITOR_FORMAT: i32 = 8192;

/// PDF.
pub const PDF_FORMAT: i32 = 513;

/// x2t's number for the format with extension `ext`.
pub fn format_of_extension(ext: Option<&str>) -> (r: i32)
    ensures
        r == format_code(match ext {
            Some(e) => Some(e@),
            None => None,
        }),
{
    match ext {
        None => 0,
        Some(e) => if str_eq(e, "docx") {
            65
        } else if str_eq(e, "doc") {
            66
        } else if str_eq(e, "odt") {
            67
        } else if str_eq(e, "rtf") {
            68
        } else if str_eq(e, "txt") {
            69
        } else if str_eq(e, "xlsx") {
            257
        } else if str_eq(e, "xls") {
            258
        } else if str_eq(e, "ods") {
            259
        } else if str_eq(e, "csv") {
            260
        } else if str_eq(e, "pptx") {
            129
        } else if str_eq(e, "ppt") {
            130
        } else if str_eq(e, "odp") {
            131
        } else if str_eq(e, "pdf") {
            513
        } else {
            0
        },
    }
}

/// `code` is x2t's number for the format of `path` under an extension the
/// path may have.
pub open spec fn possible_format(path: Seq<char>, code: i32) -> bool {
    exists|ext: Option<Seq<char>>| #[trigger] possible_extension(path, ext) && code == format_code(ext)
}

/// x2t's number for the format of the document at `path`, told from its
/// extension (as `Path::extension` reads it; see `path_extension`).
pub fn detect_format(path: &str) -> (r: i32)
    ensures
        possible_format(path@, r),
        plain_path(path@) ==> r == format_code(name_extension(after_last(path@, '/'))),
        clear_extension(path@) ==> r == format_code(Some(clear_extension_of(path@))),
{
    let ext = path_extension(path);
    let ghost e = match &ext {
        Some(x) => Some(x@),
        None => None,
    };
    let r = match &ext {
        Some(x) => format_of_extension(Some(x.as_str())),
        None => format_of_extension(None),
    };
    assert(possible_extension(path@, e) && r == format_code(e));
    r
}

/// ASCII letters folded to lower case, everything else kept.
pub open spec fn ascii_lower(c: char) -> char {
    if 'A' <= c <= 'Z' {
        ((c as u8) + 32) as char
    } else {
        c
    }
}

/// `str::eq_ignore_ascii_case`.
pub open spec fn equal_ignoring_ascii_case(a: Seq<char>, b: Seq<char>) -> bool {
    a.len() == b.len() && forall|i: int| 0 <= i < a.len() ==> ascii_lower(#[trigger] a[i]) == ascii_lower(
        b[i],
    )
}

fn lower_char(c: char) -> (r: char)
    ensures
        r == ascii_lower(c),
{
    if 'A' <= c && c <= 'Z' {
        ((c as u8) + 32) as char
    } else {
        c
    }
}

/// `a.eq_ignore_ascii_case(b)`.
pub fn eq_ignore_ascii_case(a: &str, b: &str) -> (r: bool)
    ensures
        r == equal_ignoring_ascii_case(a@, b@),
{
    let ca = chars_of(a);
    let cb = chars_of(b);
    if ca.len() != cb.len() {
        return false;
    }
    let mut i: usize = 0;
    while i < ca.len()
        invariant
            ca@ == a@,
            cb@ == b@,
            ca@.len() == cb@.len(),
            i <= ca@.len(),
            forall|j: int| 0 <= j < i ==> ascii_lower(#[trigger] ca@[j]) == ascii_lower(cb@[j]),
        decreases ca@.len() - i,
    {
        if lower_char(ca[i]) != lower_char(cb[i]) {
            return false;
        }
        i = i + 1;
    }
    true
}

/// An extension names a Word document, in any letter case.
pub open spec fn docx_extension(ext: Option<Seq<char>>) -> bool {
    ext matches Some(e) && equal_ignoring_ascii_case(e, "docx"@)
}

/// Whether the extension `ext` names a Word document, in any letter case.
pub fn is_docx_extension(ext: Option<&str>) -> (r: bool)
    ensures
        r == docx_extension(match ext {
            Some(e) => Some(e@),
            None => None,
        }),
{
    match ext {
        Some(e) => eq_ignore_ascii_case(e, "docx"),
        None => false,
    }
}

/// Whether the document at `path` is a Word document, told from its
/// extension in any letter case.
pub fn is_docx(path: &str) -> (r: bool)
    ensures
        exists|ext: Option<Seq<char>>| possible_extension(path@, ext) && r == docx_extension(ext),
        plain_path(path@) ==> r == docx_extension(name_extension(after_last(path@, '/'))),
        clear_extension(path@) ==> r == docx_extension(Some(clear_extension_of(path@))),
{
    let ext = path_extension(path);
    let ghost e = match &ext {
        Some(x) => Some(x@),
        None => None,
    };
    let r = match &ext {
        Some(x) => is_docx_extension(Some(x.as_str())),
        None => is_docx_extension(None),
    };
    assert(possible_extension(path@, e) && r == docx_extension(e));
    r
}

} // verus!
