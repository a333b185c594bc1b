//! The state of the open document and the decisions the file commands make
//! about it: which file a save goes to, what a save-as or a new document
//! does to the current file, which template a new document starts from.
use vstd::prelude::*;
use vstd::string::*;
use crate::formats::{clear_extension, clear_extension_of, is_docx, possible_extension, docx_extension, name_extension, plain_path, PDF_FORMAT};
use crate::text::after_last;
use crate::package::{NOT_DOCX, NO_FILE};
use crate::platform::Platform;
use crate::text::{replace_char, replace_char_spec, i64_decimal_chars, push_chars, push_str_chars, str_eq, string_from_chars, join2, decimal_chars};

verus! {

/// The backend's state: the document on disk the editor has open (none for
/// a new document never saved), the working directory of this run, and
/// whether the editor holds unsaved changes.
pub struct AppState {
    pub current_file: Option<String>,
    pub temp_dir: String,
    pub modified: bool,
}

impl AppState {
    /// The state at start-up: no document, nothing modified.
    pub fn new(temp_dir: String) -> (r: AppState)
        ensures
            r.current_file is None,
            r.temp_dir == temp_dir,
            !r.modified,
    {
        AppState { current_file: None, temp_dir, modified: false }
    }

    /// A document was opened from `path`: it becomes the current file, with
    /// nothing modified.
    pub fn document_opened(&mut self, path: String)
        ensures
            final(self).current_file == Some(path),
            !final(self).modified,
            final(self).temp_dir == old(self).temp_dir,
    {
        self.current_file = Some(path);
        self.modified = false;
    }

    /// Where a save writes: the current file; an error when there is none.
    pub fn save_target(&self) -> (r: Result<String, String>)
        ensures
            match self.current_file {
                Some(p) => r matches Ok(t) && t@ == p@,
                None => r matches Err(m) && m@ == "No file is currently open"@,
            },
    {
        match &self.current_file {
            Some(p) => {
                let t = string_from_chars(&crate::text::chars_of(p.as_str()));
                assert(t@ == p@);
                Ok(t)
            },
            None => Err(String::from_str("No file is currently open")),
        }
    }

    /// A save went through: nothing is modified any more.
    pub fn document_saved(&mut self)
        ensures
            final(self).current_file == old(self).current_file,
            !final(self).modified,
            final(self).temp_dir == old(self).temp_dir,
    {
        self.modified = false;
    }

    /// A save-as to `dest` in format `format_to` went through. The new file
    /// becomes the current one, except for a PDF export, after which the
    /// editor still edits the document it had.
    pub fn document_saved_as(&mut self, dest: String, format_to: i32)
        ensures
            final(self).current_file == if format_to != PDF_FORMAT {
                Some(dest)
            } else {
                old(self).current_file
            },
            !final(self).modified,
            final(self).temp_dir == old(self).temp_dir,
    {
        if format_to != PDF_FORMAT {
            self.current_file = Some(dest);
        }
        self.modified = false;
    }

    /// The editor reports whether it holds unsaved changes.
    pub fn set_modified(&mut self, modified: bool)
        ensures
            final(self).modified == modified,
            final(self).current_file == old(self).current_file,
            final(self).temp_dir == old(self).temp_dir,
    {
        self.modified = modified;
    }

    /// Closing the window asks for confirmation exactly when the editor holds
    /// unsaved changes.
    pub fn close_needs_confirmation(&self) -> (r: bool)
        ensures
            r == self.modified,
    {
        self.modified
    }

    /// A new document from a template: there is no file on disk for it, and
    /// nothing is modified.
    pub fn forget_document(&mut self)
        ensures
            final(self).current_file is None,
            !final(self).modified,
            final(self).temp_dir == old(self).temp_dir,
    {
        self.current_file = None;
        self.modified = false;
    }
}

/// The path of the document being edited, if it has one.
pub fn get_current_path(state: &AppState) -> (r: Option<String>)
    ensures
        match state.current_file {
            Some(p) => r matches Some(q) && q@ == p@,
            None => r is None,
        },
{
    match &state.current_file {
        Some(p) => Some(string_from_chars(&crate::text::chars_of(p.as_str()))),
        None => None,
    }
}

/// A save-as to PDF clears the recorded changes first, so the export
/// renders the document as it stands.
pub fn save_as_clears_changes(format_to: i32) -> (r: bool)
    ensures
        r == (format_to == PDF_FORMAT),
{
    format_to == PDF_FORMAT
}

/// The template a new document of kind `doc_type` starts from.
pub fn template_for(doc_type: &str) -> (r: Result<&'static str, String>)
    ensures
        doc_type@ == "word"@ ==> (r matches Ok(t) && t@ == "templates/blank.docx"@),
        doc_type@ == "cell"@ ==> (r matches Ok(t) && t@ == "templates/blank.xlsx"@),
        doc_type@ == "slide"@ ==> (r matches Ok(t) && t@ == "templates/blank.pptx"@),
        doc_type@ != "word"@ && doc_type@ != "cell"@ && doc_type@ != "slide"@ ==> (r matches Err(m)
            && m@ == "Unknown type: "@ + doc_type@),
{
    proof {
        reveal_strlit("word");
        reveal_strlit("cell");
        reveal_strlit("slide");
        assert("cell"@[0] != "word"@[0]);
        assert("slide"@.len() != "word"@.len());
        assert("slide"@.len() != "cell"@.len());
    }
    if str_eq(doc_type, "word") {
        Ok("templates/blank.docx")
    } else if str_eq(doc_type, "cell") {
        Ok("templates/blank.xlsx")
    } else if str_eq(doc_type, "slide") {
        Ok("templates/blank.pptx")
    } else {
        Err(join2("Unknown type: ", doc_type))
    }
}

/// The file the editor's change number `count` is recorded in.
pub fn change_file_name(count: i32) -> (r: String)
    ensures
        r@ == "change_"@ + decimal_chars(count as int) + ".json"@,
{
    let mut out: Vec<char> = Vec::new();
    push_str_chars(&mut out, "change_");
    let digits = i64_decimal_chars(count as i64);
    push_chars(&mut out, &digits, 0, digits.len());
    assert(digits@.subrange(0, digits@.len() as int) =~= digits@);
    push_str_chars(&mut out, ".json");
    string_from_chars(&out)
}

/// Before removing the note separators: the file to operate on, or the
/// answer when there is none (`NO_FILE` for a document never saved,
/// `NOT_DOCX` for a file that is not a Word document).
pub fn note_separator_target(state: &AppState) -> (r: Result<String, &'static str>)
    ensures
        state.current_file is None ==> r == Err::<String, &'static str>(NO_FILE),
        state.current_file matches Some(p) ==> (exists|ext: Option<Seq<char>>|
            possible_extension(p@, ext) && (r is Ok <==> docx_extension(ext))),
        state.current_file matches Some(p) ==> (r matches Ok(t) ==> t@ == p@),
        state.current_file matches Some(p) ==> (plain_path(p@) ==> (r is Ok <==> docx_extension(
            name_extension(after_last(p@, '/')),
        ))),
        state.current_file matches Some(p) ==> (clear_extension(p@) ==> (r is Ok <==> docx_extension(
            Some(clear_extension_of(p@)),
        ))),
        r matches Err(code) ==> code == NO_FILE || code == NOT_DOCX,
{
    match &state.current_file {
        None => Err(NO_FILE),
        Some(p) => {
            if is_docx(p.as_str()) {
                Ok(string_from_chars(&crate::text::chars_of(p.as_str())))
            } else {
                Err(NOT_DOCX)
            }
        },
    }
}

/// What printing answers once the document is rendered: the PDF's path, or
/// an error when the rendered file is empty.
pub fn print_outcome(pdf_size: u64, pdf_path: &str) -> (r: Result<String, String>)
    ensures
        pdf_size == 0 ==> (r matches Err(m) && m@ == "PDF file is empty"@),
        pdf_size > 0 ==> (r matches Ok(p) && p@ == pdf_path@),
{
    if pdf_size == 0 {
        Err(String::from_str("PDF file is empty"))
    } else {
        Ok(string_from_chars(&crate::text::chars_of(pdf_path)))
    }
}

/// The asset URL under which an image of an inserted document is served:
/// `ascdesktop://abs/` and its path with forward slashes.
pub fn insert_image_url(path: &str) -> (r: String)
    ensures
        r@ == "ascdesktop://abs/"@ + replace_char_spec(path@, '\\', '/'),
{
    join2("ascdesktop://abs/", replace_char(path, '\\', '/').as_str())
}

/// The document to open at start-up, from the first command-line argument
/// (a file association or a command line): the argument when it is not an
/// option (it does not start with `-`) and names an existing file.
pub fn launch_document(arg: Option<&str>, exists: bool) -> (r: Option<String>)
    ensures
        match arg {
            Some(a) => if a@.len() > 0 && a@[0] == '-' || !exists {
                r is None
            } else {
                r matches Some(p) && p@ == a@
            },
            None => r is None,
        },
{
    match arg {
        None => None,
        Some(a) => {
            let cs = crate::text::chars_of(a);
            if cs.len() > 0 && cs[0] == '-' || !exists {
                None
            } else {
                Some(string_from_chars(&cs))
            }
        },
    }
}

/// The command that opens a PDF in the system viewer: `cmd /c start` on
/// Windows, `open` on macOS, `xdg-open` elsewhere; the program and its
/// arguments.
pub fn viewer_command(platform: Platform, path: &str) -> (r: (String, Vec<String>))
    ensures
        match platform {
            Platform::Windows => r.0@ == "cmd"@ && r.1@.len() == 4 && r.1@[0]@ == "/c"@ && r.1@[1]@
                == "start"@ && r.1@[2]@ == ""@ && r.1@[3]@ == path@,
            Platform::MacOs => r.0@ == "open"@ && r.1@.len() == 1 && r.1@[0]@ == path@,
            Platform::Linux => r.0@ == "xdg-open"@ && r.1@.len() == 1 && r.1@[0]@ == path@,
        },
{
    let p = string_from_chars(&crate::text::chars_of(path));
    let mut args: Vec<String> = Vec::new();
    proof {
        reveal_strlit("");
    }
    match platform {
        Platform::Windows => {
            args.push(String::from_str("/c"));
            args.push(String::from_str("start"));
            args.push(String::new());
            args.push(p);
            (String::from_str("cmd"), args)
        },
        Platform::MacOs => {
            args.push(p);
            (String::from_str("open"), args)
        },
        Platform::Linux => {
            args.push(p);
            (String::from_str("xdg-open"), args)
        },
    }
}

} // verus!
