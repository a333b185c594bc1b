//! Decisions around the x2t converter: recognising its executable, choosing
//! the runtime files to stage, and the task files it is given.
use vstd::prelude::*;
use crate::platform::Platform;
use crate::text::{
    chars_of, decimal_chars, join2, join4, has_prefix, has_suffix, i64_decimal_chars, occurs_in, push_chars,
    push_str_chars, replace_char, replace_char_spec, str_contains, str_contains_char, str_ends_with,
    str_eq, str_starts_with, string_from_chars,
};

verus! {

/// The file name of an x2t executable: on Windows `x2t.exe` or an `x2t-`
/// build ending in `.exe`; elsewhere `x2t` or an `x2t-` build without an
/// extension.
pub open spec fn names_x2t_binary(name: Seq<char>, platform: Platform) -> bool {
    if platform == Platform::Windows {
        (has_prefix(name, "x2t-"@) || name == "x2t.exe"@) && has_suffix(name, ".exe"@)
    } else {
        (has_prefix(name, "x2t-"@) && !name.contains('.')) || name == "x2t"@
    }
}

/// Whether `name` is the file name of an x2t executable on `platform`.
pub fn is_x2t_binary(name: &str, platform: Platform) -> (r: bool)
    ensures
        r == names_x2t_binary(name@, platform),
{
    match platform {
        Platform::Windows => (str_starts_with(name, "x2t-") || str_eq(name, "x2t.exe"))
            && str_ends_with(name, ".exe"),
        _ => (str_starts_with(name, "x2t-") && !str_contains_char(name, '.')) || str_eq(name, "x2t"),
    }
}

/// A file of the binaries directory that the Linux work directory links in:
/// shared objects, data files and the package configuration.
pub open spec fn linux_runtime_dependency(name: Seq<char>) -> bool {
    has_suffix(name, ".so"@) || occurs_in(name, ".so."@) || has_suffix(name, ".dat"@) || name
        == "package.config"@
}

/// Whether the Linux work directory links `name` in from the binaries
/// directory.
pub fn is_linux_runtime_dependency(name: &str) -> (r: bool)
    ensures
        r == linux_runtime_dependency(name@),
{
    str_ends_with(name, ".so") || str_contains(name, ".so.") || str_ends_with(name, ".dat")
        || str_eq(name, "package.config")
}

/// A file of the binaries directory that the macOS work directory copies:
/// dynamic libraries, data files and every configuration but the renderer's,
/// which is written fresh.
pub open spec fn macos_runtime_dependency(name: Seq<char>) -> bool {
    has_suffix(name, ".dylib"@) || has_suffix(name, ".dat"@) || (has_suffix(name, ".config"@) && name
        != "DoctRenderer.config"@)
}

/// Whether the macOS work directory copies `name` from the binaries
/// directory.
pub fn is_macos_runtime_dependency(name: &str) -> (r: bool)
    ensures
        r == macos_runtime_dependency(name@),
{
    str_ends_with(name, ".dylib") || str_ends_with(name, ".dat") || (str_ends_with(name, ".config")
        && !str_eq(name, "DoctRenderer.config"))
}

/// The Windows extended-length prefix `\\?\`.
pub open spec fn extended_prefix() -> Seq<char> {
    "\\\\?\\"@
}

/// A path without the Windows extended-length prefix, which x2t does not
/// understand.
pub fn strip_extended_prefix(path: &str) -> (r: String)
    ensures
        r@ == if has_prefix(path@, extended_prefix()) {
            path@.subrange(extended_prefix().len() as int, path@.len() as int)
        } else {
            path@
        },
{
    let prefix = "\\\\?\\";
    if str_starts_with(path, prefix) {
        let cs = chars_of(path);
        let k = chars_of(prefix).len();
        let mut out: Vec<char> = Vec::new();
        push_chars(&mut out, &cs, k, cs.len());
        assert(out@ =~= path@.subrange(extended_prefix().len() as int, path@.len() as int));
        string_from_chars(&out)
    } else {
        string_from_chars(&chars_of(path))
    }
}

/// A path with its backslashes turned into forward slashes.
pub open spec fn forward_slashes(s: Seq<char>) -> Seq<char> {
    replace_char_spec(s, '\\', '/')
}

/// The task file x2t is given to convert `input` into `output` in the format
/// `format_to`, with `temp_dir` as its scratch directory. Backslashes in the
/// paths become forward slashes.
pub open spec fn convert_params(
    input: Seq<char>,
    output: Seq<char>,
    format_to: int,
    temp_dir: Seq<char>,
) -> Seq<char> {
    "<?xml version=\"1.0\" encoding=\"utf-8\"?>\n<TaskQueueDataConvert xmlns:xsi=\"http://www.w3.org/2001/XMLSchema-instance\"\n                      xmlns:xsd=\"http://www.w3.org/2001/XMLSchema\">\n<m_sFileFrom>"@
        + forward_slashes(input) + "</m_sFileFrom>\n<m_sFileTo>"@ + forward_slashes(output)
        + "</m_sFileTo>\n<m_nFormatTo>"@ + decimal_chars(format_to) + "</m_nFormatTo>\n<m_sTempDir>"@
        + forward_slashes(temp_dir) + "</m_sTempDir>\n</TaskQueueDataConvert>"@
}

/// The task file for a conversion between the editor's format and a
/// document format.
pub fn convert_params_xml(input: &str, output: &str, format_to: i32, temp_dir: &str) -> (r: String)
    ensures
        r@ == convert_params(input@, output@, format_to as int, temp_dir@),
{
    let mut out: Vec<char> = Vec::new();
    push_str_chars(
        &mut out,
        "<?xml version=\"1.0\" encoding=\"utf-8\"?>\n<TaskQueueDataConvert xmlns:xsi=\"http://www.w3.org/2001/XMLSchema-instance\"\n                      xmlns:xsd=\"http://www.w3.org/2001/XMLSchema\">\n<m_sFileFrom>",
    );
    push_str_chars(&mut out, replace_char(input, '\\', '/').as_str());
    push_str_chars(&mut out, "</m_sFileFrom>\n<m_sFileTo>");
    push_str_chars(&mut out, replace_char(output, '\\', '/').as_str());
    push_str_chars(&mut out, "</m_sFileTo>\n<m_nFormatTo>");
    let digits = i64_decimal_chars(format_to as i64);
    push_chars(&mut out, &digits, 0, digits.len());
    assert(digits@.subrange(0, digits@.len() as int) =~= digits@);
    push_str_chars(&mut out, "</m_nFormatTo>\n<m_sTempDir>");
    push_str_chars(&mut out, replace_char(temp_dir, '\\', '/').as_str());
    push_str_chars(&mut out, "</m_sTempDir>\n</TaskQueueDataConvert>");
    string_from_chars(&out)
}

/// The task file x2t is given to render `input` to the PDF `output`, with
/// fonts embedded from `fonts_dir` and the font index `all_fonts`. The two
/// font paths get forward slashes; the document paths are passed as they are.
pub open spec fn pdf_params(
    input: Seq<char>,
    output: Seq<char>,
    fonts_dir: Seq<char>,
    all_fonts: Seq<char>,
) -> Seq<char> {
    "<?xml version=\"1.0\" encoding=\"utf-8\"?>\n<TaskQueueDataConvert xmlns:xsi=\"http://www.w3.org/2001/XMLSchema-instance\"\n                      xmlns:xsd=\"http://www.w3.org/2001/XMLSchema\">\n<m_sFileFrom>"@
        + input + "</m_sFileFrom>\n<m_sFileTo>"@ + output
        + "</m_sFileTo>\n<m_nFormatTo>513</m_nFormatTo>\n<m_bEmbeddedFonts>true</m_bEmbeddedFonts>\n<m_sFontDir>"@
        + forward_slashes(fonts_dir) + "</m_sFontDir>\n<m_sAllFontsPath>"@ + forward_slashes(all_fonts)
        + "</m_sAllFontsPath>\n</TaskQueueDataConvert>"@
}

/// The task file for a PDF rendering.
pub fn pdf_params_xml(input: &str, output: &str, fonts_dir: &str, all_fonts: &str) -> (r: String)
    ensures
        r@ == pdf_params(input@, output@, fonts_dir@, all_fonts@),
{
    let mut out: Vec<char> = Vec::new();
    push_str_chars(
        &mut out,
        "<?xml version=\"1.0\" encoding=\"utf-8\"?>\n<TaskQueueDataConvert xmlns:xsi=\"http://www.w3.org/2001/XMLSchema-instance\"\n                      xmlns:xsd=\"http://www.w3.org/2001/XMLSchema\">\n<m_sFileFrom>",
    );
    push_str_chars(&mut out, input);
    push_str_chars(&mut out, "</m_sFileFrom>\n<m_sFileTo>");
    push_str_chars(&mut out, output);
    push_str_chars(
        &mut out,
        "</m_sFileTo>\n<m_nFormatTo>513</m_nFormatTo>\n<m_bEmbeddedFonts>true</m_bEmbeddedFonts>\n<m_sFontDir>",
    );
    push_str_chars(&mut out, replace_char(fonts_dir, '\\', '/').as_str());
    push_str_chars(&mut out, "</m_sFontDir>\n<m_sAllFontsPath>");
    push_str_chars(&mut out, replace_char(all_fonts, '\\', '/').as_str());
    push_str_chars(&mut out, "</m_sAllFontsPath>\n</TaskQueueDataConvert>");
    string_from_chars(&out)
}

/// How the PDF renderer's runtime is laid out on each platform: Windows runs
/// x2t in place, macOS and Linux build a work directory.
pub fn runtime_strategy(platform: Platform) -> (r: &'static str)
    ensures
        r@ == match platform {
            Platform::Windows => "windows-direct"@,
            Platform::MacOs => "macos-workdir"@,
            Platform::Linux => "linux-workdir"@,
        },
{
    match platform {
        Platform::Windows => "windows-direct",
        Platform::MacOs => "macos-workdir",
        Platform::Linux => "linux-workdir",
    }
}

/// The renderer configuration for a runtime whose editors directory is the
/// parent of the directory x2t runs in (the macOS and Linux work directories).
pub const DOCTRENDERER_CONFIG_PARENT: &'static str = "<Settings>\n<file>../editors/sdkjs/common/Native/native.js</file>\n<file>../editors/sdkjs/common/Native/jquery_native.js</file>\n<allfonts>../editors/sdkjs/common/AllFonts.js</allfonts>\n<file>../editors/web-apps/vendor/xregexp/xregexp-all-min.js</file>\n<sdkjs>../editors/sdkjs</sdkjs>\n<dictionaries>../dictionaries</dictionaries>\n<DoctSdk>\n<file>../editors/sdkjs/word/sdk-all-min.js</file>\n<file>../editors/sdkjs/common/libfont/engine/fonts_native.js</file>\n<file>../editors/sdkjs/word/sdk-all.js</file>\n</DoctSdk>\n<PpttSdk>\n<file>../editors/sdkjs/slide/sdk-all-min.js</file>\n<file>../editors/sdkjs/common/libfont/engine/fonts_native.js</file>\n<file>../editors/sdkjs/slide/sdk-all.js</file>\n</PpttSdk>\n<XlstSdk>\n<file>../editors/sdkjs/cell/sdk-all-min.js</file>\n<file>../editors/sdkjs/common/libfont/engine/fonts_native.js</file>\n<file>../editors/sdkjs/cell/sdk-all.js</file>\n</XlstSdk>\n</Settings>";

/// The renderer configuration for a runtime whose editors directory sits
/// beside the configuration (Windows, where it is written to the
/// application root).
pub const DOCTRENDERER_CONFIG_CURRENT: &'static str = "<Settings>\n<file>./editors/sdkjs/common/Native/native.js</file>\n<file>./editors/sdkjs/common/Native/jquery_native.js</file>\n<allfonts>./editors/sdkjs/common/AllFonts.js</allfonts>\n<file>./editors/web-apps/vendor/xregexp/xregexp-all-min.js</file>\n<sdkjs>./editors/sdkjs</sdkjs>\n<dictionaries>./dictionaries</dictionaries>\n<DoctSdk>\n<file>./editors/sdkjs/word/sdk-all-min.js</file>\n<file>./editors/sdkjs/common/libfont/engine/fonts_native.js</file>\n<file>./editors/sdkjs/word/sdk-all.js</file>\n</DoctSdk>\n<PpttSdk>\n<file>./editors/sdkjs/slide/sdk-all-min.js</file>\n<file>./editors/sdkjs/common/libfont/engine/fonts_native.js</file>\n<file>./editors/sdkjs/slide/sdk-all.js</file>\n</PpttSdk>\n<XlstSdk>\n<file>./editors/sdkjs/cell/sdk-all-min.js</file>\n<file>./editors/sdkjs/common/libfont/engine/fonts_native.js</file>\n<file>./editors/sdkjs/cell/sdk-all.js</file>\n</XlstSdk>\n</Settings>";

/// The renderer configuration each platform's runtime is given.
pub fn renderer_config(platform: Platform) -> (r: &'static str)
    ensures
        r == (if platform == Platform::Windows {
            DOCTRENDERER_CONFIG_CURRENT
        } else {
            DOCTRENDERER_CONFIG_PARENT
        }),
{
    match platform {
        Platform::Windows => DOCTRENDERER_CONFIG_CURRENT,
        _ => DOCTRENDERER_CONFIG_PARENT,
    }
}

/// The editor scripts the renderer loads, relative to the editors directory;
/// each must be a non-empty file before a PDF is rendered.
pub fn editor_resources() -> (r: Vec<&'static str>)
    ensures
        r@ == seq!["sdkjs/common/Native/native.js", "sdkjs/common/Native/jquery_native.js", "sdkjs/common/libfont/engine/fonts_native.js", "sdkjs/word/sdk-all-min.js", "sdkjs/word/sdk-all.js", "sdkjs/cell/sdk-all-min.js", "sdkjs/cell/sdk-all.js", "sdkjs/slide/sdk-all-min.js", "sdkjs/slide/sdk-all.js", "web-apps/vendor/xregexp/xregexp-all-min.js"],
{
    let mut r: Vec<&'static str> = Vec::new();
    r.push("sdkjs/common/Native/native.js");
    r.push("sdkjs/common/Native/jquery_native.js");
    r.push("sdkjs/common/libfont/engine/fonts_native.js");
    r.push("sdkjs/word/sdk-all-min.js");
    r.push("sdkjs/word/sdk-all.js");
    r.push("sdkjs/cell/sdk-all-min.js");
    r.push("sdkjs/cell/sdk-all.js");
    r.push("sdkjs/slide/sdk-all-min.js");
    r.push("sdkjs/slide/sdk-all.js");
    r.push("web-apps/vendor/xregexp/xregexp-all-min.js");
    r
}

/// The error for an editor script that is missing or empty.
pub fn missing_resource_message(path: &str) -> (r: String)
    ensures
        r@ == "Missing or empty DoctRenderer resource: "@ + path@,
{
    join2("Missing or empty DoctRenderer resource: ", path)
}

/// The font index a PDF rendering uses: the generated one when it is a
/// non-empty file, else the bundled one when that is, else an error naming
/// both.
pub fn choose_all_fonts(
    generated: &str,
    generated_usable: bool,
    bundled: &str,
    bundled_usable: bool,
) -> (r: Result<String, String>)
    ensures
        generated_usable ==> (r matches Ok(p) && p@ == generated@),
        !generated_usable && bundled_usable ==> (r matches Ok(p) && p@ == bundled@),
        !generated_usable && !bundled_usable ==> (r matches Err(m) && m@
            == "No usable AllFonts.js found at "@ + generated@ + " or "@ + bundled@),
{
    if generated_usable {
        Ok(string_from_chars(&chars_of(generated)))
    } else if bundled_usable {
        Ok(string_from_chars(&chars_of(bundled)))
    } else {
        Err(join4("No usable AllFonts.js found at ", generated, " or ", bundled))
    }
}

/// The message of a conversion whose x2t run failed with exit code `code`
/// and wrote `stderr`.
pub open spec fn conversion_failure(code: int, stderr: Seq<char>) -> Seq<char> {
    "x2t conversion failed (exit code "@ + decimal_chars(code) + "): "@ + stderr
}

/// What a conversion answers once x2t has exited: `ok` when it succeeded,
/// else its exit code and error output.
pub fn conversion_outcome(success: bool, code: i32, stderr: &str) -> (r: Result<String, String>)
    ensures
        success ==> (r matches Ok(s) && s@ == "ok"@),
        !success ==> (r matches Err(m) && m@ == conversion_failure(code as int, stderr@)),
{
    if success {
        Ok(String::from_str("ok"))
    } else {
        let mut out: Vec<char> = Vec::new();
        push_str_chars(&mut out, "x2t conversion failed (exit code ");
        let digits = i64_decimal_chars(code as i64);
        push_chars(&mut out, &digits, 0, digits.len());
        assert(digits@.subrange(0, digits@.len() as int) =~= digits@);
        push_str_chars(&mut out, "): ");
        push_str_chars(&mut out, stderr);
        Err(string_from_chars(&out))
    }
}

/// Entry `e` of directory listing `d` is the x2t executable the search
/// finds: the first such name in the first listing that holds one.
pub open spec fn first_x2t(listings: Seq<Vec<String>>, platform: Platform, d: int, e: int) -> bool {
    &&& 0 <= d < listings.len()
    &&& 0 <= e < listings[d]@.len()
    &&& names_x2t_binary(listings[d]@[e]@, platform)
    &&& forall|j: int| 0 <= j < e ==> !names_x2t_binary(#[trigger] listings[d]@[j]@, platform)
    &&& forall|i: int, j: int|
        0 <= i < d && 0 <= j < listings[i]@.len() ==> !names_x2t_binary(
            #[trigger] listings[i]@[j]@,
            platform,
        )
}

/// The x2t executable among the entries of the search directories, listed
/// in search order (an unreadable directory lists nothing): the directory
/// and entry index of the first, or `None` when there is none.
pub fn find_x2t_entry(listings: &Vec<Vec<String>>, platform: Platform) -> (r: Option<(usize, usize)>)
    ensures
        match r {
            Some((d, e)) => first_x2t(listings@, platform, d as int, e as int),
            None => forall|i: int, j: int|
                0 <= i < listings@.len() && 0 <= j < listings@[i]@.len() ==> !names_x2t_binary(
                    #[trigger] listings@[i]@[j]@,
                    platform,
                ),
        },
{
    let mut d: usize = 0;
    while d < listings.len()
        invariant
            d <= listings@.len(),
            forall|i: int, j: int|
                0 <= i < d && 0 <= j < listings@[i]@.len() ==> !names_x2t_binary(
                    #[trigger] listings@[i]@[j]@,
                    platform,
                ),
        decreases listings@.len() - d,
    {
        let names = &listings[d];
        let mut e: usize = 0;
        while e < names.len()
            invariant
                d < listings@.len(),
                names@ == listings@[d as int]@,
                forall|i: int, j: int|
                    0 <= i < d && 0 <= j < listings@[i]@.len() ==> !names_x2t_binary(
                        #[trigger] listings@[i]@[j]@,
                        platform,
                    ),
                e <= names@.len(),
                forall|j: int| 0 <= j < e ==> !names_x2t_binary(#[trigger] names@[j]@, platform),
            decreases names@.len() - e,
        {
            if is_x2t_binary(names[e].as_str(), platform) {
                return Some((d, e));
            }
            e = e + 1;
        }
        d = d + 1;
    }
    None
}

/// What the first-run font generation does, given whether its marker file
/// and the generated font index exist.
pub enum FontGeneration {
    /// Both exist: nothing to do.
    Skip,
    /// The marker exists but the index is gone: generate again.
    Regenerate,
    /// No marker: generate for the first time.
    Generate,
}

/// The font generation step to take.
pub fn font_generation(marker_exists: bool, index_exists: bool) -> (r: FontGeneration)
    ensures
        marker_exists && index_exists ==> r is Skip,
        marker_exists && !index_exists ==> r is Regenerate,
        !marker_exists ==> r is Generate,
{
    if marker_exists && index_exists {
        FontGeneration::Skip
    } else if marker_exists {
        FontGeneration::Regenerate
    } else {
        FontGeneration::Generate
    }
}

/// The message of a file operation that failed: what was being done, on
/// which path, and the error.
pub fn path_error(action: &str, path: &str, error: &str) -> (r: String)
    ensures
        r@ == action@ + " "@ + path@ + ": "@ + error@,
{
    join4(action, " ", path, join2(": ", error).as_str())
}

/// The editor scripts are all there: given each script's path and whether
/// it is a non-empty file, the error for the first that is not.
pub fn validate_editor_resources(sources: &Vec<String>, usable: &Vec<bool>) -> (r: Result<(), String>)
    requires
        usable@.len() == sources@.len(),
    ensures
        match r {
            Ok(()) => forall|i: int| 0 <= i < usable@.len() ==> #[trigger] usable@[i],
            Err(m) => exists|i: int|
                0 <= i < usable@.len() && !#[trigger] usable@[i] && (forall|j: int|
                    0 <= j < i ==> usable@[j]) && m@ == "Missing or empty DoctRenderer resource: "@
                    + sources@[i]@,
        },
{
    let mut i: usize = 0;
    while i < usable.len()
        invariant
            i <= usable@.len(),
            usable@.len() == sources@.len(),
            forall|j: int| 0 <= j < i ==> usable@[j],
        decreases usable@.len() - i,
    {
        if !usable[i] {
            return Err(missing_resource_message(sources[i].as_str()));
        }
        i = i + 1;
    }
    Ok(())
}

} // verus!
