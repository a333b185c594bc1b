//! Choosing and naming the images pasted from the clipboard.
use vstd::prelude::*;
use crate::formats::{clear_extension, clear_extension_of, name_extension, path_extension, plain_path, possible_extension};
use crate::recent::{lowercase, to_lowercase};
use crate::text::{after_last, chars_of, decimal_chars, push_chars, push_str_chars, str_eq, string_from_chars, u64_decimal_chars};

use image::{ImageBuffer, Rgba};

verus! {

/// A pasted bitmap as an RGBA image ready to be saved: an `ImageBuffer`
/// of one byte per channel over the bytes it was made from, kept whole.
#[verifier::external_body]
pub struct PastedBitmap {
    pub buffer: ImageBuffer<Rgba<u8>, Vec<u8>>,
}

/// The bytes the image holds, four per pixel, row by row.
pub uninterp spec fn bitmap_pixels(b: PastedBitmap) -> Seq<u8>;

/// The image's width in pixels.
pub uninterp spec fn bitmap_width(b: PastedBitmap) -> u32;

/// The image's height in pixels.
pub uninterp spec fn bitmap_height(b: PastedBitmap) -> u32;

/// `ImageBuffer::from_raw` for RGBA pixels of one byte per channel. Its
/// documentation: `None` when the container is not big enough, including
/// when the dimensions need more bytes than a container can hold; its source
/// takes four bytes per pixel, multiplied without overflow, and keeps the
/// container and the dimensions unchanged.
#[verifier::external_body]
fn rgba_buffer(width: u32, height: u32, bytes: Vec<u8>) -> (r: Option<PastedBitmap>)
    ensures
        r is Some <==> 4 * width * height <= bytes@.len(),
        match r {
            Some(b) => bitmap_pixels(b) == bytes@ && bitmap_width(b) == width && bitmap_height(b)
                == height,
            None => true,
        },
{
    ImageBuffer::from_raw(width, height, bytes).map(|buffer| PastedBitmap { buffer })
}

/// The bitmap pasted from the clipboard as an RGBA image of `width` by
/// `height` pixels, each dimension taken as a `u32` (cut to its low 32 bits),
/// holding the bytes as given; `None` when the bytes are too few for it.
pub fn pasted_bitmap(width: usize, height: usize, bytes: Vec<u8>) -> (r: Option<PastedBitmap>)
    ensures
        r is Some <==> 4 * (width as u32) * (height as u32) <= bytes@.len(),
        match r {
            Some(b) => bitmap_pixels(b) == bytes@ && bitmap_width(b) == width as u32
                && bitmap_height(b) == height as u32,
            None => true,
        },
{
    #[verifier::truncate]
    let w = width as u32;
    #[verifier::truncate]
    let h = height as u32;
    rgba_buffer(w, h, bytes)
}

/// `s` without the carriage returns and line feeds it ends with. A file list
/// read from `text/uri-list` keeps the line ends on its paths on some
/// platforms.
pub open spec fn without_line_ends(s: Seq<char>) -> Seq<char>
    decreases s.len(),
{
    if s.len() > 0 && (s.last() == '\r' || s.last() == '\n') {
        without_line_ends(s.drop_last())
    } else {
        s
    }
}

/// A path from the clipboard's file list without trailing line ends.
pub fn trim_line_ends(path: &str) -> (r: String)
    ensures
        r@ == without_line_ends(path@),
{
    let cs = chars_of(path);
    let mut n: usize = cs.len();
    assert(cs@.take(n as int) =~= cs@);
    while n > 0 && (cs[n - 1] == '\r' || cs[n - 1] == '\n')
        invariant
            n <= cs@.len(),
            without_line_ends(cs@.take(n as int)) == without_line_ends(path@),
            cs@ == path@,
        decreases n,
    {
        assert(cs@.take(n as int).drop_last() =~= cs@.take(n - 1));
        n = n - 1;
    }
    let mut out: Vec<char> = Vec::new();
    push_chars(&mut out, &cs, 0, n);
    assert(out@ =~= cs@.take(n as int));
    string_from_chars(&out)
}

/// The extensions of the image files a paste takes, in lower case.
pub open spec fn image_extension(ext: Seq<char>) -> bool {
    let l = lowercase(ext);
    ||| l == "png"@
    ||| l == "jpg"@
    ||| l == "jpeg"@
    ||| l == "gif"@
    ||| l == "bmp"@
    ||| l == "svg"@
    ||| l == "webp"@
    ||| l == "ico"@
}

/// Whether a file with extension `ext` is an image a paste takes.
pub fn is_image_extension(ext: &str) -> (r: bool)
    ensures
        r == image_extension(ext@),
{
    let l = to_lowercase(ext);
    let l = l.as_str();
    str_eq(l, "png") || str_eq(l, "jpg") || str_eq(l, "jpeg") || str_eq(l, "gif") || str_eq(
        l,
        "bmp",
    ) || str_eq(l, "svg") || str_eq(l, "webp") || str_eq(l, "ico")
}

/// The extension is that of an image.
pub open spec fn image_ext(ext: Option<Seq<char>>) -> bool {
    ext matches Some(e) && image_extension(e)
}

/// Position `i` holds the first image extension of `exts`.
pub open spec fn first_image_at(exts: Seq<Option<Seq<char>>>, i: int) -> bool {
    &&& 0 <= i < exts.len()
    &&& image_ext(exts[i])
    &&& forall|j: int| 0 <= j < i ==> !image_ext(#[trigger] exts[j])
}

/// The extensions as text.
pub open spec fn extension_views(exts: Seq<Option<String>>) -> Seq<Option<Seq<char>>> {
    exts.map_values(
        |o: Option<String>|
            match o {
                Some(e) => Some(e@),
                None => None::<Seq<char>>,
            },
    )
}

/// Among the files of a paste, given by their extensions, the first that is
/// an image.
pub fn first_image(exts: &Vec<Option<String>>) -> (r: Option<usize>)
    ensures
        match r {
            Some(i) => first_image_at(extension_views(exts@), i as int),
            None => forall|j: int|
                0 <= j < exts@.len() ==> !image_ext(#[trigger] extension_views(exts@)[j]),
        },
{
    let ghost v = extension_views(exts@);
    let mut i: usize = 0;
    while i < exts.len()
        invariant
            i <= exts@.len(),
            v == extension_views(exts@),
            forall|j: int| 0 <= j < i ==> !image_ext(#[trigger] v[j]),
        decreases exts@.len() - i,
    {
        match &exts[i] {
            Some(e) => {
                if is_image_extension(e.as_str()) {
                    return Some(i);
                }
            },
            None => {},
        }
        i = i + 1;
    }
    None
}

/// Extensions each path may have, one per path (see `possible_extension`).
pub open spec fn possible_extensions(paths: Seq<String>, exts: Seq<Option<Seq<char>>>) -> bool {
    &&& exts.len() == paths.len()
    &&& forall|k: int| 0 <= k < exts.len() ==> possible_extension(paths[k]@, #[trigger] exts[k])
}

/// The extensions of plain paths, read from their final components.
pub open spec fn plain_extensions(paths: Seq<String>) -> Seq<Option<Seq<char>>> {
    paths.map_values(|p: String| name_extension(after_last(p@, '/')))
}

/// The extensions of paths with clear ones (see `clear_extension`).
pub open spec fn clear_extensions(paths: Seq<String>) -> Seq<Option<Seq<char>>> {
    paths.map_values(|p: String| Some(clear_extension_of(p@)))
}

/// Among the files of a paste, the first whose extension is an image's.
/// `Path::extension` reads the extension; of what it reads the library
/// knows only that each is a possible one (see `possible_extension`), so
/// the answer is the first image among some such reading.
pub fn first_image_file(paths: &Vec<String>) -> (r: Option<usize>)
    ensures
        exists|exts: Seq<Option<Seq<char>>>|
            {
                &&& #[trigger] possible_extensions(paths@, exts)
                &&& match r {
                    Some(i) => first_image_at(exts, i as int),
                    None => forall|j: int| 0 <= j < exts.len() ==> !image_ext(#[trigger] exts[j]),
                }
            },
        (forall|k: int| 0 <= k < paths@.len() ==> plain_path(#[trigger] paths@[k]@)) ==> match r {
            Some(i) => first_image_at(plain_extensions(paths@), i as int),
            None => forall|j: int|
                0 <= j < paths@.len() ==> !image_ext(#[trigger] plain_extensions(paths@)[j]),
        },
        (forall|k: int| 0 <= k < paths@.len() ==> clear_extension(#[trigger] paths@[k]@)) ==> match r {
            Some(i) => first_image_at(clear_extensions(paths@), i as int),
            None => forall|j: int|
                0 <= j < paths@.len() ==> !image_ext(#[trigger] clear_extensions(paths@)[j]),
        },
{
    let mut exts: Vec<Option<String>> = Vec::new();
    let mut k: usize = 0;
    while k < paths.len()
        invariant
            k <= paths@.len(),
            exts@.len() == k,
            forall|j: int| 0 <= j < k ==> possible_extension(paths@[j]@, #[trigger] extension_views(exts@)[j]),
            forall|j: int|
                0 <= j < k && plain_path(paths@[j]@) ==> #[trigger] extension_views(exts@)[j]
                    == name_extension(after_last(paths@[j]@, '/')),
            forall|j: int|
                0 <= j < k && clear_extension(paths@[j]@) ==> #[trigger] extension_views(exts@)[j]
                    == Some(clear_extension_of(paths@[j]@)),
        decreases paths@.len() - k,
    {
        let e = path_extension(paths[k].as_str());
        let ghost before = exts@;
        exts.push(e);
        assert forall|j: int| 0 <= j < k + 1 implies possible_extension(
            paths@[j]@,
            #[trigger] extension_views(exts@)[j],
        ) && (plain_path(paths@[j]@) ==> extension_views(exts@)[j] == name_extension(
            after_last(paths@[j]@, '/'),
        )) && (clear_extension(paths@[j]@) ==> extension_views(exts@)[j] == Some(
            clear_extension_of(paths@[j]@),
        )) by {
            if j < k {
                assert(extension_views(exts@)[j] == extension_views(before)[j]);
            }
        }
        k = k + 1;
    }
    let r = first_image(&exts);
    assert(possible_extensions(paths@, extension_views(exts@)));
    proof {
        if forall|k: int| 0 <= k < paths@.len() ==> plain_path(#[trigger] paths@[k]@) {
            assert(extension_views(exts@) =~= plain_extensions(paths@));
        }
        if forall|k: int| 0 <= k < paths@.len() ==> clear_extension(#[trigger] paths@[k]@) {
            assert(extension_views(exts@) =~= clear_extensions(paths@));
        }
    }
    r
}

/// The name a pasted image file is copied under: `clipboard_file_`, the
/// time in milliseconds, and the source's extension in lower case (`png`
/// when it has none).
pub open spec fn copied_image_name(millis: u64, ext: Option<Seq<char>>) -> Seq<char> {
    "clipboard_file_"@ + decimal_chars(millis as int) + "."@ + match ext {
        Some(e) => lowercase(e),
        None => "png"@,
    }
}

/// The name under which a pasted image file with extension `ext` is copied.
pub fn copied_image_file_name(millis: u64, ext: Option<&str>) -> (r: String)
    ensures
        r@ == copied_image_name(millis, match ext {
            Some(e) => Some(e@),
            None => None::<Seq<char>>,
        }),
{
    let mut out: Vec<char> = Vec::new();
    push_str_chars(&mut out, "clipboard_file_");
    let digits = u64_decimal_chars(millis);
    push_chars(&mut out, &digits, 0, digits.len());
    assert(digits@.subrange(0, digits@.len() as int) =~= digits@);
    push_str_chars(&mut out, ".");
    match ext {
        Some(e) => {
            let l = to_lowercase(e);
            push_str_chars(&mut out, l.as_str());
        },
        None => push_str_chars(&mut out, "png"),
    }
    string_from_chars(&out)
}

/// The name under which the pasted image file `source` is copied, its
/// extension read by `Path::extension` (see `first_image_file`).
pub fn copied_image_file_name_for(millis: u64, source: &str) -> (r: String)
    ensures
        exists|ext: Option<Seq<char>>|
            possible_extension(source@, ext) && r@ == copied_image_name(millis, ext),
        plain_path(source@) ==> r@ == copied_image_name(
            millis,
            name_extension(after_last(source@, '/')),
        ),
        clear_extension(source@) ==> r@ == copied_image_name(
            millis,
            Some(clear_extension_of(source@)),
        ),
{
    let ext = path_extension(source);
    match &ext {
        Some(e) => copied_image_file_name(millis, Some(e.as_str())),
        None => copied_image_file_name(millis, None),
    }
}

/// The name a pasted bitmap is saved under: `clipboard_`, the time in
/// milliseconds, `.png`.
pub fn pasted_image_name(millis: u64) -> (r: String)
    ensures
        r@ == "clipboard_"@ + decimal_chars(millis as int) + ".png"@,
{
    let mut out: Vec<char> = Vec::new();
    push_str_chars(&mut out, "clipboard_");
    let digits = u64_decimal_chars(millis);
    push_chars(&mut out, &digits, 0, digits.len());
    assert(digits@.subrange(0, digits@.len() as int) =~= digits@);
    push_str_chars(&mut out, ".png");
    string_from_chars(&out)
}

} // verus!
