//! The `.docx` package: its entries read through the `zip` crate, the
//! decision what to do about the note separator rules, and the rewritten
//! package written back through the `zip` crate.
//!
//! A zip cannot be edited in place, so the whole package is rewritten: every
//! entry copied across and the edited parts replaced in a single pass.
use vstd::prelude::*;
use vstd::string::*;
use vstd::utf8::*;
use std::io::Cursor;
use std::io::Read;
use std::io::Write;
use zip::result::ZipError;
use zip::{CompressionMethod, ZipArchive, ZipWriter};
use crate::bytes::{copy_range, u64_decimal};
use crate::notes::{
    has_real_notes_in, holds_real_notes, needle_for, strip_separator_bytes,
    strip_separators,
};
use crate::formats::{path_file_name, plain_path, possible_file_name};
use crate::text::{
    after_last, ascii_string, decimal_chars, join2, join4, push_chars, push_str_chars,
    string_from_chars, string_from_utf8, u64_decimal_chars,
};

verus! {

#[verifier::external_type_specification]
#[verifier::external_body]
#[verifier::reject_recursive_types(T)]
pub struct ExCursor<T>(Cursor<T>);

#[verifier::external_type_specification]
#[verifier::external_body]
#[verifier::reject_recursive_types(R)]
pub struct ExZipArchive<R>(ZipArchive<R>);

#[verifier::external_type_specification]
#[verifier::external_body]
pub struct ExZipError(ZipError);

#[verifier::external_type_specification]
#[verifier::external_body]
pub struct ExIoError(std::io::Error);

#[verifier::external_type_specification]
pub struct ExCompressionMethod(CompressionMethod);

/// A package being written: a `ZipWriter` over an in-memory buffer, kept
/// whole; what it has written is told by `written_entries`.
#[verifier::external_body]
pub struct PackageWriter {
    writer: ZipWriter<Cursor<Vec<u8>>>,
}

// Result codes, shared verbatim with the frontend, which branches on these
// strings to pick between reopening the document and showing a message.
pub const REMOVED: &'static str = "removed";
pub const NO_NOTES: &'static str = "no_notes";
pub const ALREADY_REMOVED: &'static str = "already_removed";
pub const NOT_DOCX: &'static str = "not_docx";
pub const NO_FILE: &'static str = "no_file";

pub const FOOTNOTES_PART: &'static str = "word/footnotes.xml";
pub const ENDNOTES_PART: &'static str = "word/endnotes.xml";

/// What `ZipArchive::new` finds in `bytes`, entry by entry: the name, whether
/// `by_index` opens the entry, its compression method, and its
/// data when reading it through succeeds. `None` when the bytes are not a
/// readable archive.
pub uninterp spec fn zip_read(bytes: Seq<u8>) -> Option<Seq<(Seq<char>, bool, CompressionMethod, Option<Seq<u8>>)>>;

/// The entries an open archive holds, in the same form as `zip_read`.
pub uninterp spec fn archive_entries(archive: ZipArchive<Cursor<Vec<u8>>>) -> Seq<
    (Seq<char>, bool, CompressionMethod, Option<Seq<u8>>),
>;

/// The entries written so far: name, compression method, data.
pub uninterp spec fn written_entries(writer: PackageWriter) -> Seq<(Seq<char>, CompressionMethod, Seq<u8>)>;

/// No two entries share a name (the archive keys its entries by name).
pub open spec fn names_distinct(es: Seq<(Seq<char>, bool, CompressionMethod, Option<Seq<u8>>)>) -> bool {
    forall|i: int, j: int| 0 <= i < j < es.len() ==> #[trigger] es[i].0 != #[trigger] es[j].0
}

/// A name ending in `/` or `\` names a directory (zip's `is_dir`).
pub open spec fn names_directory(name: Seq<char>) -> bool {
    name.len() > 0 && (name.last() == '/' || name.last() == '\\')
}

/// The name `add_directory` gives an entry: a `/` is appended unless the name
/// already ends in `/` or `\`.
pub open spec fn directory_name(name: Seq<char>) -> Seq<char> {
    if names_directory(name) {
        name
    } else {
        name.push('/')
    }
}

/// How a written entry reads back: opened, with the data written.
pub open spec fn read_back(x: (Seq<char>, CompressionMethod, Seq<u8>)) -> (Seq<char>, bool, CompressionMethod, Option<Seq<u8>>) {
    (x.0, true, x.1, Some(x.2))
}

/// `ZipArchive::new` on an in-memory copy of the bytes. Its entries are
/// keyed by name, so no two share one.
#[verifier::external_body]
fn open_archive(bytes: Vec<u8>) -> (r: Result<ZipArchive<Cursor<Vec<u8>>>, ZipError>)
    ensures
        r is Ok <==> zip_read(bytes@) is Some,
        r matches Ok(a) ==> zip_read(bytes@) == Some(archive_entries(a)),
        r matches Ok(a) ==> names_distinct(archive_entries(a)),
{
    ZipArchive::new(Cursor::new(bytes))
}

/// `ZipArchive::len`: the number of entries.
#[verifier::external_body]
fn entry_count(archive: &ZipArchive<Cursor<Vec<u8>>>) -> (r: usize)
    ensures
        r == archive_entries(*archive).len(),
{
    archive.len()
}

/// `ZipArchive::index_for_name`: the position of the entry with this name.
#[verifier::external_body]
fn entry_index(archive: &ZipArchive<Cursor<Vec<u8>>>, name: &str) -> (r: Option<usize>)
    ensures
        match r {
            Some(i) => i < archive_entries(*archive).len() && archive_entries(*archive)[i as int].0
                == name@,
            None => forall|i: int|
                0 <= i < archive_entries(*archive).len() ==> #[trigger] archive_entries(
                    *archive,
                )[i].0 != name@,
        },
{
    archive.index_for_name(name)
}

/// `ZipArchive::by_index`, then the entry's name and compression method.
#[verifier::external_body]
fn entry_header(archive: &mut ZipArchive<Cursor<Vec<u8>>>, i: usize) -> (r: Result<
    (String, CompressionMethod),
    ZipError,
>)
    requires
        i < archive_entries(*old(archive)).len(),
    ensures
        archive_entries(*final(archive)) == archive_entries(*old(archive)),
        r is Ok <==> archive_entries(*old(archive))[i as int].1,
        r matches Ok((name, method)) ==> name@ == archive_entries(*old(archive))[i as int].0
            && method == archive_entries(*old(archive))[i as int].2,
{
    let entry = archive.by_index(i)?;
    Ok((entry.name().to_string(), entry.compression()))
}

/// `ZipArchive::by_index`, then `read_to_end` on the entry.
#[verifier::external_body]
fn entry_data(archive: &mut ZipArchive<Cursor<Vec<u8>>>, i: usize) -> (r: Result<
    Result<Vec<u8>, std::io::Error>,
    ZipError,
>)
    requires
        i < archive_entries(*old(archive)).len(),
    ensures
        archive_entries(*final(archive)) == archive_entries(*old(archive)),
        r is Ok <==> archive_entries(*old(archive))[i as int].1,
        r matches Ok(read) ==> match read {
            Ok(d) => archive_entries(*old(archive))[i as int].3 == Some(d@),
            Err(_) => archive_entries(*old(archive))[i as int].3 is None,
        },
{
    let mut entry = archive.by_index(i)?;
    let mut data = Vec::new();
    Ok(entry.read_to_end(&mut data).map(|_| data))
}

/// `ZipWriter::new` over an empty in-memory buffer.
#[verifier::external_body]
fn new_package() -> (w: PackageWriter)
    ensures
        written_entries(w) == Seq::<(Seq<char>, CompressionMethod, Seq<u8>)>::empty(),
{
    PackageWriter { writer: ZipWriter::new(Cursor::new(Vec::new())) }
}

/// The UTF-8 form of an entry name fits the 16-bit length field of the zip
/// format; the writer panics on a longer one.
pub open spec fn name_fits(name: Seq<char>) -> bool {
    encode_utf8(name).len() <= 0xFFFF
}

/// An entry small enough to be written without the large-file option: the
/// writer refuses an entry past 4 GiB without it, and deflate adds only a few
/// bytes per block to its input, so fewer than 2^31 bytes stay well below.
pub open spec fn small_entry(data: Seq<u8>) -> bool {
    data.len() < 0x8000_0000
}

/// The writer takes a new entry `name` after `entries`: no entry has that
/// name yet (the writer refuses a duplicate), and the entry before, whose
/// end the writer records first, is small (see `small_entry`).
pub open spec fn writer_accepts(
    entries: Seq<(Seq<char>, CompressionMethod, Seq<u8>)>,
    name: Seq<char>,
) -> bool {
    &&& forall|j: int| 0 <= j < entries.len() ==> #[trigger] entries[j].0 != name
    &&& entries.len() > 0 ==> small_entry(entries.last().2)
}

/// `ZipWriter::add_directory` with default options: a stored, empty entry,
/// named with a `/` appended unless it ends in `/` or `\`. Its source refuses
/// a duplicate name, and fails only where finishing the entry before fails;
/// on an in-memory buffer no write fails.
#[verifier::external_body]
fn add_directory_entry(w: &mut PackageWriter, name: &str) -> (r: Result<(), ZipError>)
    requires
        name_fits(directory_name(name@)),
    ensures
        r is Ok ==> written_entries(*final(w)) == written_entries(*old(w)).push(
            (directory_name(name@), CompressionMethod::Stored, Seq::<u8>::empty()),
        ),
        writer_accepts(written_entries(*old(w)), directory_name(name@)) ==> r is Ok,
{
    w.writer.add_directory(name, zip::write::SimpleFileOptions::default())
}

/// `ZipWriter::start_file` with default options and the given compression
/// method: a new, still empty entry. Its source refuses a duplicate name and a
/// method it cannot write (it writes stored and deflated entries), and fails
/// otherwise only where finishing the entry before fails; on an in-memory
/// buffer no write fails.
#[verifier::external_body]
fn start_entry(w: &mut PackageWriter, name: &str, method: CompressionMethod) -> (r: Result<
    (),
    ZipError,
>)
    requires
        name_fits(name@),
    ensures
        r is Ok ==> written_entries(*final(w)) == written_entries(*old(w)).push(
            (name@, method, Seq::<u8>::empty()),
        ),
        (method is Stored || method is Deflated) && writer_accepts(written_entries(*old(w)), name@)
            ==> r is Ok,
{
    w.writer.start_file(name, zip::write::SimpleFileOptions::default().compression_method(method))
}

/// `Write::write_all` on the writer: the data goes to the entry last started.
/// Its source refuses data when the last entry is a directory (no file is
/// being written) and an entry growing past 4 GiB without the large-file
/// option; on an in-memory buffer no write fails.
#[verifier::external_body]
fn write_entry_data(w: &mut PackageWriter, data: &[u8]) -> (r: Result<(), std::io::Error>)
    requires
        written_entries(*old(w)).len() > 0,
    ensures
        r is Ok ==> written_entries(*final(w)) == written_entries(*old(w)).update(
            written_entries(*old(w)).len() - 1,
            (
                written_entries(*old(w)).last().0,
                written_entries(*old(w)).last().1,
                written_entries(*old(w)).last().2 + data@,
            ),
        ),
        !names_directory(written_entries(*old(w)).last().0) && small_entry(
            written_entries(*old(w)).last().2 + data@,
        ) ==> r is Ok,
{
    w.writer.write_all(data)
}

/// `ZipWriter::finish`: the package bytes, which read back as the entries
/// written. Its source fails only where finishing the last entry fails; on an
/// in-memory buffer no write fails.
#[verifier::external_body]
fn finish_package(w: PackageWriter) -> (r: Result<Vec<u8>, ZipError>)
    ensures
        r matches Ok(bytes) ==> zip_read(bytes@) == Some(
            written_entries(w).map_values(|x: (Seq<char>, CompressionMethod, Seq<u8>)| read_back(x)),
        ),
        written_entries(w).len() == 0 || small_entry(written_entries(w).last().2) ==> r is Ok,
{
    w.writer.finish().map(|cursor| cursor.into_inner())
}


/// `w:footnote`
pub open spec fn footnote_element() -> Seq<u8> {
    seq!['w' as u8, ':' as u8, 'f' as u8, 'o' as u8, 'o' as u8, 't' as u8, 'n' as u8, 'o' as u8, 't' as u8, 'e' as u8]
}

/// `w:endnote`
pub open spec fn endnote_element() -> Seq<u8> {
    seq!['w' as u8, ':' as u8, 'e' as u8, 'n' as u8, 'd' as u8, 'n' as u8, 'o' as u8, 't' as u8, 'e' as u8]
}

fn footnote_element_bytes() -> (r: Vec<u8>)
    ensures
        r@ == footnote_element(),
{
    let r: Vec<u8> = vec!['w' as u8, ':' as u8, 'f' as u8, 'o' as u8, 'o' as u8, 't' as u8, 'n' as u8, 'o' as u8, 't' as u8, 'e' as u8];
    assert(r@ =~= footnote_element());
    r
}

fn endnote_element_bytes() -> (r: Vec<u8>)
    ensures
        r@ == endnote_element(),
{
    let r: Vec<u8> = vec!['w' as u8, ':' as u8, 'e' as u8, 'n' as u8, 'd' as u8, 'n' as u8, 'o' as u8, 't' as u8, 'e' as u8];
    assert(r@ =~= endnote_element());
    r
}

/// Where the entry named `name` stands, if one does.
pub open spec fn position_of(es: Seq<(Seq<char>, bool, CompressionMethod, Option<Seq<u8>>)>, name: Seq<char>) -> Option<int> {
    if exists|i: int| 0 <= i < es.len() && #[trigger] es[i].0 == name {
        Some(choose|i: int| 0 <= i < es.len() && #[trigger] es[i].0 == name)
    } else {
        None
    }
}

/// Reading the part `name` by name: `None` when no entry has that name,
/// `Some(None)` when the entry does not open or its data does not read
/// through, `Some(Some(data))` otherwise.
pub open spec fn part_read(es: Seq<(Seq<char>, bool, CompressionMethod, Option<Seq<u8>>)>, name: Seq<char>) -> Option<Option<Seq<u8>>> {
    match position_of(es, name) {
        None => None,
        Some(i) => Some(if es[i].1 { es[i].3 } else { None }),
    }
}

/// The part is there but cannot be read, or is not valid UTF-8.
pub open spec fn part_fails(es: Seq<(Seq<char>, bool, CompressionMethod, Option<Seq<u8>>)>, name: Seq<char>) -> bool {
    match part_read(es, name) {
        Some(Some(d)) => !valid_utf8(d),
        Some(None) => true,
        None => false,
    }
}

/// The part reads, and holds real notes of element `element`.
pub open spec fn part_has_real_notes(
    es: Seq<(Seq<char>, bool, CompressionMethod, Option<Seq<u8>>)>,
    name: Seq<char>,
    element: Seq<u8>,
) -> bool {
    match part_read(es, name) {
        Some(Some(d)) => valid_utf8(d) && holds_real_notes(d, element),
        _ => false,
    }
}

/// The part's edited bytes: only a part with real notes is operated on, and
/// only when a rule is there to remove.
pub open spec fn part_edit(
    es: Seq<(Seq<char>, bool, CompressionMethod, Option<Seq<u8>>)>,
    name: Seq<char>,
    element: Seq<u8>,
) -> Option<Seq<u8>> {
    match part_read(es, name) {
        Some(Some(d)) => if valid_utf8(d) && holds_real_notes(d, element) {
            strip_separators(d, element)
        } else {
            None
        },
        _ => None,
    }
}

/// The parts to replace, footnotes first, each with its edited bytes.
pub open spec fn separator_edits(es: Seq<(Seq<char>, bool, CompressionMethod, Option<Seq<u8>>)>) -> Seq<(Seq<char>, Seq<u8>)> {
    (match part_edit(es, FOOTNOTES_PART@, footnote_element()) {
        Some(x) => seq![(FOOTNOTES_PART@, x)],
        None => seq![],
    }) + (match part_edit(es, ENDNOTES_PART@, endnote_element()) {
        Some(x) => seq![(ENDNOTES_PART@, x)],
        None => seq![],
    })
}

/// Either notes part is there but unreadable or not valid UTF-8.
pub open spec fn note_parts_fail(es: Seq<(Seq<char>, bool, CompressionMethod, Option<Seq<u8>>)>) -> bool {
    part_fails(es, FOOTNOTES_PART@) || part_fails(es, ENDNOTES_PART@)
}

/// Either notes part holds real notes.
pub open spec fn any_real_notes(es: Seq<(Seq<char>, bool, CompressionMethod, Option<Seq<u8>>)>) -> bool {
    part_has_real_notes(es, FOOTNOTES_PART@, footnote_element()) || part_has_real_notes(
        es,
        ENDNOTES_PART@,
        endnote_element(),
    )
}

pub proof fn lemma_position_of(es: Seq<(Seq<char>, bool, CompressionMethod, Option<Seq<u8>>)>, name: Seq<char>, i: int)
    requires
        names_distinct(es),
        0 <= i < es.len(),
        es[i].0 == name,
    ensures
        position_of(es, name) == Some(i),
{
    assert(es[i].0 == name);
    let j = choose|j: int| 0 <= j < es.len() && #[trigger] es[j].0 == name;
    if j < i {
        assert(es[j].0 != es[i].0);
    } else if j > i {
        assert(es[i].0 != es[j].0);
    }
}

/// Reads the part named `name`.
fn read_part(archive: &mut ZipArchive<Cursor<Vec<u8>>>, name: &str) -> (r: Result<Option<Vec<u8>>, String>)
    requires
        names_distinct(archive_entries(*old(archive))),
    ensures
        archive_entries(*final(archive)) == archive_entries(*old(archive)),
        match part_read(archive_entries(*old(archive)), name@) {
            None => r matches Ok(None),
            Some(None) => r is Err,
            Some(Some(d)) => r matches Ok(Some(v)) && v@ == d,
        },
{
    let ghost es = archive_entries(*archive);
    match entry_index(archive, name) {
        None => {
            assert(!exists|i: int| 0 <= i < es.len() && #[trigger] es[i].0 == name@);
            Ok(None)
        },
        Some(i) => {
            proof {
                lemma_position_of(es, name@, i as int);
            }
            match entry_data(archive, i) {
                Ok(Ok(d)) => Ok(Some(d)),
                Ok(Err(e)) => Err(join4("Cannot read ", name, ": ", &e.to_string())),
                Err(e) => Err(join4("Cannot read ", name, ": ", &e.to_string())),
            }
        },
    }
}

/// What one notes part contributes: an error when it cannot be read or is not
/// valid UTF-8; `None` when it is missing or holds no real notes; otherwise
/// its edited bytes, when a rule was there to remove.
fn examine_part(archive: &mut ZipArchive<Cursor<Vec<u8>>>, part: &str, element: &[u8]) -> (r: Result<
    Option<Option<Vec<u8>>>,
    String,
>)
    requires
        names_distinct(archive_entries(*old(archive))),
        element@.len() > 0,
    ensures
        archive_entries(*final(archive)) == archive_entries(*old(archive)),
        part_fails(archive_entries(*old(archive)), part@) <==> r is Err,
        r matches Ok(None) ==> !part_has_real_notes(archive_entries(*old(archive)), part@, element@),
        r matches Ok(Some(edit)) ==> part_has_real_notes(archive_entries(*old(archive)), part@, element@)
            && match edit {
            Some(x) => part_edit(archive_entries(*old(archive)), part@, element@) == Some(x@),
            None => part_edit(archive_entries(*old(archive)), part@, element@) is None,
        },
{
    let data = match read_part(archive, part) {
        Ok(Some(d)) => d,
        Ok(None) => {
            return Ok(None);
        },
        Err(e) => {
            return Err(e);
        },
    };
    let ghost d = data@;
    let xml = match string_from_utf8(data) {
        Some(s) => s,
        None => {
            return Err(join2(part, " is not valid UTF-8"));
        },
    };
    proof {
        decode_utf8_encode_utf8(d);
    }
    let text = xml.as_str().as_bytes();
    assert(text@ == d);
    let needle = needle_for(element);
    assert(needle@.drop_first() =~= element@);
    if !has_real_notes_in(text, &needle) {
        return Ok(None);
    }
    Ok(Some(strip_separator_bytes(text, element)))
}


/// The first edit for the entry `name`, looking from the `k`-th edit on.
pub open spec fn edit_from(edits: Seq<(Seq<char>, Seq<u8>)>, name: Seq<char>, k: int) -> Option<Seq<u8>>
    decreases edits.len() - k,
{
    if k < 0 || k >= edits.len() {
        None
    } else if edits[k].0 == name {
        Some(edits[k].1)
    } else {
        edit_from(edits, name, k + 1)
    }
}

/// The replacement for the entry `name`: the first edit naming it.
pub open spec fn edit_for(edits: Seq<(Seq<char>, Seq<u8>)>, name: Seq<char>) -> Option<Seq<u8>> {
    edit_from(edits, name, 0)
}

/// The method an entry is written with: stored stays stored, every other
/// method becomes deflate.
pub open spec fn kept_method(m: CompressionMethod) -> CompressionMethod {
    if m is Stored {
        CompressionMethod::Stored
    } else {
        CompressionMethod::Deflated
    }
}

/// How an entry is written into the new package: a directory as an empty
/// stored entry; any other entry stored when it was stored and deflated
/// otherwise, and with its replacement when it has one, its own data when
/// not.
pub open spec fn rewrite_item(
    e: (Seq<char>, bool, CompressionMethod, Option<Seq<u8>>),
    edits: Seq<(Seq<char>, Seq<u8>)>,
) -> (Seq<char>, CompressionMethod, Seq<u8>) {
    if names_directory(e.0) {
        (e.0, CompressionMethod::Stored, Seq::<u8>::empty())
    } else {
        (
            e.0,
            kept_method(e.2),
            match edit_for(edits, e.0) {
                Some(x) => x,
                None => match e.3 {
                    Some(d) => d,
                    None => Seq::<u8>::empty(),
                },
            },
        )
    }
}

/// The entry opens, and, when it is a file without a replacement, reads
/// through.
pub open spec fn entry_copyable(
    e: (Seq<char>, bool, CompressionMethod, Option<Seq<u8>>),
    edits: Seq<(Seq<char>, Seq<u8>)>,
) -> bool {
    e.1 && (names_directory(e.0) || edit_for(edits, e.0) is Some || e.3 is Some)
}

/// Every entry opens, and every file entry without a replacement reads
/// through.
pub open spec fn rewrite_readable(
    es: Seq<(Seq<char>, bool, CompressionMethod, Option<Seq<u8>>)>,
    edits: Seq<(Seq<char>, Seq<u8>)>,
) -> bool {
    forall|i: int| 0 <= i < es.len() ==> entry_copyable(#[trigger] es[i], edits)
}

/// The entries of the rewritten package, as they read back.
pub open spec fn rewritten_package(
    es: Seq<(Seq<char>, bool, CompressionMethod, Option<Seq<u8>>)>,
    edits: Seq<(Seq<char>, Seq<u8>)>,
) -> Seq<(Seq<char>, bool, CompressionMethod, Option<Seq<u8>>)> {
    es.map_values(|e: (Seq<char>, bool, CompressionMethod, Option<Seq<u8>>)| read_back(rewrite_item(e, edits)))
}

/// The replacement the surgery makes for the entry `name`: the edited
/// footnotes or endnotes part, and nothing for any other entry.
pub proof fn lemma_edit_for_part(es: Seq<(Seq<char>, bool, CompressionMethod, Option<Seq<u8>>)>, name: Seq<char>)
    ensures
        FOOTNOTES_PART@ != ENDNOTES_PART@,
        edit_for(separator_edits(es), name) == if name == FOOTNOTES_PART@ {
            part_edit(es, FOOTNOTES_PART@, footnote_element())
        } else if name == ENDNOTES_PART@ {
            part_edit(es, ENDNOTES_PART@, endnote_element())
        } else {
            None
        },
{
    reveal_strlit("word/footnotes.xml");
    reveal_strlit("word/endnotes.xml");
    assert(FOOTNOTES_PART@[5] != ENDNOTES_PART@[5]);
    let edits = separator_edits(es);
    let f = part_edit(es, FOOTNOTES_PART@, footnote_element());
    let e = part_edit(es, ENDNOTES_PART@, endnote_element());
    assert(edit_from(edits, name, 2) is None);
    if f is Some {
        assert(edit_from(edits, name, 1) == if e is Some && name == ENDNOTES_PART@ {
            e
        } else {
            None
        });
    } else {
        assert(edit_from(edits, name, 1) is None);
    }
}

/// Every entry of the package is carried over, in its place and under its
/// name; every entry that is not a directory and not an edited notes part
/// keeps its bytes, byte for byte, stored when it was stored and deflated
/// otherwise. In particular the
/// entries other than the two notes parts all survive unchanged, and so does
/// a notes part without real notes of its own, or one with no rule left to
/// remove.
pub proof fn law_entries_survive(es: Seq<(Seq<char>, bool, CompressionMethod, Option<Seq<u8>>)>)
    ensures
        rewritten_package(es, separator_edits(es)).len() == es.len(),
        forall|i: int|
            0 <= i < es.len() ==> (#[trigger] rewritten_package(es, separator_edits(es))[i]).0
                == es[i].0,
        forall|i: int|
            0 <= i < es.len() && !names_directory(es[i].0) && es[i].3 is Some && edit_for(
                separator_edits(es),
                es[i].0,
            ) is None ==> #[trigger] rewritten_package(es, separator_edits(es))[i] == (
                es[i].0,
                true,
                kept_method(es[i].2),
                es[i].3,
            ),
        forall|name: Seq<char>|
            name != FOOTNOTES_PART@ && name != ENDNOTES_PART@ ==> #[trigger] edit_for(
                separator_edits(es),
                name,
            ) is None,
        !part_has_real_notes(es, FOOTNOTES_PART@, footnote_element()) ==> edit_for(
            separator_edits(es),
            FOOTNOTES_PART@,
        ) is None,
        !part_has_real_notes(es, ENDNOTES_PART@, endnote_element()) ==> edit_for(
            separator_edits(es),
            ENDNOTES_PART@,
        ) is None,
{
    assert forall|name: Seq<char>|
        name != FOOTNOTES_PART@ && name != ENDNOTES_PART@ implies #[trigger] edit_for(
        separator_edits(es),
        name,
    ) is None by {
        lemma_edit_for_part(es, name);
    }
    lemma_edit_for_part(es, FOOTNOTES_PART@);
    lemma_edit_for_part(es, ENDNOTES_PART@);
}

/// The notes part of the rewritten package that the surgery edits reads
/// back as the part with its separator runs removed.
pub proof fn law_edited_parts(es: Seq<(Seq<char>, bool, CompressionMethod, Option<Seq<u8>>)>, i: int)
    requires
        0 <= i < es.len(),
        !names_directory(es[i].0),
        es[i].0 == FOOTNOTES_PART@ || es[i].0 == ENDNOTES_PART@,
    ensures
        es[i].0 == FOOTNOTES_PART@ ==> match part_edit(es, FOOTNOTES_PART@, footnote_element()) {
            Some(x) => rewritten_package(es, separator_edits(es))[i] == (es[i].0, true, kept_method(es[i].2), Some(x)),
            None => es[i].3 is Some ==> rewritten_package(es, separator_edits(es))[i] == (
                es[i].0,
                true,
                kept_method(es[i].2),
                es[i].3,
            ),
        },
        es[i].0 == ENDNOTES_PART@ ==> match part_edit(es, ENDNOTES_PART@, endnote_element()) {
            Some(x) => rewritten_package(es, separator_edits(es))[i] == (es[i].0, true, kept_method(es[i].2), Some(x)),
            None => es[i].3 is Some ==> rewritten_package(es, separator_edits(es))[i] == (
                es[i].0,
                true,
                kept_method(es[i].2),
                es[i].3,
            ),
        },
{
    lemma_edit_for_part(es, es[i].0);
}

/// The edits as names and bytes.
pub open spec fn edits_view(edits: Seq<(String, Vec<u8>)>) -> Seq<(Seq<char>, Seq<u8>)> {
    edits.map_values(|p: (String, Vec<u8>)| (p.0@, p.1@))
}

/// Whether the entry name names a directory.
fn is_directory_name(name: &String) -> (r: bool)
    ensures
        r == names_directory(name@),
{
    let s = name.as_str();
    let n = s.unicode_len();
    if n == 0 {
        return false;
    }
    let c = s.get_char(n - 1);
    c == '/' || c == '\\'
}

/// The position of the first edit for `name`.
fn find_edit(edits: &Vec<(String, Vec<u8>)>, name: &String) -> (r: Option<usize>)
    ensures
        match r {
            Some(k) => k < edits@.len() && edit_for(edits_view(edits@), name@) == Some(
                edits@[k as int].1@,
            ),
            None => edit_for(edits_view(edits@), name@) is None,
        },
{
    let ghost ev = edits_view(edits@);
    let mut k: usize = 0;
    while k < edits.len()
        invariant
            k <= edits@.len(),
            ev == edits_view(edits@),
            edit_for(ev, name@) == edit_from(ev, name@, k as int),
        decreases edits@.len() - k,
    {
        assert(ev[k as int] == (edits@[k as int].0@, edits@[k as int].1@));
        if edits[k].0 == *name {
            return Some(k);
        }
        k = k + 1;
    }
    None
}

/// Every name of the package fits the zip format, and every entry of the
/// rewritten package is small (see `name_fits`, `small_entry`).
pub open spec fn rewrite_fits(
    es: Seq<(Seq<char>, bool, CompressionMethod, Option<Seq<u8>>)>,
    edits: Seq<(Seq<char>, Seq<u8>)>,
) -> bool {
    forall|i: int|
        0 <= i < es.len() ==> name_fits(#[trigger] es[i].0) && small_entry(
            rewrite_item(es[i], edits).2,
        )
}

/// Copies every entry across into a new package, the ones named in `edits`
/// replaced by their edited bytes. Stored entries stay stored and everything
/// else is deflated. It fails when an entry does not open or read through;
/// where every entry does, and every name fits and every entry is small, it
/// succeeds. An entry name too long for the zip format, on which the writer
/// would panic, is answered with an error when the copy reaches it.
fn rewrite_package(archive: &mut ZipArchive<Cursor<Vec<u8>>>, edits: &Vec<(String, Vec<u8>)>) -> (r: Result<
    Vec<u8>,
    String,
>)
    requires
        names_distinct(archive_entries(*old(archive))),
    ensures
        archive_entries(*final(archive)) == archive_entries(*old(archive)),
        !rewrite_readable(archive_entries(*old(archive)), edits_view(edits@)) ==> r is Err,
        rewrite_readable(archive_entries(*old(archive)), edits_view(edits@)) && rewrite_fits(
            archive_entries(*old(archive)),
            edits_view(edits@),
        ) ==> r is Ok,
        r matches Ok(bytes) ==> zip_read(bytes@) == Some(
            rewritten_package(archive_entries(*old(archive)), edits_view(edits@)),
        ),
{
    let ghost es = archive_entries(*archive);
    let ghost ev = edits_view(edits@);
    let ghost owed = rewrite_readable(es, ev) && rewrite_fits(es, ev);
    let n = entry_count(archive);
    let mut w = new_package();
    let mut i: usize = 0;
    assert(es.take(0).map_values(
        |e: (Seq<char>, bool, CompressionMethod, Option<Seq<u8>>)| rewrite_item(e, ev),
    ) =~= written_entries(w));
    while i < n
        invariant
            archive_entries(*archive) == es,
            es == archive_entries(*old(archive)),
            n == es.len(),
            i <= n,
            ev == edits_view(edits@),
            written_entries(w) == es.take(i as int).map_values(
                |e: (Seq<char>, bool, CompressionMethod, Option<Seq<u8>>)| rewrite_item(e, ev),
            ),
            forall|j: int| 0 <= j < i ==> entry_copyable(#[trigger] es[j], ev),
            owed == (rewrite_readable(es, ev) && rewrite_fits(es, ev)),
            names_distinct(es),
        decreases n - i,
    {
        let ghost before = written_entries(w);
        proof {
            if owed {
                assert(entry_copyable(es[i as int], ev));
                assert(name_fits(es[i as int].0));
                assert forall|j: int| 0 <= j < before.len() implies #[trigger] before[j].0
                    != es[i as int].0 by {
                    assert(before[j] == rewrite_item(es[j], ev));
                    assert(es[j].0 != es[i as int].0);
                }
                if i > 0 {
                    assert(before.last() == rewrite_item(es[i - 1], ev));
                    assert(small_entry(rewrite_item(es[i - 1], ev).2));
                }
                assert(writer_accepts(before, es[i as int].0));
            }
        }
        let (name, method) = match entry_header(archive, i) {
            Ok(header) => header,
            Err(e) => {
                let index = ascii_string(u64_decimal(i as u64));
                return Err(join4("Cannot read entry ", index.as_str(), ": ", &e.to_string()));
            },
        };
        let ghost e = es[i as int];
        if is_directory_name(&name) {
            if name.as_str().as_bytes().len() > 0xFFFF {
                return Err(join2("Entry name too long to write: ", name.as_str()));
            }
            match add_directory_entry(&mut w, name.as_str()) {
                Ok(()) => {},
                Err(err) => {
                    let index = ascii_string(u64_decimal(i as u64));
                    return Err(
                        join4("Cannot copy directory ", index.as_str(), ": ", &err.to_string()),
                    );
                },
            }
            assert(es.take(i + 1).map_values(
                |e: (Seq<char>, bool, CompressionMethod, Option<Seq<u8>>)| rewrite_item(e, ev),
            ) =~= before.push(rewrite_item(e, ev)));
        } else {
            let method = match method {
                CompressionMethod::Stored => CompressionMethod::Stored,
                _ => CompressionMethod::Deflated,
            };
            let payload: Vec<u8> = match find_edit(edits, &name) {
                Some(k) => {
                    let copy = copy_range(&edits[k].1, 0, edits[k].1.len());
                    assert(copy@ =~= edits@[k as int].1@);
                    copy
                },
                None => match entry_data(archive, i) {
                    Ok(Ok(data)) => data,
                    Ok(Err(err)) => {
                        return Err(join4("Cannot read ", name.as_str(), ": ", &err.to_string()));
                    },
                    Err(err) => {
                        return Err(join4("Cannot read ", name.as_str(), ": ", &err.to_string()));
                    },
                },
            };
            assert(payload@ == rewrite_item(e, ev).2);
            if name.as_str().as_bytes().len() > 0xFFFF {
                return Err(join2("Entry name too long to write: ", name.as_str()));
            }
            match start_entry(&mut w, name.as_str(), method) {
                Ok(()) => {},
                Err(err) => {
                    return Err(join4("Cannot write ", name.as_str(), ": ", &err.to_string()));
                },
            }
            match write_entry_data(&mut w, &payload) {
                Ok(()) => {},
                Err(err) => {
                    return Err(join4("Cannot write ", name.as_str(), ": ", &err.to_string()));
                },
            }
            assert(written_entries(w) =~= before.push(rewrite_item(e, ev)));
            assert(es.take(i + 1).map_values(
                |e: (Seq<char>, bool, CompressionMethod, Option<Seq<u8>>)| rewrite_item(e, ev),
            ) =~= before.push(rewrite_item(e, ev)));
        }
        assert(entry_copyable(es[i as int], ev));
        i = i + 1;
    }
    proof {
        if owed && n > 0 {
            assert(written_entries(w).last() == rewrite_item(es[n - 1], ev));
        }
    }
    match finish_package(w) {
        Ok(bytes) => {
            assert(es.take(n as int) =~= es);
            assert(written_entries(w).map_values(|x: (Seq<char>, CompressionMethod, Seq<u8>)| read_back(x))
                =~= rewritten_package(es, ev));
            Ok(bytes)
        },
        Err(err) => Err(join2("Cannot finish package: ", &err.to_string())),
    }
}


/// The whole surgery, on bytes: reads the package, decides from its notes
/// parts, and rewrites it when a rule is to go. Returns the result code and,
/// only for `REMOVED`, the bytes of the rewritten package.
///
/// Each notes part present and carrying real notes of its own is operated
/// on; both may be there, either alone, or neither. A part whose only notes
/// are the special ones is left alone, since the engine regenerates it, and
/// if no part has real notes the answer is `NO_NOTES`. When the parts with
/// real notes have no rule left to remove, the answer is `ALREADY_REMOVED`.
/// When a rule is to go and every entry opens and reads through, every name
/// fits the zip format and every entry is small (see `rewrite_fits`), the
/// answer is `REMOVED` with the rewritten package.
pub fn remove_separator_from_docx(bytes: &[u8]) -> (r: Result<(&'static str, Option<Vec<u8>>), String>)
    ensures
        zip_read(bytes@) is None ==> r is Err,
        zip_read(bytes@) matches Some(es) ==> {
            &&& note_parts_fail(es) ==> r is Err
            &&& !note_parts_fail(es) && !any_real_notes(es) ==> (r matches Ok((code, None))
                && code == NO_NOTES)
            &&& !note_parts_fail(es) && any_real_notes(es) && separator_edits(es).len() == 0
                ==> (r matches Ok((code, None)) && code == ALREADY_REMOVED)
            &&& !note_parts_fail(es) && any_real_notes(es) && separator_edits(es).len() > 0
                && !rewrite_readable(es, separator_edits(es)) ==> r is Err
            &&& !note_parts_fail(es) && any_real_notes(es) && separator_edits(es).len() > 0
                ==> (r is Err || (r matches Ok((code, Some(_))) && code == REMOVED))
            &&& !note_parts_fail(es) && any_real_notes(es) && separator_edits(es).len() > 0
                && rewrite_readable(es, separator_edits(es)) && rewrite_fits(es, separator_edits(es))
                ==> (r matches Ok((code, Some(_))) && code == REMOVED)
            &&& r matches Ok((code, Some(out))) ==> code == REMOVED && !note_parts_fail(es)
                && any_real_notes(es) && separator_edits(es).len() > 0 && zip_read(out@) == Some(
                rewritten_package(es, separator_edits(es)),
            )
        },
{
    let copy = copy_range(bytes, 0, bytes.len());
    assert(copy@ =~= bytes@);
    let mut archive = match open_archive(copy) {
        Ok(a) => a,
        Err(e) => {
            return Err(join2("Not a readable docx: ", &e.to_string()));
        },
    };
    let ghost es = archive_entries(archive);
    let footnotes = match examine_part(&mut archive, FOOTNOTES_PART, &footnote_element_bytes()) {
        Ok(found) => found,
        Err(e) => {
            return Err(e);
        },
    };
    let endnotes = match examine_part(&mut archive, ENDNOTES_PART, &endnote_element_bytes()) {
        Ok(found) => found,
        Err(e) => {
            return Err(e);
        },
    };
    let any_real = footnotes.is_some() || endnotes.is_some();
    let mut edits: Vec<(String, Vec<u8>)> = Vec::new();
    if let Some(Some(edited)) = footnotes {
        edits.push((String::from_str(FOOTNOTES_PART), edited));
    }
    if let Some(Some(edited)) = endnotes {
        edits.push((String::from_str(ENDNOTES_PART), edited));
    }
    assert(edits_view(edits@) =~= separator_edits(es));
    if !any_real {
        return Ok((NO_NOTES, None));
    }
    if edits.len() == 0 {
        return Ok((ALREADY_REMOVED, None));
    }
    // One rewrite for however many parts changed: the package is copied once.
    match rewrite_package(&mut archive, &edits) {
        Ok(rewritten) => Ok((REMOVED, Some(rewritten))),
        Err(e) => Err(e),
    }
}

/// The name of the temporary file a rewritten package is written to before
/// it replaces the document: hidden, beside the document, and unique to this
/// process and moment.
pub open spec fn temp_sibling(name: Seq<char>, pid: u32, millis: u64) -> Seq<char> {
    "."@ + name + ".eo-"@ + decimal_chars(pid as int) + "-"@ + decimal_chars(millis as int)
        + ".tmp"@
}

/// The temporary file name for a document whose file name is `file_name`
/// (`document.docx` when the path has none).
pub fn temp_sibling_name(file_name: Option<&str>, pid: u32, millis: u64) -> (r: String)
    ensures
        r@ == temp_sibling(
            match file_name {
                Some(n) => n@,
                None => "document.docx"@,
            },
            pid,
            millis,
        ),
{
    let mut out: Vec<char> = Vec::new();
    push_str_chars(&mut out, ".");
    match file_name {
        Some(n) => push_str_chars(&mut out, n),
        None => push_str_chars(&mut out, "document.docx"),
    }
    push_str_chars(&mut out, ".eo-");
    let p = u64_decimal_chars(pid as u64);
    push_chars(&mut out, &p, 0, p.len());
    assert(p@.subrange(0, p@.len() as int) =~= p@);
    push_str_chars(&mut out, "-");
    let m = u64_decimal_chars(millis);
    push_chars(&mut out, &m, 0, m.len());
    assert(m@.subrange(0, m@.len() as int) =~= m@);
    push_str_chars(&mut out, ".tmp");
    string_from_chars(&out)
}

/// The temporary file name for the document at `path`, whose file name
/// `Path::file_name` reads (see `path_file_name`).
pub fn temp_sibling_name_for(path: &str, pid: u32, millis: u64) -> (r: String)
    ensures
        exists|name: Option<Seq<char>>|
            {
                &&& #[trigger] possible_file_name(path@, name)
                &&& r@ == temp_sibling(
                    match name {
                        Some(n) => n,
                        None => "document.docx"@,
                    },
                    pid,
                    millis,
                )
            },
        plain_path(path@) ==> r@ == temp_sibling(after_last(path@, '/'), pid, millis),
{
    let name = path_file_name(path);
    match &name {
        Some(n) => {
            let r = temp_sibling_name(Some(n.as_str()), pid, millis);
            assert(possible_file_name(path@, Some(n@)));
            assert(r@ == temp_sibling(
                match Some(n@) {
                    Some(t) => t,
                    None => "document.docx"@,
                },
                pid,
                millis,
            ));
            r
        },
        None => {
            let r = temp_sibling_name(None, pid, millis);
            assert(possible_file_name(path@, None::<Seq<char>>));
            assert(r@ == temp_sibling(
                match None::<Seq<char>> {
                    Some(t) => t,
                    None => "document.docx"@,
                },
                pid,
                millis,
            ));
            r
        },
    }
}

} // verus!
