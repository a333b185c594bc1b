use euro_office_lite::notes::{attr_value, element_starts, has_real_notes, strip_separator_runs};
use euro_office_lite::package::{
    remove_separator_from_docx, ALREADY_REMOVED, ENDNOTES_PART, FOOTNOTES_PART, NO_NOTES, REMOVED,
};
use std::io::{Read, Write};

const FOOTNOTE: &str = "w:footnote";
const ENDNOTE: &str = "w:endnote";

// The special notes exactly as the engine writes them, built for either note
// element since the two parts are the same document twice over.
fn special_note(note_element: &str, note_type: &str, id: &str, run_element: &str) -> String {
    format!(
        "<{n} w:type=\"{t}\" w:id=\"{i}\">\
<w:p><w:pPr><w:spacing w:after=\"0\" w:line=\"240\" w:lineRule=\"auto\"/></w:pPr>\
<w:r></w:r><w:r><{r}/></w:r><w:r></w:r></w:p></{n}>",
        n = note_element,
        t = note_type,
        i = id,
        r = run_element
    )
}

fn separator_note(note_element: &str) -> String {
    special_note(note_element, "separator", "-1", "w:separator")
}

fn continuation_note(note_element: &str) -> String {
    special_note(note_element, "continuationSeparator", "0", "w:continuationSeparator")
}

// Both special notes, in the order the engine emits them.
fn specials(note_element: &str) -> String {
    format!("{}{}", separator_note(note_element), continuation_note(note_element))
}

fn real_note(note_element: &str) -> String {
    let style = if note_element == FOOTNOTE { "Footnote" } else { "Endnote" };
    format!(
        "<{n} w:id=\"1\"><w:p><w:pPr><w:pStyle w:val=\"{s}Text\"/></w:pPr>\
<w:r><w:rPr><w:rStyle w:val=\"{s}Reference\"/></w:rPr><w:{l}Ref/></w:r>\
<w:r><w:t xml:space=\"preserve\"> a real note</w:t></w:r></w:p></{n}>",
        n = note_element,
        s = style,
        l = note_element
    )
}

// The part as a whole: <w:footnotes> or <w:endnotes> around the blocks.
fn notes_part(note_element: &str, body: &str) -> String {
    format!(
        "<?xml version=\"1.0\" encoding=\"UTF-8\" standalone=\"yes\"?>\
<{n}s xmlns:w=\"http://schemas.openxmlformats.org/wordprocessingml/2006/main\">{b}</{n}s>",
        n = note_element,
        b = body
    )
}

// A part holding the two special notes and one real note: the ordinary case.
fn populated_part(note_element: &str) -> String {
    notes_part(note_element, &format!("{}{}", specials(note_element), real_note(note_element)))
}

fn footnotes_part(body: &str) -> String {
    notes_part(FOOTNOTE, body)
}

// Everything a docx carries besides the note parts.
fn other_entries() -> Vec<(&'static str, Vec<u8>)> {
    vec![
        ("[Content_Types].xml", b"<Types/>".to_vec()),
        ("_rels/.rels", b"<Relationships/>".to_vec()),
        ("word/document.xml", b"<w:document><w:body/></w:document>".to_vec()),
        // Binary, and incompressible, so a re-deflate that mangled it would show.
        ("word/media/image1.png", (0u8..=255).cycle().take(4096).collect()),
    ]
}

fn docx_with_parts(footnotes: Option<&str>, endnotes: Option<&str>) -> Vec<u8> {
    let mut writer = zip::ZipWriter::new(std::io::Cursor::new(Vec::new()));
    let options = zip::write::SimpleFileOptions::default();
    for (name, data) in other_entries() {
        writer.start_file(name, options).unwrap();
        writer.write_all(&data).unwrap();
    }
    for (part, xml) in [(FOOTNOTES_PART, footnotes), (ENDNOTES_PART, endnotes)] {
        if let Some(xml) = xml {
            writer.start_file(part, options).unwrap();
            writer.write_all(xml.as_bytes()).unwrap();
        }
    }
    writer.finish().unwrap().into_inner()
}

fn docx_with(footnotes: Option<&str>) -> Vec<u8> {
    docx_with_parts(footnotes, None)
}

fn entry_of(bytes: &[u8], name: &str) -> Option<Vec<u8>> {
    let mut archive = zip::ZipArchive::new(std::io::Cursor::new(bytes.to_vec())).unwrap();
    let mut file = match archive.by_name(name) {
        Ok(f) => f,
        Err(zip::result::ZipError::FileNotFound) => return None,
        Err(e) => panic!("Cannot read {}: {}", name, e),
    };
    let mut data = Vec::new();
    file.read_to_end(&mut data).unwrap();
    Some(data)
}

fn part_of(bytes: &[u8], name: &str) -> String {
    String::from_utf8(entry_of(bytes, name).expect("the part must be there")).unwrap()
}

fn footnotes_of(bytes: &[u8]) -> String {
    part_of(bytes, FOOTNOTES_PART)
}

fn endnotes_of(bytes: &[u8]) -> String {
    part_of(bytes, ENDNOTES_PART)
}

// Neither rule may survive in a part that was operated on, and the special
// notes themselves have to stay, emptied.
fn assert_both_rules_gone(xml: &str, note_element: &str) {
    assert!(
        !xml.contains("<w:separator/>"),
        "the run holding the separator is what draws the short line: {}",
        xml
    );
    assert!(
        !xml.contains("<w:continuationSeparator/>"),
        "the continuation separator draws the full-width line the reporter \
         wants gone as well: {}",
        xml
    );
    assert!(
        xml.contains("w:type=\"separator\"") && xml.contains("w:type=\"continuationSeparator\""),
        "both special {} blocks must survive, emptied, or the engine \
         regenerates them with the lines back: {}",
        note_element,
        xml
    );
}

#[test]
fn a_document_with_notes_loses_both_separator_runs() {
    let body = format!("{}{}", specials(FOOTNOTE), real_note(FOOTNOTE));
    let docx = docx_with(Some(&footnotes_part(&body)));

    let (code, rewritten) = remove_separator_from_docx(&docx).unwrap();
    assert_eq!(code, REMOVED);
    let xml = footnotes_of(&rewritten.expect("the package must be rewritten"));

    assert_both_rules_gone(&xml, FOOTNOTE);
    // Only those two runs of the six go.
    assert_eq!(
        xml.matches("<w:r>").count() + xml.matches("<w:r ").count(),
        body.matches("<w:r>").count() + body.matches("<w:r ").count() - 2,
        "exactly two runs may be removed: {}",
        xml
    );
    assert!(xml.contains("a real note"), "the notes themselves are untouched");
}

// The reporter's own document: endnotes, no footnotes part at all.
#[test]
fn a_document_with_only_endnotes_loses_both_endnote_rules() {
    let docx = docx_with_parts(None, Some(&populated_part(ENDNOTE)));

    let (code, rewritten) = remove_separator_from_docx(&docx).unwrap();
    assert_eq!(code, REMOVED);
    let rewritten = rewritten.expect("the package must be rewritten");

    assert_both_rules_gone(&endnotes_of(&rewritten), ENDNOTE);
    assert!(
        entry_of(&rewritten, FOOTNOTES_PART).is_none(),
        "no part may be invented for a document that has none"
    );
    assert!(endnotes_of(&rewritten).contains("a real note"));
}

// Both kinds of note in one document: one action, four runs.
#[test]
fn a_document_with_both_kinds_loses_all_four_runs() {
    let docx = docx_with_parts(Some(&populated_part(FOOTNOTE)), Some(&populated_part(ENDNOTE)));

    let (code, rewritten) = remove_separator_from_docx(&docx).unwrap();
    assert_eq!(code, REMOVED);
    let rewritten = rewritten.expect("the package must be rewritten");

    assert_both_rules_gone(&footnotes_of(&rewritten), FOOTNOTE);
    assert_both_rules_gone(&endnotes_of(&rewritten), ENDNOTE);
}

// A part with nothing but the special notes is regenerated wholesale by the
// engine, so it stays exactly as it was even when the other part is operated on.
#[test]
fn a_part_without_real_notes_is_left_alone_while_the_other_is_operated_on() {
    let empty_endnotes = notes_part(ENDNOTE, &specials(ENDNOTE));
    let docx = docx_with_parts(Some(&populated_part(FOOTNOTE)), Some(&empty_endnotes));

    let (code, rewritten) = remove_separator_from_docx(&docx).unwrap();
    assert_eq!(code, REMOVED);
    let rewritten = rewritten.expect("the package must be rewritten");

    assert_both_rules_gone(&footnotes_of(&rewritten), FOOTNOTE);
    assert_eq!(
        endnotes_of(&rewritten),
        empty_endnotes,
        "a part the engine regenerates must come out byte for byte as it went in"
    );
}

// No note part at all: the document has never had a note.
#[test]
fn a_document_without_any_note_part_reports_no_notes() {
    let docx = docx_with_parts(None, None);

    let (code, rewritten) = remove_separator_from_docx(&docx).unwrap();

    assert_eq!(code, NO_NOTES);
    assert!(rewritten.is_none(), "nothing may be written for a no-op");
}

// Both parts present but holding only the special notes: same answer.
#[test]
fn a_document_with_only_the_special_notes_reports_no_notes() {
    let docx = docx_with_parts(
        Some(&notes_part(FOOTNOTE, &specials(FOOTNOTE))),
        Some(&notes_part(ENDNOTE, &specials(ENDNOTE))),
    );

    let (code, rewritten) = remove_separator_from_docx(&docx).unwrap();

    assert_eq!(code, NO_NOTES);
    assert!(rewritten.is_none());
}

// Running it twice must not keep eating runs, and that holds with both parts
// in play.
#[test]
fn a_document_already_operated_on_reports_already_removed() {
    let docx = docx_with_parts(Some(&populated_part(FOOTNOTE)), Some(&populated_part(ENDNOTE)));
    let once = remove_separator_from_docx(&docx).unwrap().1.unwrap();

    let (code, rewritten) = remove_separator_from_docx(&once).unwrap();

    assert_eq!(code, ALREADY_REMOVED);
    assert!(rewritten.is_none());
}

// One part still has a rule to lose: that is a removal, not an already_removed,
// even though the other part is done.
#[test]
fn one_part_still_holding_a_rule_is_enough_for_a_removal() {
    let done = notes_part(
        FOOTNOTE,
        &format!(
            "{}{}",
            specials(FOOTNOTE)
                .replace("<w:r><w:separator/></w:r>", "")
                .replace("<w:r><w:continuationSeparator/></w:r>", ""),
            real_note(FOOTNOTE)
        ),
    );
    let docx = docx_with_parts(Some(&done), Some(&populated_part(ENDNOTE)));

    let (code, rewritten) = remove_separator_from_docx(&docx).unwrap();
    assert_eq!(code, REMOVED);
    let rewritten = rewritten.expect("the package must be rewritten");

    assert_eq!(footnotes_of(&rewritten), done, "the finished part is not touched again");
    assert_both_rules_gone(&endnotes_of(&rewritten), ENDNOTE);
}

// The search has to stay inside the special notes: a real note can hold a
// <w:separator/> or a <w:continuationSeparator/> of its own.
#[test]
fn a_separator_inside_a_real_note_is_never_touched() {
    for (note_element, run_element) in [
        (FOOTNOTE, "w:separator"),
        (FOOTNOTE, "w:continuationSeparator"),
        (ENDNOTE, "w:separator"),
        (ENDNOTE, "w:continuationSeparator"),
    ] {
        let note_with_rule = format!(
            "<{n} w:id=\"1\"><w:p><w:r><{r}/></w:r><w:r><w:t>note body</w:t></w:r></w:p></{n}>",
            n = note_element,
            r = run_element
        );
        let emptied = specials(note_element)
            .replace("<w:r><w:separator/></w:r>", "")
            .replace("<w:r><w:continuationSeparator/></w:r>", "");
        let part = notes_part(note_element, &format!("{}{}", emptied, note_with_rule));
        let docx = if note_element == FOOTNOTE {
            docx_with_parts(Some(&part), None)
        } else {
            docx_with_parts(None, Some(&part))
        };

        let (code, rewritten) = remove_separator_from_docx(&docx).unwrap();

        assert_eq!(code, ALREADY_REMOVED, "{} / {}", note_element, run_element);
        assert!(
            rewritten.is_none(),
            "the note's own {} is the user's content, not the note rule",
            run_element
        );
    }
}

// The surgery rewrites the whole package, so everything it is not aiming at
// has to come out the other side unchanged.
#[test]
fn every_other_entry_survives_byte_for_byte() {
    let docx = docx_with_parts(Some(&populated_part(FOOTNOTE)), Some(&populated_part(ENDNOTE)));

    let rewritten = remove_separator_from_docx(&docx).unwrap().1.unwrap();

    for (name, data) in other_entries() {
        assert_eq!(
            entry_of(&rewritten, name).unwrap_or_default(),
            data,
            "{} must be copied across untouched",
            name
        );
    }
    let mut archive = zip::ZipArchive::new(std::io::Cursor::new(rewritten)).unwrap();
    assert_eq!(
        archive.len(),
        other_entries().len() + 2,
        "no entry may be dropped or invented"
    );
    assert!(archive.by_name("word/document.xml").is_ok());
}

// Spacing and attributes on the run are the engine's business and vary
// between versions, so the search cannot depend on the exact bytes.
#[test]
fn the_run_is_found_through_whitespace_and_attributes() {
    let separator = "<w:footnote w:type='separator' w:id='-1'>\n  <w:p>\n    <w:pPr/>\n\
    <w:r w:rsidR=\"00AB12CD\">\n      <w:separator />\n    </w:r>\n  </w:p>\n</w:footnote>";
    let continuation = "<w:footnote w:type = 'continuationSeparator' w:id='0'>\n  <w:p>\n\
    <w:r w:rsidR=\"00EF34AB\">\n      <w:continuationSeparator />\n    </w:r>\n  </w:p>\n</w:footnote>";
    let body = format!("{}{}{}", separator, continuation, real_note(FOOTNOTE));
    let docx = docx_with(Some(&footnotes_part(&body)));

    let (code, rewritten) = remove_separator_from_docx(&docx).unwrap();
    let xml = footnotes_of(&rewritten.expect("the package must be rewritten"));

    assert_eq!(code, REMOVED);
    assert!(!xml.contains("<w:separator"), "{}", xml);
    assert!(!xml.contains("<w:continuationSeparator"), "{}", xml);
    assert!(!xml.contains("00AB12CD"), "the whole run goes, not just the tag: {}", xml);
    assert!(!xml.contains("00EF34AB"), "the whole run goes, not just the tag: {}", xml);
}

// A special note whose run is nested one level deeper than the autopsy showed
// must still lose the run, not the paragraph around it.
#[test]
fn only_the_enclosing_runs_are_removed() {
    let xml = populated_part(FOOTNOTE);

    let edited = strip_separator_runs(&xml, FOOTNOTE).unwrap();

    assert!(edited.contains("<w:pPr>"), "the paragraph properties stay: {}", edited);
    assert!(edited.contains("</w:p></w:footnote>"), "the paragraph stays closed: {}", edited);
    assert_eq!(
        edited.matches("</w:footnote>").count(),
        3,
        "no footnote may be swallowed: {}",
        edited
    );
}

// The element scan must not answer for elements that merely share a prefix.
#[test]
fn element_matching_stops_at_the_name_boundary() {
    assert_eq!(element_starts("<w:rPr><w:r><w:rFonts/>", "w:r"), vec!["<w:rPr>".len()]);
    assert_eq!(
        element_starts("<w:footnotes><w:footnotePr/><w:footnote w:id=\"1\"/>", "w:footnote"),
        vec!["<w:footnotes><w:footnotePr/>".len()]
    );
    assert_eq!(
        element_starts("<w:endnotes><w:endnotePr/><w:endnote w:id=\"1\"/>", "w:endnote"),
        vec!["<w:endnotes><w:endnotePr/>".len()]
    );
    assert_eq!(
        element_starts("<w:separatorX/><w:separator/>", "w:separator"),
        vec!["<w:separatorX/>".len()]
    );
    assert!(element_starts("<w:continuationSeparator/>", "w:separator").is_empty());
}

#[test]
fn attributes_are_read_whole_and_in_either_quote_style() {
    assert_eq!(attr_value("w:footnote w:id=\"-1\"", "w:id").as_deref(), Some("-1"));
    assert_eq!(attr_value("w:endnote w:id='7'", "w:id").as_deref(), Some("7"));
    assert_eq!(attr_value("w:footnote w:idOther=\"3\"", "w:id"), None);
    assert_eq!(attr_value("w:footnote w:type = \"separator\"", "w:type").as_deref(), Some("separator"));
}

#[test]
fn only_positive_ids_of_the_matching_element_count_as_real_notes() {
    for note_element in [FOOTNOTE, ENDNOTE] {
        let part = notes_part(note_element, &specials(note_element));
        assert!(!has_real_notes(&part, note_element));
        assert!(has_real_notes(&populated_part(note_element), note_element));
    }
    // A footnotes part never answers for endnotes, and the other way round.
    assert!(!has_real_notes(&populated_part(FOOTNOTE), ENDNOTE));
    assert!(!has_real_notes(&populated_part(ENDNOTE), FOOTNOTE));
}

#[test]
fn something_that_is_not_a_zip_is_an_error_not_a_code() {
    assert!(remove_separator_from_docx(b"not a docx at all").is_err());
}
