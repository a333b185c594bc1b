use euro_office_lite::assets::download_file_name;
use euro_office_lite::notes::{attr_value, element_starts, strip_separator_runs};
use euro_office_lite::package::{temp_sibling_name, temp_sibling_name_for};

#[test]
fn the_temporary_file_is_a_hidden_sibling() {
    assert_eq!(temp_sibling_name(Some("Report.docx"), 4242, 1700000000000), ".Report.docx.eo-4242-1700000000000.tmp");
    assert_eq!(temp_sibling_name(None, 1, 2), ".document.docx.eo-1-2.tmp");
    assert_eq!(temp_sibling_name_for("/home/u/Report.docx", 7, 8), ".Report.docx.eo-7-8.tmp");
    assert_eq!(temp_sibling_name_for("/", 7, 8), ".document.docx.eo-7-8.tmp");
}

#[test]
fn every_whole_element_start_is_found() {
    let xml = "<w:r><w:rPr/><w:r\t/><w:r>x</w:r><w:rFonts/><w:r";
    assert_eq!(element_starts(xml, "w:r"), vec![0, 13, 20]);
    assert_eq!(element_starts("", "w:r"), Vec::<usize>::new());
}

#[test]
fn an_empty_attribute_name_reads_the_value_after_a_leading_equals_sign() {
    assert_eq!(attr_value("  = 'v' x", "").as_deref(), Some("v"));
    assert_eq!(attr_value("=", ""), None);
    assert_eq!(attr_value("=\"open", ""), None);
}

#[test]
fn emptying_a_special_note_keeps_everything_around_it() {
    let before = "<w:footnotes><w:footnote w:id=\"1\"><w:r><w:separator/></w:r></w:footnote>";
    let special = "<w:footnote w:type=\"separator\" w:id=\"-1\"><w:p><w:r><w:separator/></w:r></w:p></w:footnote>";
    let after = "<w:footnote w:id=\"2\"><w:r><w:continuationSeparator/></w:r></w:footnote></w:footnotes>";
    let xml = format!("{}{}{}", before, special, after);
    let edited = strip_separator_runs(&xml, "w:footnote").expect("a rule to remove");
    assert_eq!(
        edited,
        format!(
            "{}{}{}",
            before,
            "<w:footnote w:type=\"separator\" w:id=\"-1\"><w:p></w:p></w:footnote>",
            after
        )
    );
}

// Removing the run of the first rule in a special note leaves any second
// rule of that note for the next pass: removal is not idempotent there.
#[test]
fn a_second_rule_in_one_note_is_left_for_the_next_pass() {
    let xml = "<w:footnotes><w:footnote w:type=\"separator\" w:id=\"-1\"><w:p>\
<w:r><w:separator/></w:r><w:r><w:separator/></w:r></w:p></w:footnote></w:footnotes>";
    let once = strip_separator_runs(xml, "w:footnote").expect("a rule to remove");
    assert_eq!(
        once,
        "<w:footnotes><w:footnote w:type=\"separator\" w:id=\"-1\"><w:p>\
<w:r><w:separator/></w:r></w:p></w:footnote></w:footnotes>"
    );
    let twice = strip_separator_runs(&once, "w:footnote").expect("the second rule");
    assert_eq!(
        twice,
        "<w:footnotes><w:footnote w:type=\"separator\" w:id=\"-1\"><w:p></w:p></w:footnote></w:footnotes>"
    );
    assert_eq!(strip_separator_runs(&twice, "w:footnote"), None);
}

#[test]
fn download_names_hold_no_path_separator() {
    assert_eq!(download_file_name("https://x/a\\..\\b.png", "download"), "a..b.png");
}
