use euro_office_lite::formats::{
    detect_format, eq_ignore_ascii_case, format_of_extension, is_docx, EDITOR_FORMAT, PDF_FORMAT,
};
use euro_office_lite::package::{NOT_DOCX, NO_FILE};
use euro_office_lite::platform::Platform;
use euro_office_lite::session::viewer_command;
use euro_office_lite::session::{
    change_file_name, get_current_path, insert_image_url, launch_document, note_separator_target,
    print_outcome, save_as_clears_changes, template_for, AppState,
};

#[test]
fn a_fresh_state_has_no_document() {
    let state = AppState::new("/tmp/eo".to_string());
    assert!(state.current_file.is_none());
    assert!(!state.modified);
    assert_eq!(state.temp_dir, "/tmp/eo");
    assert_eq!(get_current_path(&state), None);
    assert_eq!(state.save_target(), Err("No file is currently open".to_string()));
}

#[test]
fn opening_and_saving_track_the_document() {
    let mut state = AppState::new("/tmp/eo".to_string());
    state.document_opened("/docs/a.docx".to_string());
    assert_eq!(get_current_path(&state), Some("/docs/a.docx".to_string()));
    assert_eq!(state.save_target(), Ok("/docs/a.docx".to_string()));
    state.set_modified(true);
    assert!(state.close_needs_confirmation());
    state.document_saved();
    assert!(!state.modified);
    assert!(!state.close_needs_confirmation());
    assert_eq!(state.current_file.as_deref(), Some("/docs/a.docx"));
}

#[test]
fn save_as_moves_to_the_new_file_except_for_a_pdf_export() {
    let mut state = AppState::new("/tmp/eo".to_string());
    state.document_opened("/docs/a.docx".to_string());
    state.set_modified(true);
    state.document_saved_as("/docs/a.pdf".to_string(), PDF_FORMAT);
    assert_eq!(state.current_file.as_deref(), Some("/docs/a.docx"));
    assert!(!state.modified);
    state.document_saved_as("/docs/b.odt".to_string(), 67);
    assert_eq!(state.current_file.as_deref(), Some("/docs/b.odt"));
    assert!(save_as_clears_changes(513));
    assert!(!save_as_clears_changes(65));
}

#[test]
fn a_new_document_has_no_file() {
    let mut state = AppState::new("/tmp/eo".to_string());
    state.document_opened("/docs/a.docx".to_string());
    state.set_modified(true);
    state.forget_document();
    assert!(state.current_file.is_none());
    assert!(!state.modified);
}

#[test]
fn templates_by_document_kind() {
    assert_eq!(template_for("word"), Ok("templates/blank.docx"));
    assert_eq!(template_for("cell"), Ok("templates/blank.xlsx"));
    assert_eq!(template_for("slide"), Ok("templates/blank.pptx"));
    assert_eq!(template_for("pdf"), Err("Unknown type: pdf".to_string()));
}

#[test]
fn change_files_are_numbered() {
    assert_eq!(change_file_name(3), "change_3.json");
    assert_eq!(change_file_name(0), "change_0.json");
    assert_eq!(change_file_name(-12), "change_-12.json");
}

#[test]
fn formats_by_extension() {
    assert_eq!(detect_format("/d/a.docx"), 65);
    assert_eq!(detect_format("/d/a.csv"), 260);
    assert_eq!(detect_format("/d/a.pdf"), 513);
    assert_eq!(detect_format("/d/a.DOCX"), 0);
    assert_eq!(detect_format("/d/noext"), 0);
    assert_eq!(format_of_extension(Some("odp")), 131);
    assert_eq!(format_of_extension(None), 0);
    assert_eq!(EDITOR_FORMAT, 8192);
    assert_eq!(PDF_FORMAT, 513);
}

#[test]
fn word_documents_are_told_apart_ignoring_case() {
    assert!(is_docx("/d/a.docx"));
    assert!(is_docx("/d/a.DocX"));
    assert!(!is_docx("/d/a.doc"));
    assert!(!is_docx("/d/docx"));
    assert!(eq_ignore_ascii_case("DOCX", "docx"));
    assert!(!eq_ignore_ascii_case("docx", "docs"));
}

#[test]
fn the_note_separator_command_needs_a_saved_word_document() {
    let mut state = AppState::new("/tmp/eo".to_string());
    assert_eq!(note_separator_target(&state), Err(NO_FILE));
    state.document_opened("/d/a.xlsx".to_string());
    assert_eq!(note_separator_target(&state), Err(NOT_DOCX));
    state.document_opened("/d/a.DOCX".to_string());
    assert_eq!(note_separator_target(&state), Ok("/d/a.DOCX".to_string()));
}

#[test]
fn printing_answers_the_pdf_or_an_error() {
    assert_eq!(print_outcome(0, "/t/print_output.pdf"), Err("PDF file is empty".to_string()));
    assert_eq!(print_outcome(10, "/t/print_output.pdf"), Ok("/t/print_output.pdf".to_string()));
}

#[test]
fn inserted_images_are_served_by_absolute_path() {
    assert_eq!(insert_image_url("C:\\t\\insert_tmp\\media\\a.png"), "ascdesktop://abs/C:/t/insert_tmp/media/a.png");
    assert_eq!(insert_image_url("/t/media/a.png"), "ascdesktop://abs//t/media/a.png");
}

#[test]
fn the_launch_argument_opens_an_existing_file() {
    assert_eq!(launch_document(Some("/d/a.docx"), true), Some("/d/a.docx".to_string()));
    assert_eq!(launch_document(Some("/d/a.docx"), false), None);
    assert_eq!(launch_document(Some("--flag"), true), None);
    assert_eq!(launch_document(None, true), None);
}

#[test]
fn each_platform_opens_pdfs_with_its_viewer() {
    assert_eq!(
        viewer_command(Platform::Windows, "C:\\t\\a.pdf"),
        ("cmd".to_string(), vec!["/c".to_string(), "start".to_string(), String::new(), "C:\\t\\a.pdf".to_string()])
    );
    assert_eq!(viewer_command(Platform::MacOs, "/t/a.pdf"), ("open".to_string(), vec!["/t/a.pdf".to_string()]));
    assert_eq!(viewer_command(Platform::Linux, "/t/a.pdf"), ("xdg-open".to_string(), vec!["/t/a.pdf".to_string()]));
}

#[test]
fn windows_paths_have_their_format() {
    assert_eq!(detect_format("C:\\dir\\a.docx"), 65);
    assert_eq!(detect_format("C:\\dir\\sheet.xlsx"), 257);
    assert!(is_docx("C:\\Users\\me\\Report.DOCX"));
    let mut state = AppState::new("C:\\t".to_string());
    state.document_opened("C:\\d\\a.docx".to_string());
    assert_eq!(note_separator_target(&state), Ok("C:\\d\\a.docx".to_string()));
}
