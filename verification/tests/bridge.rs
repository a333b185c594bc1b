use euro_office_lite::bridge::{exec_command, load_font, media_listing, modified_title, window_title};

#[test]
fn the_window_title_names_the_document() {
    assert_eq!(window_title("Report.docx"), "Euro-Office Lite — Report.docx");
}

#[test]
fn the_modified_mark_follows_the_last_report() {
    let title = window_title("a.docx");
    let marked = modified_title(&title, true);
    assert_eq!(marked, "● Euro-Office Lite — a.docx");
    assert_eq!(modified_title(&marked, true), marked);
    assert_eq!(modified_title(&marked, false), title);
    assert_eq!(modified_title("● ● x", true), "● x");
    assert_eq!(modified_title("● ● x", false), "x");
    assert_eq!(modified_title("●x", false), "●x");
}

#[test]
fn commands_are_echoed() {
    assert_eq!(exec_command("save".to_string(), None), Ok("cmd:save param:None".to_string()));
    assert_eq!(
        exec_command("open".to_string(), Some("a \"b\"".to_string())),
        Ok("cmd:open param:Some(\"a \\\"b\\\"\")".to_string())
    );
}

#[test]
fn fonts_are_never_loaded_through_the_bridge() {
    assert_eq!(load_font("Arial".to_string()), Ok(None));
}

#[test]
fn the_media_listing() {
    assert_eq!(media_listing(&None), "media/ not found");
    assert_eq!(media_listing(&Some(vec![])), "");
    assert_eq!(
        media_listing(&Some(vec![("image1.png".to_string(), 120), ("image2.jpg".to_string(), 0)])),
        "image1.png(120), image2.jpg(0)"
    );
}
