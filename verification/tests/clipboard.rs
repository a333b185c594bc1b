use euro_office_lite::clipboard::{
    copied_image_file_name, copied_image_file_name_for, first_image, first_image_file, pasted_bitmap,
    is_image_extension, pasted_image_name, trim_line_ends,
};

#[test]
fn line_ends_are_trimmed_from_listed_paths() {
    assert_eq!(trim_line_ends("/home/u/a.png\r\n"), "/home/u/a.png");
    assert_eq!(trim_line_ends("/home/u/a.png\r"), "/home/u/a.png");
    assert_eq!(trim_line_ends("/home/u/a.png"), "/home/u/a.png");
    assert_eq!(trim_line_ends("\r\n\n"), "");
    assert_eq!(trim_line_ends("a\nb\n"), "a\nb");
}

#[test]
fn image_extensions_ignore_case() {
    for ext in ["png", "JPG", "jpeg", "Gif", "bmp", "svg", "webp", "ICO"] {
        assert!(is_image_extension(ext), "{}", ext);
    }
    assert!(!is_image_extension("tiff"));
    assert!(!is_image_extension("docx"));
}

#[test]
fn the_first_image_of_a_paste_is_taken() {
    let exts = vec![None, Some("txt".to_string()), Some("PNG".to_string()), Some("jpg".to_string())];
    assert_eq!(first_image(&exts), Some(2));
    assert_eq!(first_image(&vec![None, Some("pdf".to_string())]), None);
    let paths = vec!["/a/notes.txt".to_string(), "/a/photo.JPG".to_string()];
    assert_eq!(first_image_file(&paths), Some(1));
    assert_eq!(first_image_file(&vec!["/a/png".to_string()]), None);
}

#[test]
fn pasted_files_and_bitmaps_are_named_by_time() {
    assert_eq!(copied_image_file_name(1700000000123, Some("JPG")), "clipboard_file_1700000000123.jpg");
    assert_eq!(copied_image_file_name(5, None), "clipboard_file_5.png");
    assert_eq!(copied_image_file_name_for(7, "/x/y.Png"), "clipboard_file_7.png");
    assert_eq!(copied_image_file_name_for(7, "/x/noext"), "clipboard_file_7.png");
    assert_eq!(pasted_image_name(42), "clipboard_42.png");
}

#[test]
fn a_bitmap_needs_four_bytes_a_pixel() {
    assert!(pasted_bitmap(2, 3, vec![0u8; 24]).is_some());
    assert!(pasted_bitmap(2, 3, vec![0u8; 23]).is_none());
    assert!(pasted_bitmap(0, 0, vec![]).is_some());
}

#[test]
fn a_bitmap_holds_the_bytes_it_was_made_from() {
    let bytes: Vec<u8> = (0u8..24).collect();
    let bitmap = pasted_bitmap(2, 3, bytes.clone()).expect("enough bytes");
    assert_eq!(bitmap.buffer.as_raw(), &bytes);
    assert_eq!(bitmap.buffer.width(), 2);
    assert_eq!(bitmap.buffer.height(), 3);
}

#[test]
fn windows_paths_are_read_by_their_extension() {
    let paths = vec!["C:\\Users\\me\\notes.txt".to_string(), "C:\\Users\\me\\photo.JPG".to_string()];
    assert_eq!(first_image_file(&paths), Some(1));
    assert_eq!(copied_image_file_name_for(3, "D:\\pics\\scan.PNG"), "clipboard_file_3.png");
}
