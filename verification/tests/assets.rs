use euro_office_lite::assets::{
    asset_path_of, download_file_name, percent_decode_checked, percent_decode_str, route_request,
    AssetRequest,
};

fn route(uri: &str) -> AssetRequest {
    route_request(uri).expect("the path decodes")
}

#[test]
fn percent_escapes_are_decoded() {
    assert_eq!(percent_decode_str("a%20b"), "a b");
    assert_eq!(percent_decode_str("%41%62c"), "Abc");
    assert_eq!(percent_decode_str("%E2%97%8F"), "●");
}

#[test]
fn text_without_escapes_is_kept() {
    assert_eq!(percent_decode_str("fonts/Noto Sans.ttf"), "fonts/Noto Sans.ttf");
    assert_eq!(percent_decode_str(""), "");
}

#[test]
fn malformed_escapes_are_kept_as_they_are() {
    assert_eq!(percent_decode_str("%zz"), "%zz");
    assert_eq!(percent_decode_str("100%"), "100%");
    // Two bytes must follow the `%`.
    assert_eq!(percent_decode_str("%4"), "%4");
    assert_eq!(percent_decode_str("%41"), "A");
    assert_eq!(percent_decode_str("x%41"), "xA");
}

#[test]
fn a_plus_sign_is_read_as_the_sign_of_the_number() {
    assert_eq!(percent_decode_str("%+9x"), "\u{9}x");
    assert_eq!(percent_decode_str("%-9x"), "%-9x");
}

#[test]
fn bytes_that_are_not_utf8_give_the_input_back() {
    assert_eq!(percent_decode_str("a%FFb"), "a%FFb");
}

#[test]
fn an_escape_cut_inside_a_character_has_no_decoding() {
    assert_eq!(percent_decode_checked("%aéz"), None);
    assert_eq!(percent_decode_checked("%éz"), Some("%éz".to_string()));
}

#[test]
fn the_path_is_taken_after_the_scheme_and_host() {
    assert_eq!(asset_path_of("ascdesktop://docmedia/a.png").iter().collect::<String>(), "docmedia/a.png");
    assert_eq!(asset_path_of("ascdesktop:///x.js").iter().collect::<String>(), "/x.js");
    assert_eq!(asset_path_of("http://ascdesktop.localhost/web/x.js").iter().collect::<String>(), "web/x.js");
    assert_eq!(asset_path_of("https://ascdesktop.localhost/web/x.js").iter().collect::<String>(), "web/x.js");
    assert_eq!(asset_path_of("ascdesktop://localhost/web/x.js").iter().collect::<String>(), "web/x.js");
    assert_eq!(asset_path_of("file:///etc/passwd").iter().collect::<String>(), "");
}

#[test]
fn document_media_is_served_from_the_working_directory() {
    match route("ascdesktop://docmedia/media/image1.png") {
        AssetRequest::DocMedia { rel_path, content_type } => {
            assert_eq!(rel_path, "media/image1.png");
            assert_eq!(content_type, "image/png");
        }
        _ => panic!("not a document media request"),
    }
}

#[test]
fn an_embedded_media_url_is_unwrapped_and_media_media_collapsed() {
    match route("ascdesktop://docmedia/x/ascdesktop://docmedia/media/media/a.JPG") {
        AssetRequest::DocMedia { rel_path, content_type } => {
            assert_eq!(rel_path, "media/a.JPG");
            assert_eq!(content_type, "application/octet-stream");
        }
        _ => panic!("not a document media request"),
    }
    match route("ascdesktop://docmedia///media/media/b.jpeg") {
        AssetRequest::DocMedia { rel_path, content_type } => {
            assert_eq!(rel_path, "media/b.jpeg");
            assert_eq!(content_type, "image/jpeg");
        }
        _ => panic!("not a document media request"),
    }
}

#[test]
fn a_copy_request_names_the_decoded_source() {
    match route("http://ascdesktop.localhost/copy-to-media/C:/pics/a%20b.png") {
        AssetRequest::CopyToMedia { source } => assert_eq!(source, "C:/pics/a b.png"),
        _ => panic!("not a copy request"),
    }
}

#[test]
fn a_download_request_names_a_safe_file() {
    match route("https://ascdesktop.localhost/download-to-media/https://x.org/a/pic-1_2.jpeg?size=3") {
        AssetRequest::DownloadToMedia { url, file_name } => {
            assert_eq!(url, "https://x.org/a/pic-1_2.jpeg?size=3");
            assert_eq!(file_name, "pic-1_2.jpeg");
        }
        _ => panic!("not a download request"),
    }
    match route("ascdesktop://download-to-media/https://x.org/") {
        AssetRequest::DownloadToMedia { file_name, .. } => assert_eq!(file_name, "download.jpg"),
        _ => panic!("not a download request"),
    }
}

#[test]
fn an_absolute_path_is_served_with_its_type() {
    match route("ascdesktop://abs//tmp/insert_tmp/media/a.svg") {
        AssetRequest::Absolute { path, content_type } => {
            assert_eq!(path, "/tmp/insert_tmp/media/a.svg");
            assert_eq!(content_type, "image/svg+xml");
        }
        _ => panic!("not an absolute path"),
    }
}

#[test]
fn the_font_list_is_recognised_by_its_suffix() {
    match route("ascdesktop://localhost/sdkjs/common/AllFonts.js") {
        AssetRequest::AllFonts { resource, content_type } => {
            assert_eq!(resource, "sdkjs/common/AllFonts.js");
            assert_eq!(content_type, "application/javascript");
        }
        _ => panic!("not the font list"),
    }
}

#[test]
fn resources_keep_the_undecoded_path() {
    match route("ascdesktop://web%20apps/favicon.ico") {
        AssetRequest::Resource { resource, content_type } => {
            assert_eq!(resource, "web%20apps/favicon.ico");
            assert_eq!(content_type, "image/x-icon");
        }
        _ => panic!("not a resource"),
    }
    match route("ascdesktop://fonts/a.otf") {
        AssetRequest::Resource { content_type, .. } => assert_eq!(content_type, "font/ttf"),
        _ => panic!("not a resource"),
    }
    match route("ascdesktop://img/scan.tiff") {
        AssetRequest::Resource { content_type, .. } => assert_eq!(content_type, "image/tiff"),
        _ => panic!("not a resource"),
    }
    match route("file:///x") {
        AssetRequest::Resource { resource, content_type } => {
            assert_eq!(resource, "");
            assert_eq!(content_type, "application/octet-stream");
        }
        _ => panic!("not a resource"),
    }
}

#[test]
fn a_path_whose_decoding_panics_has_no_route() {
    assert!(route_request("ascdesktop://%aé").is_none());
}

#[test]
fn download_names_keep_only_safe_characters() {
    assert_eq!(download_file_name("https://a/b/c d$e.png?x=1", "download"), "cde.png");
    assert_eq!(download_file_name("https://a/b/", "download"), "download");
    assert_eq!(download_file_name("https://a/b/?q", "download"), "download");
    assert_eq!(download_file_name("plain", "download"), "plain");
    // Letters of any script are alphanumeric.
    assert_eq!(download_file_name("https://a/bild-ü.png", "download"), "bild-ü.png");
}

#[test]
fn document_media_paths_are_relative() {
    for uri in [
        "ascdesktop://docmedia//etc/passwd",
        "ascdesktop://docmedia/ascdesktop://docmedia//x.png",
        "ascdesktop://docmedia////",
    ] {
        match route(uri) {
            AssetRequest::DocMedia { rel_path, .. } => assert!(!rel_path.starts_with('/'), "{}", rel_path),
            _ => panic!("not a document media request"),
        }
    }
}
