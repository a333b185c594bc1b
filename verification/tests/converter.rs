use euro_office_lite::converter::{
    choose_all_fonts, conversion_outcome, convert_params_xml, editor_resources, find_x2t_entry,
    font_generation, is_linux_runtime_dependency, is_macos_runtime_dependency, is_x2t_binary,
    missing_resource_message, pdf_params_xml, renderer_config, runtime_strategy,
    strip_extended_prefix, FontGeneration, DOCTRENDERER_CONFIG_CURRENT, DOCTRENDERER_CONFIG_PARENT,
};
use euro_office_lite::converter::{path_error, validate_editor_resources};
use euro_office_lite::platform::Platform;

#[test]
fn x2t_executables_on_windows() {
    assert!(is_x2t_binary("x2t.exe", Platform::Windows));
    assert!(is_x2t_binary("x2t-x86_64-pc-windows-msvc.exe", Platform::Windows));
    assert!(!is_x2t_binary("x2t", Platform::Windows));
    assert!(!is_x2t_binary("x2t-x86_64-pc-windows-msvc", Platform::Windows));
    assert!(!is_x2t_binary("y2t.exe", Platform::Windows));
}

#[test]
fn x2t_executables_elsewhere() {
    for platform in [Platform::Linux, Platform::MacOs] {
        assert!(is_x2t_binary("x2t", platform));
        assert!(is_x2t_binary("x2t-x86_64-unknown-linux-gnu", platform));
        assert!(!is_x2t_binary("x2t-aarch64-apple-darwin.dSYM", platform));
        assert!(!is_x2t_binary("x2t.exe", platform));
        assert!(!is_x2t_binary("libx2t.so", platform));
    }
}

#[test]
fn the_linux_work_directory_links_libraries_and_data() {
    assert!(is_linux_runtime_dependency("libkernel.so"));
    assert!(is_linux_runtime_dependency("libicuuc.so.58"));
    assert!(is_linux_runtime_dependency("icudt58l.dat"));
    assert!(is_linux_runtime_dependency("package.config"));
    assert!(!is_linux_runtime_dependency("x2t"));
    assert!(!is_linux_runtime_dependency("DoctRenderer.config"));
}

#[test]
fn the_macos_work_directory_copies_libraries_data_and_configs() {
    assert!(is_macos_runtime_dependency("libkernel.dylib"));
    assert!(is_macos_runtime_dependency("icudt58l.dat"));
    assert!(is_macos_runtime_dependency("package.config"));
    assert!(!is_macos_runtime_dependency("DoctRenderer.config"));
    assert!(!is_macos_runtime_dependency("libkernel.so"));
}

#[test]
fn the_extended_length_prefix_is_stripped() {
    assert_eq!(strip_extended_prefix("\\\\?\\C:\\Program Files\\x"), "C:\\Program Files\\x");
    assert_eq!(strip_extended_prefix("C:\\x"), "C:\\x");
    assert_eq!(strip_extended_prefix("/opt/x"), "/opt/x");
}

#[test]
fn the_conversion_task_file() {
    let xml = convert_params_xml("C:\\in\\a.docx", "C:\\tmp\\Editor.bin", 8192, "C:\\tmp");
    assert_eq!(
        xml,
        "<?xml version=\"1.0\" encoding=\"utf-8\"?>\n\
<TaskQueueDataConvert xmlns:xsi=\"http://www.w3.org/2001/XMLSchema-instance\"\n                      \
xmlns:xsd=\"http://www.w3.org/2001/XMLSchema\">\n\
<m_sFileFrom>C:/in/a.docx</m_sFileFrom>\n\
<m_sFileTo>C:/tmp/Editor.bin</m_sFileTo>\n\
<m_nFormatTo>8192</m_nFormatTo>\n\
<m_sTempDir>C:/tmp</m_sTempDir>\n\
</TaskQueueDataConvert>"
    );
}

#[test]
fn the_pdf_task_file() {
    let xml = pdf_params_xml("C:\\in\\Editor.bin", "/out/a.pdf", "C:\\fonts", "C:\\fd\\AllFonts.js");
    assert_eq!(
        xml,
        "<?xml version=\"1.0\" encoding=\"utf-8\"?>\n\
<TaskQueueDataConvert xmlns:xsi=\"http://www.w3.org/2001/XMLSchema-instance\"\n                      \
xmlns:xsd=\"http://www.w3.org/2001/XMLSchema\">\n\
<m_sFileFrom>C:\\in\\Editor.bin</m_sFileFrom>\n\
<m_sFileTo>/out/a.pdf</m_sFileTo>\n\
<m_nFormatTo>513</m_nFormatTo>\n\
<m_bEmbeddedFonts>true</m_bEmbeddedFonts>\n\
<m_sFontDir>C:/fonts</m_sFontDir>\n\
<m_sAllFontsPath>C:/fd/AllFonts.js</m_sAllFontsPath>\n\
</TaskQueueDataConvert>"
    );
}

#[test]
fn each_platform_has_its_runtime() {
    assert_eq!(runtime_strategy(Platform::Windows), "windows-direct");
    assert_eq!(runtime_strategy(Platform::MacOs), "macos-workdir");
    assert_eq!(runtime_strategy(Platform::Linux), "linux-workdir");
    assert_eq!(renderer_config(Platform::Windows), DOCTRENDERER_CONFIG_CURRENT);
    assert_eq!(renderer_config(Platform::Linux), DOCTRENDERER_CONFIG_PARENT);
    assert_eq!(renderer_config(Platform::MacOs), DOCTRENDERER_CONFIG_PARENT);
    assert!(DOCTRENDERER_CONFIG_PARENT.contains("<sdkjs>../editors/sdkjs</sdkjs>"));
    assert!(DOCTRENDERER_CONFIG_CURRENT.contains("<sdkjs>./editors/sdkjs</sdkjs>"));
}

#[test]
fn the_renderer_needs_ten_editor_scripts() {
    let resources = editor_resources();
    assert_eq!(resources.len(), 10);
    assert_eq!(resources[0], "sdkjs/common/Native/native.js");
    assert_eq!(resources[9], "web-apps/vendor/xregexp/xregexp-all-min.js");
    assert_eq!(
        missing_resource_message("/e/sdkjs/word/sdk-all.js"),
        "Missing or empty DoctRenderer resource: /e/sdkjs/word/sdk-all.js"
    );
}

#[test]
fn the_generated_font_index_is_preferred() {
    assert_eq!(choose_all_fonts("/t/AllFonts.js", true, "/b/AllFonts.js", true), Ok("/t/AllFonts.js".to_string()));
    assert_eq!(choose_all_fonts("/t/AllFonts.js", false, "/b/AllFonts.js", true), Ok("/b/AllFonts.js".to_string()));
    assert_eq!(
        choose_all_fonts("/t/AllFonts.js", false, "/b/AllFonts.js", false),
        Err("No usable AllFonts.js found at /t/AllFonts.js or /b/AllFonts.js".to_string())
    );
}

#[test]
fn a_failed_conversion_reports_its_exit_code_and_output() {
    assert_eq!(conversion_outcome(true, 0, ""), Ok("ok".to_string()));
    assert_eq!(
        conversion_outcome(false, -1, "boom"),
        Err("x2t conversion failed (exit code -1): boom".to_string())
    );
    assert_eq!(
        conversion_outcome(false, 89, ""),
        Err("x2t conversion failed (exit code 89): ".to_string())
    );
}

#[test]
fn the_first_x2t_in_search_order_is_taken() {
    let listings = vec![
        vec!["fonts".to_string(), "libkernel.so".to_string()],
        vec![],
        vec!["readme".to_string(), "x2t-x86_64-unknown-linux-gnu".to_string(), "x2t".to_string()],
        vec!["x2t".to_string()],
    ];
    assert_eq!(find_x2t_entry(&listings, Platform::Linux), Some((2, 1)));
    assert_eq!(find_x2t_entry(&listings, Platform::Windows), None);
    assert_eq!(find_x2t_entry(&vec![], Platform::Linux), None);
}

#[test]
fn font_generation_runs_once() {
    assert!(matches!(font_generation(true, true), FontGeneration::Skip));
    assert!(matches!(font_generation(true, false), FontGeneration::Regenerate));
    assert!(matches!(font_generation(false, true), FontGeneration::Generate));
    assert!(matches!(font_generation(false, false), FontGeneration::Generate));
}

#[test]
fn file_errors_name_the_action_and_the_path() {
    assert_eq!(
        path_error("Failed to create directory", "/t/x", "permission denied"),
        "Failed to create directory /t/x: permission denied"
    );
}

#[test]
fn the_first_missing_editor_script_is_reported() {
    let sources = vec!["/e/a.js".to_string(), "/e/b.js".to_string(), "/e/c.js".to_string()];
    assert_eq!(validate_editor_resources(&sources, &vec![true, true, true]), Ok(()));
    assert_eq!(
        validate_editor_resources(&sources, &vec![true, false, false]),
        Err("Missing or empty DoctRenderer resource: /e/b.js".to_string())
    );
}
