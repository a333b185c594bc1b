use euro_office_lite::platform::Platform;
use euro_office_lite::recent::{
    enabled_default, normalize, recent_state, recent_view, RecentEntry, RecentStore, MAX_ENTRIES,
};

fn paths(store: &RecentStore) -> Vec<(String, u64)> {
    store.files.iter().map(|e| (e.path.clone(), e.opened_at)).collect()
}

#[test]
fn a_new_store_records_and_is_empty() {
    let store = RecentStore::default();
    assert!(store.enabled);
    assert!(store.files.is_empty());
    assert!(enabled_default());
}

#[test]
fn recording_puts_the_document_first() {
    let mut store = RecentStore::default();
    store.record("/docs/a.docx", 10, Platform::Linux);
    store.record("/docs/b.xlsx", 20, Platform::Linux);
    assert_eq!(
        paths(&store),
        vec![("/docs/b.xlsx".to_string(), 20), ("/docs/a.docx".to_string(), 10)]
    );
}

#[test]
fn reopening_moves_the_entry_to_the_front_without_a_copy() {
    let mut store = RecentStore::default();
    store.record("/docs/a.docx", 10, Platform::Linux);
    store.record("/docs/b.docx", 20, Platform::Linux);
    store.record("/docs/a.docx", 30, Platform::Linux);
    assert_eq!(
        paths(&store),
        vec![("/docs/a.docx".to_string(), 30), ("/docs/b.docx".to_string(), 20)]
    );
}

#[test]
fn on_windows_two_spellings_of_one_file_collapse() {
    let mut store = RecentStore::default();
    store.record("C:\\Docs\\Report.DOCX", 1, Platform::Windows);
    store.record("c:/docs/report.docx", 2, Platform::Windows);
    assert_eq!(paths(&store), vec![("c:/docs/report.docx".to_string(), 2)]);
    assert_eq!(normalize("C:\\Docs\\A.docx", Platform::Windows), "c:/docs/a.docx");
}

#[test]
fn on_macos_case_collapses_but_backslashes_stay() {
    assert_eq!(normalize("/Users/Me/A.docx", Platform::MacOs), "/users/me/a.docx");
    assert_eq!(normalize("/a\\B", Platform::MacOs), "/a\\b");
    let mut store = RecentStore::default();
    store.record("/Users/Me/A.docx", 1, Platform::MacOs);
    store.record("/users/me/a.DOCX", 2, Platform::MacOs);
    assert_eq!(store.files.len(), 1);
}

#[test]
fn on_linux_spellings_are_different_files() {
    assert_eq!(normalize("/Home/A\\b.docx", Platform::Linux), "/Home/A\\b.docx");
    let mut store = RecentStore::default();
    store.record("/home/a.docx", 1, Platform::Linux);
    store.record("/home/A.docx", 2, Platform::Linux);
    assert_eq!(store.files.len(), 2);
}

#[test]
fn the_list_keeps_at_most_ten_entries() {
    let mut store = RecentStore::default();
    for i in 0..12u64 {
        store.record(&format!("/docs/{}.docx", i), i, Platform::Linux);
    }
    assert_eq!(MAX_ENTRIES, 10);
    assert_eq!(store.files.len(), 10);
    assert_eq!(store.files[0].path, "/docs/11.docx");
    assert_eq!(store.files[9].path, "/docs/2.docx");
}

#[test]
fn nothing_is_recorded_while_recording_is_off() {
    let mut store = RecentStore::default();
    store.record("/docs/a.docx", 1, Platform::Linux);
    store.set_enabled(false);
    assert!(!store.enabled);
    store.record("/docs/b.docx", 2, Platform::Linux);
    assert_eq!(paths(&store), vec![("/docs/a.docx".to_string(), 1)]);
    store.set_enabled(true);
    assert_eq!(store.files.len(), 1);
}

#[test]
fn clearing_keeps_the_setting() {
    let mut store = RecentStore::default();
    store.record("/docs/a.docx", 1, Platform::Linux);
    store.set_enabled(false);
    store.clear();
    assert!(store.files.is_empty());
    assert!(!store.enabled);
}

#[test]
fn recording_twice_is_recording_once_with_the_later_time() {
    let mut twice = RecentStore::default();
    let mut once = RecentStore::default();
    for i in 0..11u64 {
        let p = format!("/docs/{}.docx", i);
        twice.record(&p, i, Platform::Linux);
        once.record(&p, i, Platform::Linux);
    }
    twice.record("/docs/3.docx", 100, Platform::Linux);
    twice.record("/docs/3.docx", 200, Platform::Linux);
    once.record("/docs/3.docx", 200, Platform::Linux);
    assert_eq!(paths(&twice), paths(&once));
}

#[test]
fn the_start_screen_sees_reachable_files_with_their_names_and_formats() {
    let store = RecentStore {
        enabled: true,
        files: vec![
            RecentEntry { path: "/docs/report.docx".to_string(), opened_at: 5 },
            RecentEntry { path: "/gone/old.xlsx".to_string(), opened_at: 4 },
            RecentEntry { path: "/docs/slides.pptx".to_string(), opened_at: 3 },
        ],
    };
    let state = recent_state(&store, &vec![true, false, true]);
    assert!(state.enabled);
    assert_eq!(state.files.len(), 2);
    assert_eq!(state.files[0].path, "/docs/report.docx");
    assert_eq!(state.files[0].name, "report.docx");
    assert_eq!(state.files[0].opened_at, 5);
    assert_eq!(state.files[0].file_type, 65);
    assert_eq!(state.files[1].name, "slides.pptx");
    assert_eq!(state.files[1].file_type, 129);
}

#[test]
fn a_path_without_a_file_name_is_shown_whole() {
    let view = recent_view(&RecentEntry { path: "/".to_string(), opened_at: 1 });
    assert_eq!(view.name, "/");
    assert_eq!(view.file_type, 0);
}
