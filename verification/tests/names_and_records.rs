use listload::data::DownloadList;
use listload::names::is_creatable_list_name;
use listload::names::is_valid_list_name;
use listload::state::State;
use listload::store::path_in_directory;
use listload::store::record_file_name;
use listload::store::record_names;
use listload::store::strip_record_suffix;
use listload::target_list::ListNameError;
use listload::target_list::LoadError;
use listload::target_list::TargetList;

#[test]
fn reserved_name_fails() {
    assert!(!is_creatable_list_name("none"));
    assert!(matches!(TargetList::new("none", None), Err(ListNameError::Forbidden)));
}

#[test]
fn malformed_names_fail() {
    for name in ["_abc", "abc_", "a__b", "14", "a", "", "A", "Abc", "a b", "a.b", "a-b"] {
        assert!(!is_valid_list_name(name), "{name} should be invalid");
        assert!(TargetList::new(name, None).is_err());
    }
}

#[test]
fn good_names_succeed() {
    for name in ["default", "version15", "my_4_funny_pictures", "ab", "a1", "a_1"] {
        assert!(is_valid_list_name(name), "{name} should be valid");
        assert!(is_creatable_list_name(name));
        let list = TargetList::new(name, None).unwrap();
        assert_eq!(list.name(), name);
        assert_eq!(list.target_count(), 0);
    }
}

#[test]
fn new_list_keeps_comment() {
    let list = TargetList::new("default", Some("for everyday files")).unwrap();
    assert_eq!(list.comment().as_deref(), Some("for everyday files"));
    let bare = TargetList::new("default", None).unwrap();
    assert!(bare.comment().is_none());
}

#[test]
fn record_file_names() {
    assert_eq!(record_file_name("foo"), "foo.json");
    assert_eq!(path_in_directory("/data/lists", "foo"), "/data/lists/foo.json");
    assert_eq!(strip_record_suffix("foo.json").as_deref(), Some("foo"));
    assert_eq!(strip_record_suffix("foo.txt"), None);
    assert_eq!(strip_record_suffix("json"), None);
    assert_eq!(strip_record_suffix(".json").as_deref(), Some(""));
}

#[test]
fn record_names_skips_other_files() {
    let files = vec![
        String::from("alpha.json"),
        String::from("notes.txt"),
        String::from("beta.json"),
        String::from("gamma"),
    ];
    let names = record_names(&files);
    assert_eq!(names, vec![String::from("alpha"), String::from("beta")]);
}

#[test]
fn download_list_record() {
    let mut list = DownloadList::new(String::from("mine"));
    assert_eq!(list.name(), "mine");
    assert_eq!(list.description(), "");
    list.set_description(String::from("holiday pictures"));
    assert_eq!(list.description(), "holiday pictures");
}

#[test]
fn download_list_document_roundtrip() {
    let mut list = DownloadList::new(String::from("mine"));
    list.set_description(String::from("lines\nand: colons"));
    let doc = list.to_document();
    let back = DownloadList::parse_document(doc.as_str()).unwrap();
    assert_eq!(back, list);
    let loaded = DownloadList::from_document("mine", doc.as_str()).unwrap();
    assert_eq!(loaded, list);
}

#[test]
fn download_list_name_mismatch() {
    let list = DownloadList::new(String::from("mine"));
    let doc = list.to_document();
    assert!(matches!(
        DownloadList::from_document("other", doc.as_str()),
        Err(LoadError::NameMismatch)
    ));
    assert!(matches!(
        DownloadList::from_document("mine", "not a document"),
        Err(LoadError::ParseFailed)
    ));
}

#[test]
fn state_defaults_and_changes() {
    let mut state = State::default();
    assert_eq!(state.active_list(), "default");
    assert!(!state.changed());
    state.set_active_list(String::from("work"));
    assert_eq!(state.active_list(), "work");
    assert!(state.changed());
    state.mark_saved();
    assert!(!state.changed());
}

#[test]
fn state_document_roundtrip() {
    let mut state = State::default();
    state.set_active_list(String::from("work"));
    let doc = state.to_document();
    let back = State::parse_document(doc.as_str()).unwrap();
    assert_eq!(back.active_list(), "work");
    assert!(!back.changed());
    assert!(State::parse_document("garbage").is_none());
    let mut trailing = doc.clone();
    trailing.push('x');
    assert!(State::parse_document(trailing.as_str()).is_none());
}

#[test]
fn near_reserved_names_are_fine() {
    assert!(is_creatable_list_name("none1"));
    assert!(is_creatable_list_name("nonee"));
    assert!(!is_valid_list_name("a_"));
    assert!(!is_valid_list_name("_"));
    assert!(!is_valid_list_name("1a"));
}
