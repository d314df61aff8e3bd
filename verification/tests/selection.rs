use listload::codec::write_opt_chars;
use listload::codec::write_opt_num;
use listload::persistent_state::PersistentState;

#[test]
fn list_change_clears_target() {
    let mut state = PersistentState::default();
    state.set_list("x");
    state.set_target(3);
    assert_eq!(state.list(), Some("x"));
    assert_eq!(state.target(), Some(3));
    state.set_list("y");
    assert_eq!(state.list(), Some("y"));
    assert_eq!(state.target(), None);
}

#[test]
fn clearing_list_clears_target() {
    let mut state = PersistentState::default();
    state.set_list("x");
    state.set_target(7);
    state.clear_list();
    assert_eq!(state.list(), None);
    assert_eq!(state.target(), None);
}

#[test]
fn target_without_list_is_noop() {
    let mut state = PersistentState::default();
    state.set_target(3);
    assert_eq!(state.list(), None);
    assert_eq!(state.target(), None);
}

#[test]
fn selection_document_roundtrip() {
    let mut state = PersistentState::default();
    let doc = state.to_document();
    let back = PersistentState::parse_document(doc.as_str()).unwrap();
    assert_eq!(back.list(), None);
    assert_eq!(back.target(), None);

    state.set_list("work");
    state.set_target(5);
    let doc = state.to_document();
    let back = PersistentState::parse_document(doc.as_str()).unwrap();
    assert_eq!(back.list(), Some("work"));
    assert_eq!(back.target(), Some(5));
}

#[test]
fn selection_document_is_strict() {
    let state = PersistentState::default();
    let mut trailing = state.to_document();
    trailing.push('x');
    assert!(PersistentState::parse_document(trailing.as_str()).is_none());
    assert!(PersistentState::parse_document("nonsense").is_none());

    // A document claiming a target with no selected list breaks the
    // cursor's invariant and must be rejected.
    let mut forged = String::new();
    write_opt_chars(&mut forged, &None);
    write_opt_num(&mut forged, &Some(3));
    assert!(PersistentState::parse_document(forged.as_str()).is_none());
}

#[test]
fn selection_render() {
    let mut state = PersistentState::default();
    assert_eq!(state.render(), "current list:   none\ncurrent target: none");
    state.set_list("work");
    state.set_target(12);
    assert_eq!(state.render(), "current list:   work\ncurrent target: 12");
    state.set_target(0);
    assert_eq!(state.render(), "current list:   work\ncurrent target: 0");
}
