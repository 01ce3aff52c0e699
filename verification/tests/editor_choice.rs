use udever::editor::choose_editor;
use udever::errors::EditorError;

#[test]
fn visual_takes_precedence() {
    let r = choose_editor(
        Some("helix".to_string()),
        Some("vim".to_string()),
        true,
        true,
        true,
        true,
    );
    assert_eq!(r.unwrap(), "helix");
}

#[test]
fn editor_variable_is_second() {
    let r = choose_editor(None, Some("emacs".to_string()), true, true, true, true);
    assert_eq!(r.unwrap(), "emacs");
}

#[test]
fn nano_is_the_first_fallback() {
    let r = choose_editor(None, None, true, true, true, true);
    assert_eq!(r.unwrap(), "nano");
}

#[test]
fn fallbacks_follow_priority_order() {
    assert_eq!(choose_editor(None, None, false, true, true, true).unwrap(), "nvim");
    assert_eq!(choose_editor(None, None, false, false, true, true).unwrap(), "vim");
    assert_eq!(choose_editor(None, None, false, false, false, true).unwrap(), "vi");
}

#[test]
fn no_editor_anywhere_is_an_error() {
    let r = choose_editor(None, None, false, false, false, false);
    assert_eq!(r.unwrap_err(), EditorError::NoEditor);
}
