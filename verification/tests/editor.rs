use javascript_runner::code_editor::{CodeEditor, Demo};

#[test]
fn default_editor_holds_one_plus_one() {
    let editor = CodeEditor::default();
    assert_eq!(editor.code, "1 + 1");
    assert_eq!(editor.source(), "1 + 1");
    assert_eq!(editor.cursor_at, 0);
    assert_eq!(editor.language(), "js");
}

#[test]
fn editor_source_follows_the_code() {
    let mut editor = CodeEditor::default();
    editor.code = "{".to_owned();
    editor.cursor_at = 1;
    assert_eq!(editor.source(), "{");
    assert_eq!(editor.cursor_at, 1);
    assert_eq!(editor.language(), "js");
}

#[test]
fn editor_is_listed_under_its_name() {
    let editor = CodeEditor::default();
    assert_eq!(editor.name(), "\u{1f5ae} Code Editor");
}

#[test]
fn editor_is_built_from_its_parts() {
    let editor = CodeEditor::new("js".to_owned(), "2 + 2".to_owned(), 3);
    assert_eq!(editor.language(), "js");
    assert_eq!(editor.source(), "2 + 2");
    assert_eq!(editor.code, "2 + 2");
    assert_eq!(editor.cursor_at, 3);
}
