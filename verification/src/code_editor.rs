//! The state of the code editor: the source that the user edits, its
//! language, and where the cursor stands.

use vstd::prelude::*;

verus! {

/// The editor's state. What it draws is not its concern.
pub struct CodeEditor {
    language: String,
    /// The character index of the cursor.
    pub cursor_at: usize,
    /// The source as it stands in the editor.
    pub code: String,
}

/// A [`CodeEditor`] as a mathematical value.
pub struct CodeEditorView {
    pub language: Seq<char>,
    pub cursor_at: nat,
    pub code: Seq<char>,
}

impl View for CodeEditor {
    type V = CodeEditorView;

    closed spec fn view(&self) -> CodeEditorView {
        CodeEditorView {
            language: self.language@,
            cursor_at: self.cursor_at as nat,
            code: self.code@,
        }
    }
}

impl CodeEditor {
    /// An editor on a source in the given language, with the cursor at the
    /// given character.
    pub fn new(language: String, code: String, cursor_at: usize) -> (editor: CodeEditor)
        ensures
            editor@ == (CodeEditorView {
                language: language@,
                cursor_at: cursor_at as nat,
                code: code@,
            }),
    {
        CodeEditor { language, cursor_at, code }
    }

    /// The language of the source, by which the editor highlights it.
    pub fn language(&self) -> (language: &str)
        ensures
            language@ == self@.language,
    {
        self.language.as_str()
    }

    /// The source as it stands in the editor: what a run submits.
    pub fn source(&self) -> (code: &str)
        ensures
            code@ == self@.code,
    {
        self.code.as_str()
    }
}

impl Default for CodeEditor {
    /// An editor on the JavaScript source `1 + 1`, with the cursor at its
    /// start.
    fn default() -> (editor: Self)
        ensures
            editor@ == (CodeEditorView { language: "js"@, cursor_at: 0, code: "1 + 1"@ }),
    {
        CodeEditor { cursor_at: 0, language: "js".to_owned(), code: "1 + 1".to_owned() }
    }
}

/// Something to view.
pub trait Demo {
    /// The name, as a mathematical value.
    spec fn title(&self) -> Seq<char>;

    /// The name under which the view is listed. It lives as long as the
    /// program, so it can also serve as a key to store open/close state.
    fn name(&self) -> (name: &'static str)
        ensures
            name@ == self.title(),
    ;
}

impl Demo for CodeEditor {
    open spec fn title(&self) -> Seq<char> {
        "🖮 Code Editor"@
    }

    fn name(&self) -> (name: &'static str) {
        "🖮 Code Editor"
    }
}

} // verus!
