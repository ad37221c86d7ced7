//! The decisions of the program editor: what each key does.
use vstd::prelude::*;

verus! {

/// The keys that the editor tells apart.
#[derive(Debug, Clone, Copy, PartialEq, Eq, Structural)]
pub enum EditorKey {
    /// Esc.
    Escape,
    /// Ctrl-S.
    CtrlS,
    /// Ctrl-R.
    CtrlR,
    /// Any other key, which goes to the text.
    Other,
}

/// What the editor does after a key.
#[derive(Debug, Clone, Copy, PartialEq, Eq, Structural)]
pub enum EditorAction {
    /// Leave the editor.
    Quit,
    /// Save the text to a file.
    Save,
    /// Run the text against the editor's stack and variables.
    Run,
    /// Hand the key to the text area.
    Edit,
}

/// What a key does: Esc quits, Ctrl-S saves, Ctrl-R runs the program, and
/// any other key edits the text.
pub open spec fn spec_step(k: EditorKey) -> EditorAction {
    match k {
        EditorKey::Escape => EditorAction::Quit,
        EditorKey::CtrlS => EditorAction::Save,
        EditorKey::CtrlR => EditorAction::Run,
        EditorKey::Other => EditorAction::Edit,
    }
}

/// What the editor does after the key `k`.
pub fn editor_step(k: EditorKey) -> (a: EditorAction)
    ensures
        a == spec_step(k),
{
    match k {
        EditorKey::Escape => EditorAction::Quit,
        EditorKey::CtrlS => EditorAction::Save,
        EditorKey::CtrlR => EditorAction::Run,
        EditorKey::Other => EditorAction::Edit,
    }
}

} // verus!
