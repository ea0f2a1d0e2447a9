//! Plain values that the editor passes around: focus, parsed commands,
//! popups and the saved session.
use vstd::prelude::*;
use crate::history::UndoStack;

verus! {

/// Which pane has the keyboard.
#[derive(Debug, Clone, Copy, PartialEq, Eq, Structural)]
pub enum Windows {
    Editor,
    Command,
}

/// A command typed in the command pane.
#[derive(Debug, PartialEq, Eq)]
pub enum Operations {
    /// Open the files named, separated by spaces.
    Open(String),
    /// Count the words that contain the given one.
    WordCount(String),
    /// Search the active document.
    Find(String),
    /// Make the document of this index active.
    Change(usize),
    /// List the open documents.
    List,
    /// Close the active document.
    Close,
    /// Leave the editor.
    Exit,
    /// Nothing further to do.
    NoOp,
    SetDefaultDir(String),
    /// Open the theme file.
    OpenTheme,
    /// Show the theme chooser.
    SelectTheme,
    /// Forget the active document's undo history.
    ClearHistory,
    /// Save the active document.
    Save,
    /// Save the active document, then close it.
    SaveAndClose,
}

/// The kinds of popup.
#[derive(Debug, Clone, Copy, PartialEq, Eq, Structural)]
pub enum PopupTypes {
    ErrorPopup,
    SaveOnClosePopup,
    ThemeSelectPopup,
    InfoPopup,
}

/// A popup: its kind and its message.
#[derive(Debug)]
pub struct Popup {
    pub kind: PopupTypes,
    pub msg: String,
}

impl Popup {
    pub fn new(msg: String, kind: PopupTypes) -> (r: Popup)
        ensures
            r.kind == kind,
            r.msg == msg,
    {
        Popup { kind, msg }
    }
}

/// What is kept between runs: the open files, the undo log of each, and
/// which one is active.
#[derive(Debug)]
pub struct SavedSession {
    pub saved_files: Vec<String>,
    pub undo_bufs: Vec<UndoStack>,
    pub active: usize,
}

} // verus!
