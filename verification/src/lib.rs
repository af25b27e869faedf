//! Bookmarks of a text editor: which rows a toggle touches, where a jump lands, what the
//! name prompt hands to the bookmark store, and how the project wide bookmark list is
//! built, filtered, ordered and highlighted.

pub mod command_laws;
pub mod editor;
pub mod editor_laws;
pub mod list_laws;
pub mod navigation;
pub mod navigation_laws;
pub mod order;
pub mod picker_laws;
pub mod position;
pub mod project_bookmarks;
pub mod prompt;
pub mod text;
pub mod text_laws;
pub mod toggling;
