//! The items that most users of the library need.
pub use crate::parser::{Alias, Dialog, Line, ParseError, Requirements, Section, Speaker, State};
pub use crate::player::{Cursor, DialogState, PlayState};
