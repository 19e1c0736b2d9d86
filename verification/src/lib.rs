//! The document model of a structural editor: a file of nodes addressed by
//! references, paths of selectors that walk from the root through named child
//! fields, and the editor state machine that moves a cursor over that tree and
//! rewrites it from completion commands.

pub mod behaviour;
pub mod file;
pub mod laws;
pub mod model;
pub mod strmap;
pub mod text;
