//! Project model, timeline edits, edit history and the text formats of the
//! Terminal Effects video editor, with their contracts proved by Verus.
pub mod text;
pub mod model;
pub mod edit;
pub mod history;
pub mod server;
pub mod decimal;
pub mod time;
pub mod paths;
pub mod media;
pub mod icons;
pub mod runtime;
pub mod keys;
pub mod ui;
pub mod session;
