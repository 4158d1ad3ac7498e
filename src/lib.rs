//! Locations inside nested documents, rendered for error messages, and
//! shortening of file-system paths for display.
pub mod directory;
pub mod path;
