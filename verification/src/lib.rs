//! Plugin actions offered in the workspace right-click menu, resolved per
//! workspace from the installed plugin registry.
pub mod laws;
pub mod meaning;
pub mod menu;
pub mod order;
pub mod plugin;
pub mod text;
