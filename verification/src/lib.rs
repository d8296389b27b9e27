//! Quire's editor logic, with what it decides proved: block kinds and the
//! markdown line shortcuts, page navigation history, the command palette and
//! the menus, the projection of a page's blocks into editor rows (folds,
//! numbering, contents lists, table grids, column layouts, text runs), the
//! built-in page bodies, the launch switches, the clipboard bitmap decoder,
//! the screenshot tool's BMP writer, and the quit channel's protocol.

pub mod app;
pub mod text;
pub mod platform;
pub mod launch;
pub mod shot;
