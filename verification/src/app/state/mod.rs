//! The editor's state logic: what a page shows and how the session moves
//! between pages.

pub mod kinds;
pub mod nav;
pub mod palette;
pub mod projection;
pub mod layout;
pub mod runs;
pub mod bench;
pub mod fixtures;
pub mod menus;
pub mod menu_rows;
pub mod focus;
pub mod stats;
pub mod session;
pub mod reclaim;
pub mod duplicate;
pub mod db;

pub use db::{DbColumnToggle, DbFilterPanelRow};
pub use kinds::{kind_from_int, kind_to_int, BlockKind};
pub use nav::{NavHistory, NAV_MAX};
