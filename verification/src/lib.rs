//! A dual-panel file manager's core: the entry model, sorting, navigation
//! over local folders, zip archives and FTP servers, progress bookkeeping and
//! the text the panels and the viewer show.

pub mod state;
pub mod text;
pub mod model;
pub mod listing_order;
pub mod paths;
pub mod progress;
pub mod vfs;
pub mod vfs_zip;
pub mod vfs_ftp;
pub mod remote;
pub mod fsworker;
pub mod fsops;
pub mod viewer;
pub mod config;
pub mod panel;
pub mod events;
pub mod dialogs;
pub mod layout;
