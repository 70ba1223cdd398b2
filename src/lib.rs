//! Local source synchronization for a widget library's command-line tool:
//! a dependency resolver over the component catalog, a line differ, and a
//! unified-diff formatter, with the catalog, theme and configuration data
//! they work on.
pub mod config;
pub mod diff;
pub mod hunks;
pub mod install;
pub mod modlist;
pub mod registry;
pub mod text;
pub mod theme;
pub mod unified;
pub mod widgets;
