//! Resolution logic for choosing and launching a terminal emulator: desktop-id
//! parsing, preference-list search paths, candidate collection and
//! deduplication, descriptor filtering, and launch-command construction.

pub mod candidates;
pub mod desktop;
pub mod descriptor;
pub mod errors;
pub mod launch;
pub mod paths;
pub mod split;
