//! The verified core of a settings manager for EVE Online.
//!
//! The client keeps each account's and character's settings in a binary
//! file (`core_user_{id}.dat`, `core_char_{id}.dat`) inside a profile
//! folder (`settings_{profile}`) of a server folder. This library decides
//! everything about those files that does not need the disk: how their
//! names are read, what a selective copy takes from one file into another
//! ([`groups`]), how probe formations sit in a file's JSON form
//! ([`formations`]) and what the client accepts of them
//! ([`formation_limits`]), how backups are named and pruned ([`names`],
//! [`backups`]), what an archive may hold and what importing it does
//! ([`manifest`]), and the records the app lists ([`model`]).
//!
//! The `..._law` modules and the `lemma_...` proof functions state what
//! holds across several functions.

pub mod json;
pub mod text;
pub mod sorting;
pub mod server;
pub mod names;
pub mod clock;
pub mod client;
pub mod digest;
pub mod aliases;
pub mod prefs;
pub mod groups;
pub mod groups_law;
pub mod formations;
pub mod formations_law;
pub mod formation_limits;
pub mod formation_files;
pub mod editor;
pub mod backups;
pub mod manifest;
pub mod manifest_law;
pub mod model;
pub mod app_info;
