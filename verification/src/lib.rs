//! A package-list manager for NixOS.

pub mod adopted;
pub mod calls;
pub mod category;
pub mod cli;
pub mod commands;
pub mod default_nix;
pub mod diagnosed;
pub mod doctor;
pub mod edits;
pub mod error;
pub mod faithful;
pub mod github;
pub mod import;
pub mod imports;
pub mod init;
pub mod json;
pub mod kept;
pub mod lookup;
pub mod nixfile;
pub mod order;
pub mod outcomes;
pub mod paths;
pub mod plan;
pub mod profile;
pub mod rebuild;
pub mod rebuilding;
pub mod regenerated;
pub mod resolver;
pub mod roundtrip;
pub mod settings;
pub mod setup;
pub mod show;
pub mod shown;
pub mod sources;
pub mod sourcing;
pub mod spelling;
pub mod state;
pub mod suggest;
pub mod text;
pub mod told;
pub mod tools;
pub mod ui;
pub mod untouched;
