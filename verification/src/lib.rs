use vstd::prelude::*;

pub mod text;
pub mod domain;
pub mod classification;
pub mod commands;
pub mod apt_parser;
pub mod desktop_parser;
pub mod fonts_parser;
pub mod dpkg_ownership;
pub mod flatpak_parser;
pub mod merge;
pub mod duplicates;
pub mod inventory;
pub mod persistence;
pub mod process;
pub mod providers;
pub mod tui;

verus! {
}
