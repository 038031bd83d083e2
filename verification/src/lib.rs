use vstd::prelude::*;

pub mod cancel;
pub mod text;
pub mod model;
pub mod sorting;
pub mod executor;
pub mod srcinfo;
pub mod build_order;
pub mod appstream;
pub mod ui;
pub mod aur;
pub mod pacman;
pub mod pacman_db;
pub mod helper;
pub mod alpm;
pub mod flatpak;
pub mod appimage;

verus! {
} // verus!
