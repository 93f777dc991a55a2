//! The core of Nuvi, a graphical front end for Neovim.
//!
//! The state of an editor and of the window that it is in changes by functions that
//! take plain values and say what is to be done. Drawing, files, processes and
//! floating point are left to the program around it.

pub mod delivery;
pub mod editor;
pub mod fonts;
pub mod grid;
pub mod keys;
pub mod nvim;
pub mod paint;
pub mod paths;
pub mod recents;
pub mod scrolling;
pub mod shell;
pub mod text;
pub mod ui;
pub mod value;
pub mod workspace;
