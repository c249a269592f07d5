//! A lightweight boot loader: configuration parsing, a selection menu and
//! the decisions of the kernel launch, each stated and proved with Verus.
pub mod config;
pub mod error;
pub mod format;
pub mod image;
pub mod menu;
pub mod wide;
