//! The reconciliation and presentation-state engine of a dock panel for a
//! Wayland compositor.
//!
//! The dock shows one icon per running application, with one dot per open
//! window. This crate holds the part that decides: which entries the dock
//! shows and in what order, whether the dock is visible, which commands a
//! click sends to the window manager, and what one refresh tick does.
//! Painting widgets, reading files and spawning processes are left to the
//! program that embeds it.

pub mod config;
pub mod dispatch;
pub mod dock;
pub mod reconcile;
pub mod text;
pub mod visibility;
