//! A minimal terminal menu core: a vertically navigable list of labels with
//! one optional highlighted row, driven by key and timer events.
//!
//! The crate holds the stateful heart of the menu shell: the selection state,
//! the transition rules for every event, and the event-consumption loop
//! expressed over a finite script of events. Reading the keyboard and drawing
//! to the terminal are left to the surrounding binary.

pub mod event;
pub mod menu;
