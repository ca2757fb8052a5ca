//! The decision core of a keyboard macro backend.
//!
//! Everything here computes on plain values: which macros a press fires, what a macro does step by
//! step, which held macros have to stop, and what becomes of the backend's state.  Reading devices
//! and files, sleeping, and running tasks are left to the program that uses the library.

pub mod backend;
pub mod keys;
pub mod lookup;
pub mod macro_id;
pub mod matching;
pub mod model;
pub mod onhold;
pub mod plugin;
pub mod sender;
mod seq_facts;
pub mod steps;
