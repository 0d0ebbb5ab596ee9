//! An in-process service substrate: independent logical actors register with
//! a central registry, store typed state under their own identity, and
//! exchange asynchronous request/response messages without holding direct
//! references to one another.

pub mod gui;
pub mod laws;
pub mod msgqueue;
pub mod obj;
pub mod state;
