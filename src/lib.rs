//! Edit tracking and reconciliation for family trees: a baseline snapshot and
//! a freely edited working copy, the structural difference between them, and
//! the ordered persistence plan that applies that difference atomically.
pub mod member;
pub mod builder;
pub mod diff;
pub mod edit;
pub mod commit;
pub mod session;
pub mod input;
pub mod waitlist;
pub mod laws;
