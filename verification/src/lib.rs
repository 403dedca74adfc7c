//! Shared-ownership pointers with a reference count that starts out plain and
//! is promoted, once and for good, to a synchronized one.
//!
//! Blocks live in a [`heap::Heap`]; the pointers are handles into it, and every
//! operation that touches a count takes the heap it belongs to. The heap is
//! changed through `&mut` only, so whoever changes a count has the heap to
//! itself; threads that share a heap keep it behind a lock.
//!
//! A handle is given up by its `drop`, with the heap. One that merely goes out
//! of scope stays counted, and its block stays allocated.
//!
//! The contracts speak of a heap's [`ledger`]: for every block its counter,
//! the handles that refer to it, and its value. [`history`] holds what is true
//! of every sequence of operations.

pub mod arc;
pub mod darc;
pub mod heap;
pub mod history;
pub mod ledger;
pub mod parc;
pub mod potentially_atomic_usize;
