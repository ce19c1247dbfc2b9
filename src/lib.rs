//! Allocator-agnostic building blocks for heap-backed data structures.
//!
//! Shared capability objects (allocators) live in an [`rcobj::RcArena`] and are
//! reached through counted handles ([`rcobj::RcObjectPtr`]). Storage comes from
//! an [`allocator::Alloc`] implementation as [`allocator::Block`]s; the owning
//! [`boxing::Box`] and the doubly linked [`list::List`] take every block they
//! use from the allocator their handle names and give it back on removal.
pub mod allocator;
pub mod boxing;
pub mod list;
pub mod rcobj;
