//! User-space runtime support for a small hobby operating system.
//!
//! The two load-bearing pieces are a self-extending heap allocator, which
//! acquires its backing memory from the kernel one region at a time and grows
//! on demand, and a thread runtime that carries a spawned unit of work's
//! return value back to the spawning side through a write-once join cell.
//! Both are modelled over plain integer addresses; the thin layer that issues
//! the actual system calls lives with the embedding program, which drives the
//! state machines here and performs the kernel calls they ask for.

pub mod gfx;
pub mod heap;
pub mod os;
pub mod sys;
pub mod thread;
pub mod tiny_alloc;
