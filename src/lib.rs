//! Memoization of pure recursive computations.
//!
//! A [`cache::MemoCache`] maps the key built from a call's arguments to the
//! result computed for it. A memoized computation looks its key up first,
//! runs its body only on a miss (recursing through the same cache), and
//! records the result only when the body succeeded. [`memo`] states that
//! protocol once; [`recurrences`] holds computations built on it.
pub mod cache;
pub mod memo;
pub mod recurrences;

pub use cache::MemoCache;
