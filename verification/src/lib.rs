//! A round-robin rotation over a list of string tokens, such as the
//! addresses of a pool of proxies. Tokens can be locked out of the rotation
//! and unlocked again; `next` hands out the next token that is not locked.
//!
//! - [`cycle`] holds the rotation itself, `Cycle`, and its operations.
//! - [`step`] holds what `Cycle::next` answers: a token, a request to wait,
//!   or the word that there is nothing to hand out.
//! - [`rotation`] is the mathematical model that the contracts are stated
//!   over, and [`tokens`] the sequences of tokens it is made of.
//! - [`laws`] proves what holds of every rotation: that a locked token is
//!   never handed out, that a round visits every token once, that a lock
//!   followed by an unlock leaves a token free.
//! - [`text`] decides whether two tokens are the same.
//!
//! The library never blocks and never sleeps. A caller that shares a cycle
//! among threads keeps it behind one mutex, and waits, when `next` says so,
//! without holding it.

pub mod cycle;
pub mod laws;
pub mod rotation;
pub mod step;
pub mod text;
pub mod tokens;
