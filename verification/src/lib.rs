//! Composable writers over a caller-owned byte buffer.
//!
//! A writer takes a [`Cursor`] over the unwritten tail of a buffer, lays some
//! bytes down at its front and hands back the cursor moved past them, or
//! reports how much room the failing write needed. Writers are built from
//! primitives ([`slice`], [`string`], [`skip`], the fixed-width integers) by
//! combinators ([`pair`], [`cond`], [`_all`], [`separated_list`]), and
//! [`position`] hands back the bytes that a writer wrote.
//!
//! Every writer has a mathematical model, [`SerializeFn::emit`], and each
//! executable writer is proved to do exactly what its model says, with no
//! allocation and no panic.

pub mod combinators;
pub mod cursor;
pub mod encoding;
pub mod error;
pub mod integers;
pub mod position;
pub mod primitives;
pub mod writer;

pub use combinators::{_all, cond, pair, separated_list, All, Cond, Pair, SeparatedList};
pub use cursor::Cursor;
pub use error::GenError;
pub use integers::{be_u16, be_u32, be_u64, be_u8, le_u16, le_u32, le_u64, le_u8};
pub use integers::{BeU16, BeU32, BeU64, BeU8, LeU16, LeU32, LeU64, LeU8};
pub use position::{position, Position};
pub use primitives::{skip, slice, string, Skip, Slice, Text};
pub use writer::SerializeFn;
