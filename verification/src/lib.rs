//! Interned strings: immutable byte strings of which a pool stores exactly
//! one copy per distinct value.
//!
//! An [`IStr`], [`IBytes`] or [`ICStr`] is made in a [`Pool`]. Content of up
//! to [`INLINE_LIMIT`] bytes is stored in the value itself and never reaches
//! the pool. Longer content is stored in one buffer per distinct content,
//! which the pool shares out to every value that holds it and drops when the
//! last of them is released.
//!
//! The pool is passed to each operation that makes, duplicates or releases a
//! value. What these operations do to it is stated over [`PoolModel`].

pub mod bytes;
pub mod handle;
pub mod ibytes;
pub mod icstr;
pub mod istr;
pub mod model;
pub mod order;
pub mod pool;
pub mod std_items;

pub use handle::{Handle, INLINE_LIMIT};
pub use ibytes::IBytes;
pub use icstr::{ICStr, NulError};
pub use istr::IStr;
pub use model::{BufferState, PoolModel};
pub use pool::{Buffer, Pool};
