//! A small persistent key-value store: an in-memory table whose whole
//! contents are mirrored, as one snapshot, to a single backing file that
//! several handles may share under advisory file locks.
//!
//! This crate holds the logic: the snapshot layout, the table, the bounded
//! retry policy, the lock discipline and the step-by-step protocol that loads
//! and stores snapshots. The protocol never touches the file itself. It names
//! the next file operation and is told how it went, so the embedding program
//! decides how the operations are carried out.
//!
//! - [`wire`], [`codec`], [`value`], [`either`]: what can be stored, and its
//!   layout in bytes.
//! - [`table`], [`snapshot`]: the table in memory and its layout as one
//!   snapshot.
//! - [`retry`], [`lock`], [`engine`]: the protocol on the backing file.
//! - [`store`]: the store itself.
//! - [`quiet`], [`sharing`]: theorems on what the store does on a file on
//!   which nothing fails, alone and next to a second store.

pub mod codec;
pub mod either;
pub mod engine;
pub mod error;
pub mod lock;
pub mod quiet;
pub mod retry;
pub mod sharing;
pub mod snapshot;
pub mod store;
pub mod table;
pub mod value;
pub mod wire;

pub use codec::{Codec, EncodeFailed, Key};
pub use either::Either;
pub use engine::{Engine, Op, Outcome, Plan, Stage};
pub use error::{Error, Fault};
pub use lock::{LockOp, LockState};
pub use retry::{retry, Exhausted, Verdict, DEFAULT_ATTEMPTS};
pub use store::{Answer, Progress, Reply, Request, Task, KV};
pub use table::{DecodeFailed, Table};
pub use value::Value;
