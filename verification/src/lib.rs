//! Buffered writing through a writer that touches the sink behind it only when the buffer
//! is full.

pub mod bytes;
pub mod calls;
pub mod ends;
pub mod error;
pub mod hashing;
pub mod laws;
pub mod lent;
pub mod meaning;
pub mod offers;
pub mod sink;
pub mod sinks;
pub mod storage;
pub mod stream;
pub mod text;
pub mod write;
pub mod writer;

pub use error::Error;
pub use hashing::{Hasher, Hashing};
pub use sink::Sink;
pub use sinks::WriteDrain;
pub use stream::{AsMutBytes, StackBuffer, WritableStream};
pub use write::Write;
pub use writer::Writer;
