//! Request-processing core of a file server that exports one directory
//! subtree to a remote peer over a message protocol in the 9P family.
//!
//! The crate performs no I/O. Native descriptors are carried as plain
//! integers, and every step that needs the host filesystem is described as a
//! value handed to the caller, who performs it and reports the outcome back.
//!
//! - [`name`]: names as the host reports them, and the strings of the wire
//!   format.
//! - [`wire`]: integers and strings as bytes.
//! - [`message`]: the messages and their bytes.
//! - [`decode`]: reading messages back from bytes.
//! - [`read_dir`]: directory entries, directory readers and listings.
//! - [`path`]: paths that cannot leave the exported tree.
//! - [`walk`]: resolving a list of names step by step.
//! - [`fid`]: the table of bound identifiers.
//! - [`server`]: the state of one connection and its handlers.

pub mod decode;
pub mod error;
pub mod fid;
pub mod message;
pub mod name;
pub mod path;
pub mod read_dir;
pub mod server;
pub mod walk;
pub mod wire;

pub use error::Error;
pub use fid::{FidTable, Resource};
pub use decode::{decode, DecodeError};
pub use message::{encode, FileKind, Message, Qid};
pub use name::{find_nul, strip_padding, P9String};
pub use path::Path;
pub use read_dir::{entry_from_native, read_dir, Batch, DirEntry, NativeEntry, OpenFailure, ReadDir};
pub use server::{Event, Opened, Outcome, Server, State};
pub use walk::{WalkResult, Walker};
pub use wire::Reader;
