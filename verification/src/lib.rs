//! A safety-first mailbox domain model.
//!
//! The crate deliberately does not expose IMAP `EXPUNGE` or `\\Deleted` as
//! application operations. Production adapters should implement [`MailStore`]
//! with `MOVE` to/from a mailbox carrying the IMAP `\\Trash` special-use flag.

pub mod cli;
pub mod cli_laws;
pub mod foundation;
pub mod header_laws;
pub mod headers;
pub mod imap;
pub mod imap_laws;
pub mod name_map;
pub mod projection_laws;
pub mod rdf;
pub mod rdf_laws;
pub mod store;
pub mod store_laws;
pub mod sync;
pub mod sync_laws;
pub mod text;
pub mod text_laws;

pub use store::{InMemoryMailStore, MailError, MailEvent, MailStore, MailboxRole, MessageId};
