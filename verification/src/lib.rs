//! Lifecycle of invoice records: creation, acknowledgement, financing,
//! payment and terminal resolution, with an append-only history per record
//! and lookups by identifier, transaction hash and hashed vendor contact.
//!
//! - [`record`]: the invoice record and its tracking metadata.
//! - [`guard`]: the transition guard on a record's flags.
//! - [`lifecycle`]: creation and the transitions of one record.
//! - [`ledger`]: the state of the service as a mathematical value.
//! - [`contract`]: the service itself, its operations and its queries.
//! - [`laws`]: what holds of the operations taken together.
//! - [`notice`]: what an accepted operation hands back.
//! - [`error`]: the violations an operation can report.
//! - [`text`]: text fields and the order of identifiers.

pub mod contract;
pub mod error;
pub mod guard;
pub mod laws;
pub mod ledger;
pub mod lifecycle;
pub mod notice;
pub mod record;
pub mod text;

pub use crate::contract::InvoiceContract;
pub use crate::error::InvoiceError;
pub use crate::notice::{Notification, Receipt};
pub use crate::record::{Invoice, Track};
