//! A fixed-capacity user directory kept consistent across two independently
//! owned storage backends: an in-process primary store and an external store
//! reached only through an adapter interface.
//!
//! The crate covers fixed-width record encoding, the primary store's
//! lifecycle operations, load-based routing of new users, bidirectional
//! reconciliation of the two stores, session-token issuance and validation,
//! and the periodic inactivity sweep.

pub mod errors;
pub mod external;
pub mod record;
pub mod session;
pub mod store;
pub mod sync;
pub mod system;
pub mod text;
