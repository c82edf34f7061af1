//! An ownership ledger for intellectual-property claims: a keyed registry that
//! records which identity owns a given content hash, tracks licensing
//! metadata, and keeps an append-only history of ownership transfers.

pub mod identity;
pub mod registration;
pub mod registry;
pub mod text;

pub use identity::Identity;
pub use registry::Registry;
pub use registration::Registration;
pub use registration::RegistrationStatus;
pub use registration::RegistryError;
pub use registration::TransferRecord;
