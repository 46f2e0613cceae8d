//! A registry of pets and their owners, with a two-step transfer protocol:
//! the owner marks a pet for a recipient, and the recipient claims it.

pub mod error;
pub mod identity;
pub mod index;
pub mod record;
pub mod registry;
pub mod store;

pub use error::RegistryError;
pub use identity::Identity;
pub use index::{IdLists, UsersPetData};
pub use record::{OwnerData, OwnerPatch, OwnerPayload, PetPatch, PetPayload, PetRecord};
pub use registry::Registry;
pub use store::RecordStore;
