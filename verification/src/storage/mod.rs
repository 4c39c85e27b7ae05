//! What is kept between runs: known destinations, ratchets and identity files.

pub mod backend;
pub mod file_laws;
pub mod files;
pub mod identity_files;
pub mod known;
pub mod known_laws;
pub mod order;
pub mod ratchet_files;
pub mod ratchet_laws;
pub mod ratchets;
pub mod time;

pub use backend::{FsStorage, MemoryStorage, Storage};
pub use files::{DestinationUses, KnownDestinationData};
pub use identity_files::{identity_from_public_file, private_identity_from_file, IdentityFiles};
pub use known::{KnownDestinations, KNOWN_DESTINATIONS_FILE};
pub use ratchets::{
    clean_destination_ratchets, load_destination_ratchets, save_destination_ratchets,
    KnownRatchets, RATCHETS_DIR,
};
