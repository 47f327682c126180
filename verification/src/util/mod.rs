pub mod uuid;

pub use uuid::{generate_deterministic_uuid, Fingerprint, Uuid};
