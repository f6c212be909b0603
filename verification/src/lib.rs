//! Reading, validating and editing Altium design files.
//!
//! The crate models the parameter-record text format, the binary stream
//! framings used inside Altium compound documents, and the editing engines
//! that operate on schematic and PCB primitives.

pub mod record_ids;
pub mod wire;
pub mod error;
pub mod encoding;
pub mod params;
pub mod documents;
pub mod types;
pub mod edit;
pub mod import;
pub mod dump;
pub mod footprint;
pub mod field_readers;
pub mod embedded_object;
