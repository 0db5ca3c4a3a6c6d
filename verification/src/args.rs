//! The command-line surface as plain data. The executable around the library
//! parses its arguments into these values and dispatches on them; the types
//! here carry no parsing logic of their own.

use vstd::prelude::*;

verus! {

/// A whole invocation: one of the four actions.
pub struct PngArgs {
    pub entity_type: EntityType,
}

/// The four user-facing actions.
pub enum EntityType {
    /// Embed a message in a PNG file.
    Encode(EncodeArgs),
    /// Recover a message from a PNG file.
    Decode(DecodeArgs),
    /// Remove a message from a PNG file.
    Remove(RemoveArgs),
    /// List the chunk types of a PNG file.
    Print(PrintArgs),
}

/// Arguments of the encode action.
pub struct EncodeArgs {
    pub file_path: String,
    pub chunk_type: String,
    pub message: String,
    pub output_file: Option<String>,
}

/// Arguments of the decode action.
pub struct DecodeArgs {
    pub file_path: String,
    pub chunk_type: String,
}

/// Arguments of the remove action.
pub struct RemoveArgs {
    pub file_path: String,
    pub chunk_type: String,
}

/// Arguments of the print action.
pub struct PrintArgs {
    pub file_path: String,
}

} // verus!
