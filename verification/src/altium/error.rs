//! Errors of Altium document import.

use vstd::prelude::*;
use crate::text::{concat, to_string};

verus! {

/// Why an Altium document could not be imported.
#[derive(Debug, Clone, PartialEq, Eq)]
pub enum AltiumImportError {
    /// Reading the container failed; the message of the I/O error.
    Io(String),
    /// The Compound File Binary header is missing or corrupt.
    InvalidCfbHeader,
    /// The named stream is not in the container.
    StreamNotFound(String),
    /// A stream could not be decompressed: stream name and reason.
    DecompressionFailed(String, String),
    /// A record stream could not be parsed.
    ParseError(String),
    /// The document format is not supported.
    UnsupportedFormat(String),
}

impl AltiumImportError {
    /// The human-readable description of the error.
    pub fn message(&self) -> (r: String)
        ensures
            r@ == match self {
                AltiumImportError::Io(m) => "I/O error reading Altium container: "@ + m@,
                AltiumImportError::InvalidCfbHeader =>
                    "Invalid Compound File Binary (CFB) header or corrupted OLE structure"@,
                AltiumImportError::StreamNotFound(n) => "Stream '"@ + n@
                    + "' not found in Altium container"@,
                AltiumImportError::DecompressionFailed(n, why) => "Decompression failed for stream '"@
                    + n@ + "': "@ + why@,
                AltiumImportError::ParseError(m) => "Failed to parse Altium record stream: "@ + m@,
                AltiumImportError::UnsupportedFormat(m) =>
                    "Unsupported or corrupted Altium document format: "@ + m@,
            },
    {
        match self {
            AltiumImportError::Io(m) => concat("I/O error reading Altium container: ", m.as_str()),
            AltiumImportError::InvalidCfbHeader => to_string(
                "Invalid Compound File Binary (CFB) header or corrupted OLE structure",
            ),
            AltiumImportError::StreamNotFound(n) => {
                let a = concat("Stream '", n.as_str());
                concat(a.as_str(), "' not found in Altium container")
            },
            AltiumImportError::DecompressionFailed(n, why) => {
                let a = concat("Decompression failed for stream '", n.as_str());
                let b = concat(a.as_str(), "': ");
                concat(b.as_str(), why.as_str())
            },
            AltiumImportError::ParseError(m) => concat("Failed to parse Altium record stream: ", m.as_str()),
            AltiumImportError::UnsupportedFormat(m) => concat(
                "Unsupported or corrupted Altium document format: ",
                m.as_str(),
            ),
        }
    }
}

} // verus!
