//! Altium Designer document import: pipe-delimited property records,
//! length-prefixed record streams, the Compound File Binary container,
//! and the conversion of records into schematic sheets, library symbols,
//! footprints and board items.

pub mod bytes;
pub mod cfb;
pub mod common;
pub mod error;
pub mod import;
pub mod pcbdoc;
pub mod pcblib;
pub mod record;
pub mod schdoc;
pub mod schlib;
pub mod stream;
