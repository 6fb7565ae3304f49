//! Structural validation of embedded file formats found at arbitrary
//! offsets inside binary blobs, and the pure logic of safe extraction.

pub mod decoder;
pub mod zip;
pub mod linux;
pub mod inflate;
pub mod confine;
