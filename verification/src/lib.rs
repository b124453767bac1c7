//! Converts UBL-style invoice XML into a flat invoice data model and a
//! deterministic fixed-page layout, and extracts an embedded base64 document.
pub mod b64;
pub mod embedded;
pub mod errors;
pub mod ext;
pub mod invoice;
pub mod parse;
pub mod render;
pub mod text;
pub mod xml;
