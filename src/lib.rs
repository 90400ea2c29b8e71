//! Mass-spectrometry data: peak arrays, their binary codec, and the
//! metadata model of mzML records.
pub mod binary;
pub mod codec;
pub mod compression;
pub mod encoding;
pub mod error;
pub mod index;
pub mod merger;
pub mod mzml;
pub mod params;
pub mod search;
pub mod spectrum;
pub mod text;
pub mod xic;
