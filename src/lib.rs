//! Homopolymer compression of symbol sequences: every maximal run of equal
//! adjacent symbols collapses to one symbol, optionally together with the run
//! start offsets that allow the uncompressed sequence to be rebuilt exactly.

pub mod compress;
pub mod config;
pub mod decompress;
pub mod laws;
pub mod record;

pub use compress::{
    compress_with_inversion_map, homopolymer_compress, homopolymer_compress_with_hodeco_map,
};
pub use config::{check_configuration, is_supported_input_extension, ConfigurationError};
pub use decompress::homopolymer_decompress;
pub use record::{compress_record, CompressedRecord, Record};
