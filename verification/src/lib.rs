//! Core codec for the CRAM alignment format: variable-length integer
//! encodings, the encoding-descriptor algebra, the compression-header maps,
//! the substitution matrix, the per-record writer, and the adaptive
//! frequency model of the arithmetic block codec.

pub mod bits;
pub mod buf;
pub mod cigar;
pub mod compression_header;
pub mod container;
pub mod data_series;
pub mod encoding;
pub mod external;
pub mod fasta;
pub mod model;
pub mod num;
pub mod preservation_map;
pub mod record;
pub mod sink;
pub mod substitution_matrix;
pub mod tag_encoding_map;
pub mod writer;

pub use num::write_itf8;
