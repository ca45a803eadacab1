//! The compression header a slice's records are coded against.

use vstd::prelude::*;

use crate::data_series::DataSeriesEncodingMap;
use crate::preservation_map::PreservationMap;
use crate::tag_encoding_map::TagEncodingMap;

verus! {

/// How the records of one container are encoded: the preservation map, the
/// data-series encoding map and the tag encoding map.
#[derive(Debug)]
pub struct CompressionHeader {
    /// The preservation map.
    pub preservation_map: PreservationMap,
    /// The data-series encoding map.
    pub data_series_encoding_map: DataSeriesEncodingMap,
    /// The tag encoding map.
    pub tag_encoding_map: TagEncodingMap,
}

impl CompressionHeader {
    /// Bundles the three maps.
    pub fn new(
        preservation_map: PreservationMap,
        data_series_encoding_map: DataSeriesEncodingMap,
        tag_encoding_map: TagEncodingMap,
    ) -> (h: CompressionHeader)
        ensures
            h.preservation_map == preservation_map,
            h.data_series_encoding_map == data_series_encoding_map,
            h.tag_encoding_map == tag_encoding_map,
    {
        CompressionHeader { preservation_map, data_series_encoding_map, tag_encoding_map }
    }
}

/// The reference-sequence context of a slice: one reference, none, or many.
#[derive(Clone, Copy, Debug, PartialEq, Eq, Structural)]
pub enum ReferenceSequenceId {
    /// Every record aligns to this one reference.
    Single(i32),
    /// No record is placed.
    Unplaced,
    /// Records align to several references; each carries its own id.
    Many,
}

impl ReferenceSequenceId {
    /// The slice holds records against several references.
    pub fn is_many(self) -> (b: bool)
        ensures
            b == (self is Many),
    {
        match self {
            ReferenceSequenceId::Many => true,
            _ => false,
        }
    }
}

} // verus!
