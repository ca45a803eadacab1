//! The data-series encoding map: which encoding carries each well-known
//! two-letter data series.
//!
//! On the wire: an ITF8 byte length, an ITF8 entry count, then that many
//! entries of a two-byte ASCII key followed by an encoding descriptor. The
//! key vocabulary is closed; the two reserved keys are read and discarded.
//! No series is mandatory here: the record codec fails at point of use when
//! a series it needs has no encoding.

use vstd::prelude::*;

use bytes::Bytes;

use crate::buf::{bytes_view, get_itf8, get_u8, remaining, split_to, ReadError};
use crate::encoding::{
    enc_wire, get_encoding, lemma_parse_itf8_len, parse_encoding, write_encoding, Encoding,
    EncodingView, WriteError, MAX_ITF8,
};
use crate::num::{itf8_bytes, parse_itf8, write_itf8};

verus! {

/// A well-known data series, or one of the two reserved keys.
#[derive(Clone, Copy, Debug, PartialEq, Eq, Structural)]
pub enum DataSeries {
    /// The `BF` series.
    BamBitFlags,
    /// The `CF` series.
    CramBitFlags,
    /// The `RI` series.
    ReferenceId,
    /// The `RL` series.
    ReadLengths,
    /// The `AP` series.
    InSeqPositions,
    /// The `RG` series.
    ReadGroups,
    /// The `RN` series.
    ReadNames,
    /// The `MF` series.
    NextMateBitFlags,
    /// The `NS` series.
    NextFragmentReferenceSequenceId,
    /// The `NP` series.
    NextMateAlignmentStart,
    /// The `TS` series.
    TemplateSize,
    /// The `NF` series.
    DistanceToNextFragment,
    /// The `TL` series.
    TagIds,
    /// The `FN` series.
    NumberOfReadFeatures,
    /// The `FC` series.
    ReadFeaturesCodes,
    /// The `FP` series.
    InReadPositions,
    /// The `DL` series.
    DeletionLengths,
    /// The `BB` series.
    StretchesOfBases,
    /// The `QQ` series.
    StretchesOfQualityScores,
    /// The `BS` series.
    BaseSubstitutionCodes,
    /// The `IN` series.
    Insertion,
    /// The `RS` series.
    ReferenceSkipLength,
    /// The `PD` series.
    Padding,
    /// The `HC` series.
    HardClip,
    /// The `SC` series.
    SoftClip,
    /// The `MQ` series.
    MappingQualities,
    /// The `BA` series.
    Bases,
    /// The `QS` series.
    QualityScores,
    /// The reserved `TC` key.
    ReservedTc,
    /// The reserved `TN` key.
    ReservedTn,
}

/// A series' position in the key vocabulary.
pub open spec fn series_ord(d: DataSeries) -> int {
    match d {
        DataSeries::BamBitFlags => 0,
        DataSeries::CramBitFlags => 1,
        DataSeries::ReferenceId => 2,
        DataSeries::ReadLengths => 3,
        DataSeries::InSeqPositions => 4,
        DataSeries::ReadGroups => 5,
        DataSeries::ReadNames => 6,
        DataSeries::NextMateBitFlags => 7,
        DataSeries::NextFragmentReferenceSequenceId => 8,
        DataSeries::NextMateAlignmentStart => 9,
        DataSeries::TemplateSize => 10,
        DataSeries::DistanceToNextFragment => 11,
        DataSeries::TagIds => 12,
        DataSeries::NumberOfReadFeatures => 13,
        DataSeries::ReadFeaturesCodes => 14,
        DataSeries::InReadPositions => 15,
        DataSeries::DeletionLengths => 16,
        DataSeries::StretchesOfBases => 17,
        DataSeries::StretchesOfQualityScores => 18,
        DataSeries::BaseSubstitutionCodes => 19,
        DataSeries::Insertion => 20,
        DataSeries::ReferenceSkipLength => 21,
        DataSeries::Padding => 22,
        DataSeries::HardClip => 23,
        DataSeries::SoftClip => 24,
        DataSeries::MappingQualities => 25,
        DataSeries::Bases => 26,
        DataSeries::QualityScores => 27,
        DataSeries::ReservedTc => 28,
        DataSeries::ReservedTn => 29,
    }
}

/// The ordinal a two-byte key names, if any.
pub open spec fn key_to_ord(b0: u8, b1: u8) -> Option<int> {
    if b0 == 66 && b1 == 70 {  // "BF"
        Some(0)
    } else if b0 == 67 && b1 == 70 {  // "CF"
        Some(1)
    } else if b0 == 82 && b1 == 73 {  // "RI"
        Some(2)
    } else if b0 == 82 && b1 == 76 {  // "RL"
        Some(3)
    } else if b0 == 65 && b1 == 80 {  // "AP"
        Some(4)
    } else if b0 == 82 && b1 == 71 {  // "RG"
        Some(5)
    } else if b0 == 82 && b1 == 78 {  // "RN"
        Some(6)
    } else if b0 == 77 && b1 == 70 {  // "MF"
        Some(7)
    } else if b0 == 78 && b1 == 83 {  // "NS"
        Some(8)
    } else if b0 == 78 && b1 == 80 {  // "NP"
        Some(9)
    } else if b0 == 84 && b1 == 83 {  // "TS"
        Some(10)
    } else if b0 == 78 && b1 == 70 {  // "NF"
        Some(11)
    } else if b0 == 84 && b1 == 76 {  // "TL"
        Some(12)
    } else if b0 == 70 && b1 == 78 {  // "FN"
        Some(13)
    } else if b0 == 70 && b1 == 67 {  // "FC"
        Some(14)
    } else if b0 == 70 && b1 == 80 {  // "FP"
        Some(15)
    } else if b0 == 68 && b1 == 76 {  // "DL"
        Some(16)
    } else if b0 == 66 && b1 == 66 {  // "BB"
        Some(17)
    } else if b0 == 81 && b1 == 81 {  // "QQ"
        Some(18)
    } else if b0 == 66 && b1 == 83 {  // "BS"
        Some(19)
    } else if b0 == 73 && b1 == 78 {  // "IN"
        Some(20)
    } else if b0 == 82 && b1 == 83 {  // "RS"
        Some(21)
    } else if b0 == 80 && b1 == 68 {  // "PD"
        Some(22)
    } else if b0 == 72 && b1 == 67 {  // "HC"
        Some(23)
    } else if b0 == 83 && b1 == 67 {  // "SC"
        Some(24)
    } else if b0 == 77 && b1 == 81 {  // "MQ"
        Some(25)
    } else if b0 == 66 && b1 == 65 {  // "BA"
        Some(26)
    } else if b0 == 81 && b1 == 83 {  // "QS"
        Some(27)
    } else if b0 == 84 && b1 == 67 {  // "TC"
        Some(28)
    } else if b0 == 84 && b1 == 78 {  // "TN"
        Some(29)
    } else {
        None
    }
}

/// The two key bytes of an ordinal.
pub open spec fn ord_key(ord: int) -> (u8, u8) {
    if ord == 0 {
        (66, 70)
    } else if ord == 1 {
        (67, 70)
    } else if ord == 2 {
        (82, 73)
    } else if ord == 3 {
        (82, 76)
    } else if ord == 4 {
        (65, 80)
    } else if ord == 5 {
        (82, 71)
    } else if ord == 6 {
        (82, 78)
    } else if ord == 7 {
        (77, 70)
    } else if ord == 8 {
        (78, 83)
    } else if ord == 9 {
        (78, 80)
    } else if ord == 10 {
        (84, 83)
    } else if ord == 11 {
        (78, 70)
    } else if ord == 12 {
        (84, 76)
    } else if ord == 13 {
        (70, 78)
    } else if ord == 14 {
        (70, 67)
    } else if ord == 15 {
        (70, 80)
    } else if ord == 16 {
        (68, 76)
    } else if ord == 17 {
        (66, 66)
    } else if ord == 18 {
        (81, 81)
    } else if ord == 19 {
        (66, 83)
    } else if ord == 20 {
        (73, 78)
    } else if ord == 21 {
        (82, 83)
    } else if ord == 22 {
        (80, 68)
    } else if ord == 23 {
        (72, 67)
    } else if ord == 24 {
        (83, 67)
    } else if ord == 25 {
        (77, 81)
    } else if ord == 26 {
        (66, 65)
    } else if ord == 27 {
        (81, 83)
    } else if ord == 28 {
        (84, 67)
    } else if ord == 29 {
        (84, 78)
    } else {
        (0, 0)
    }
}

impl DataSeries {
    /// Decodes a two-byte key; `None` for a key outside the vocabulary.
    pub fn from_key(b0: u8, b1: u8) -> (r: Option<DataSeries>)
        ensures
            match key_to_ord(b0, b1) {
                Some(ord) => r matches Some(d) && series_ord(d) == ord,
                None => r is None,
            },
    {
        if b0 == 66 && b1 == 70 {
            Some(DataSeries::BamBitFlags)
        } else if b0 == 67 && b1 == 70 {
            Some(DataSeries::CramBitFlags)
        } else if b0 == 82 && b1 == 73 {
            Some(DataSeries::ReferenceId)
        } else if b0 == 82 && b1 == 76 {
            Some(DataSeries::ReadLengths)
        } else if b0 == 65 && b1 == 80 {
            Some(DataSeries::InSeqPositions)
        } else if b0 == 82 && b1 == 71 {
            Some(DataSeries::ReadGroups)
        } else if b0 == 82 && b1 == 78 {
            Some(DataSeries::ReadNames)
        } else if b0 == 77 && b1 == 70 {
            Some(DataSeries::NextMateBitFlags)
        } else if b0 == 78 && b1 == 83 {
            Some(DataSeries::NextFragmentReferenceSequenceId)
        } else if b0 == 78 && b1 == 80 {
            Some(DataSeries::NextMateAlignmentStart)
        } else if b0 == 84 && b1 == 83 {
            Some(DataSeries::TemplateSize)
        } else if b0 == 78 && b1 == 70 {
            Some(DataSeries::DistanceToNextFragment)
        } else if b0 == 84 && b1 == 76 {
            Some(DataSeries::TagIds)
        } else if b0 == 70 && b1 == 78 {
            Some(DataSeries::NumberOfReadFeatures)
        } else if b0 == 70 && b1 == 67 {
            Some(DataSeries::ReadFeaturesCodes)
        } else if b0 == 70 && b1 == 80 {
            Some(DataSeries::InReadPositions)
        } else if b0 == 68 && b1 == 76 {
            Some(DataSeries::DeletionLengths)
        } else if b0 == 66 && b1 == 66 {
            Some(DataSeries::StretchesOfBases)
        } else if b0 == 81 && b1 == 81 {
            Some(DataSeries::StretchesOfQualityScores)
        } else if b0 == 66 && b1 == 83 {
            Some(DataSeries::BaseSubstitutionCodes)
        } else if b0 == 73 && b1 == 78 {
            Some(DataSeries::Insertion)
        } else if b0 == 82 && b1 == 83 {
            Some(DataSeries::ReferenceSkipLength)
        } else if b0 == 80 && b1 == 68 {
            Some(DataSeries::Padding)
        } else if b0 == 72 && b1 == 67 {
            Some(DataSeries::HardClip)
        } else if b0 == 83 && b1 == 67 {
            Some(DataSeries::SoftClip)
        } else if b0 == 77 && b1 == 81 {
            Some(DataSeries::MappingQualities)
        } else if b0 == 66 && b1 == 65 {
            Some(DataSeries::Bases)
        } else if b0 == 81 && b1 == 83 {
            Some(DataSeries::QualityScores)
        } else if b0 == 84 && b1 == 67 {
            Some(DataSeries::ReservedTc)
        } else if b0 == 84 && b1 == 78 {
            Some(DataSeries::ReservedTn)
        } else {
            None
        }
    }

    /// The series' two ASCII key bytes.
    pub fn key(self) -> (k: (u8, u8))
        ensures
            k == ord_key(series_ord(self)),
    {
        match self {
            DataSeries::BamBitFlags => (66, 70),
            DataSeries::CramBitFlags => (67, 70),
            DataSeries::ReferenceId => (82, 73),
            DataSeries::ReadLengths => (82, 76),
            DataSeries::InSeqPositions => (65, 80),
            DataSeries::ReadGroups => (82, 71),
            DataSeries::ReadNames => (82, 78),
            DataSeries::NextMateBitFlags => (77, 70),
            DataSeries::NextFragmentReferenceSequenceId => (78, 83),
            DataSeries::NextMateAlignmentStart => (78, 80),
            DataSeries::TemplateSize => (84, 83),
            DataSeries::DistanceToNextFragment => (78, 70),
            DataSeries::TagIds => (84, 76),
            DataSeries::NumberOfReadFeatures => (70, 78),
            DataSeries::ReadFeaturesCodes => (70, 67),
            DataSeries::InReadPositions => (70, 80),
            DataSeries::DeletionLengths => (68, 76),
            DataSeries::StretchesOfBases => (66, 66),
            DataSeries::StretchesOfQualityScores => (81, 81),
            DataSeries::BaseSubstitutionCodes => (66, 83),
            DataSeries::Insertion => (73, 78),
            DataSeries::ReferenceSkipLength => (82, 83),
            DataSeries::Padding => (80, 68),
            DataSeries::HardClip => (72, 67),
            DataSeries::SoftClip => (83, 67),
            DataSeries::MappingQualities => (77, 81),
            DataSeries::Bases => (66, 65),
            DataSeries::QualityScores => (81, 83),
            DataSeries::ReservedTc => (84, 67),
            DataSeries::ReservedTn => (84, 78),
        }
    }
}

/// The encoding chosen for each data series, where one was declared.
#[derive(Debug, PartialEq, Eq)]
pub struct DataSeriesEncodingMap {
    /// The `BF` (BamBitFlags) encoding.
    pub bam_bit_flags_encoding: Option<Encoding>,
    /// The `CF` (CramBitFlags) encoding.
    pub cram_bit_flags_encoding: Option<Encoding>,
    /// The `RI` (ReferenceId) encoding.
    pub reference_id_encoding: Option<Encoding>,
    /// The `RL` (ReadLengths) encoding.
    pub read_lengths_encoding: Option<Encoding>,
    /// The `AP` (InSeqPositions) encoding.
    pub in_seq_positions_encoding: Option<Encoding>,
    /// The `RG` (ReadGroups) encoding.
    pub read_groups_encoding: Option<Encoding>,
    /// The `RN` (ReadNames) encoding.
    pub read_names_encoding: Option<Encoding>,
    /// The `MF` (NextMateBitFlags) encoding.
    pub next_mate_bit_flags_encoding: Option<Encoding>,
    /// The `NS` (NextFragmentReferenceSequenceId) encoding.
    pub next_fragment_reference_sequence_id_encoding: Option<Encoding>,
    /// The `NP` (NextMateAlignmentStart) encoding.
    pub next_mate_alignment_start_encoding: Option<Encoding>,
    /// The `TS` (TemplateSize) encoding.
    pub template_size_encoding: Option<Encoding>,
    /// The `NF` (DistanceToNextFragment) encoding.
    pub distance_to_next_fragment_encoding: Option<Encoding>,
    /// The `TL` (TagIds) encoding.
    pub tag_ids_encoding: Option<Encoding>,
    /// The `FN` (NumberOfReadFeatures) encoding.
    pub number_of_read_features_encoding: Option<Encoding>,
    /// The `FC` (ReadFeaturesCodes) encoding.
    pub read_features_codes_encoding: Option<Encoding>,
    /// The `FP` (InReadPositions) encoding.
    pub in_read_positions_encoding: Option<Encoding>,
    /// The `DL` (DeletionLengths) encoding.
    pub deletion_lengths_encoding: Option<Encoding>,
    /// The `BB` (StretchesOfBases) encoding.
    pub stretches_of_bases_encoding: Option<Encoding>,
    /// The `QQ` (StretchesOfQualityScores) encoding.
    pub stretches_of_quality_scores_encoding: Option<Encoding>,
    /// The `BS` (BaseSubstitutionCodes) encoding.
    pub base_substitution_codes_encoding: Option<Encoding>,
    /// The `IN` (Insertion) encoding.
    pub insertion_encoding: Option<Encoding>,
    /// The `RS` (ReferenceSkipLength) encoding.
    pub reference_skip_length_encoding: Option<Encoding>,
    /// The `PD` (Padding) encoding.
    pub padding_encoding: Option<Encoding>,
    /// The `HC` (HardClip) encoding.
    pub hard_clip_encoding: Option<Encoding>,
    /// The `SC` (SoftClip) encoding.
    pub soft_clip_encoding: Option<Encoding>,
    /// The `MQ` (MappingQualities) encoding.
    pub mapping_qualities_encoding: Option<Encoding>,
    /// The `BA` (Bases) encoding.
    pub bases_encoding: Option<Encoding>,
    /// The `QS` (QualityScores) encoding.
    pub quality_scores_encoding: Option<Encoding>,
}

/// Whether the map declares an encoding for ordinal `k`.
pub open spec fn dsem_has(m: &DataSeriesEncodingMap, k: int) -> bool {
    if k == 0 {
        m.bam_bit_flags_encoding is Some
    } else if k == 1 {
        m.cram_bit_flags_encoding is Some
    } else if k == 2 {
        m.reference_id_encoding is Some
    } else if k == 3 {
        m.read_lengths_encoding is Some
    } else if k == 4 {
        m.in_seq_positions_encoding is Some
    } else if k == 5 {
        m.read_groups_encoding is Some
    } else if k == 6 {
        m.read_names_encoding is Some
    } else if k == 7 {
        m.next_mate_bit_flags_encoding is Some
    } else if k == 8 {
        m.next_fragment_reference_sequence_id_encoding is Some
    } else if k == 9 {
        m.next_mate_alignment_start_encoding is Some
    } else if k == 10 {
        m.template_size_encoding is Some
    } else if k == 11 {
        m.distance_to_next_fragment_encoding is Some
    } else if k == 12 {
        m.tag_ids_encoding is Some
    } else if k == 13 {
        m.number_of_read_features_encoding is Some
    } else if k == 14 {
        m.read_features_codes_encoding is Some
    } else if k == 15 {
        m.in_read_positions_encoding is Some
    } else if k == 16 {
        m.deletion_lengths_encoding is Some
    } else if k == 17 {
        m.stretches_of_bases_encoding is Some
    } else if k == 18 {
        m.stretches_of_quality_scores_encoding is Some
    } else if k == 19 {
        m.base_substitution_codes_encoding is Some
    } else if k == 20 {
        m.insertion_encoding is Some
    } else if k == 21 {
        m.reference_skip_length_encoding is Some
    } else if k == 22 {
        m.padding_encoding is Some
    } else if k == 23 {
        m.hard_clip_encoding is Some
    } else if k == 24 {
        m.soft_clip_encoding is Some
    } else if k == 25 {
        m.mapping_qualities_encoding is Some
    } else if k == 26 {
        m.bases_encoding is Some
    } else if k == 27 {
        m.quality_scores_encoding is Some
    } else {
        false
    }
}

/// The declared encoding for ordinal `k`, as a view.
pub open spec fn dsem_at(m: &DataSeriesEncodingMap, k: int) -> EncodingView {
    if k == 0 {
        match m.bam_bit_flags_encoding {
            Some(e) => e@,
            None => EncodingView::Null,
        }
    } else if k == 1 {
        match m.cram_bit_flags_encoding {
            Some(e) => e@,
            None => EncodingView::Null,
        }
    } else if k == 2 {
        match m.reference_id_encoding {
            Some(e) => e@,
            None => EncodingView::Null,
        }
    } else if k == 3 {
        match m.read_lengths_encoding {
            Some(e) => e@,
            None => EncodingView::Null,
        }
    } else if k == 4 {
        match m.in_seq_positions_encoding {
            Some(e) => e@,
            None => EncodingView::Null,
        }
    } else if k == 5 {
        match m.read_groups_encoding {
            Some(e) => e@,
            None => EncodingView::Null,
        }
    } else if k == 6 {
        match m.read_names_encoding {
            Some(e) => e@,
            None => EncodingView::Null,
        }
    } else if k == 7 {
        match m.next_mate_bit_flags_encoding {
            Some(e) => e@,
            None => EncodingView::Null,
        }
    } else if k == 8 {
        match m.next_fragment_reference_sequence_id_encoding {
            Some(e) => e@,
            None => EncodingView::Null,
        }
    } else if k == 9 {
        match m.next_mate_alignment_start_encoding {
            Some(e) => e@,
            None => EncodingView::Null,
        }
    } else if k == 10 {
        match m.template_size_encoding {
            Some(e) => e@,
            None => EncodingView::Null,
        }
    } else if k == 11 {
        match m.distance_to_next_fragment_encoding {
            Some(e) => e@,
            None => EncodingView::Null,
        }
    } else if k == 12 {
        match m.tag_ids_encoding {
            Some(e) => e@,
            None => EncodingView::Null,
        }
    } else if k == 13 {
        match m.number_of_read_features_encoding {
            Some(e) => e@,
            None => EncodingView::Null,
        }
    } else if k == 14 {
        match m.read_features_codes_encoding {
            Some(e) => e@,
            None => EncodingView::Null,
        }
    } else if k == 15 {
        match m.in_read_positions_encoding {
            Some(e) => e@,
            None => EncodingView::Null,
        }
    } else if k == 16 {
        match m.deletion_lengths_encoding {
            Some(e) => e@,
            None => EncodingView::Null,
        }
    } else if k == 17 {
        match m.stretches_of_bases_encoding {
            Some(e) => e@,
            None => EncodingView::Null,
        }
    } else if k == 18 {
        match m.stretches_of_quality_scores_encoding {
            Some(e) => e@,
            None => EncodingView::Null,
        }
    } else if k == 19 {
        match m.base_substitution_codes_encoding {
            Some(e) => e@,
            None => EncodingView::Null,
        }
    } else if k == 20 {
        match m.insertion_encoding {
            Some(e) => e@,
            None => EncodingView::Null,
        }
    } else if k == 21 {
        match m.reference_skip_length_encoding {
            Some(e) => e@,
            None => EncodingView::Null,
        }
    } else if k == 22 {
        match m.padding_encoding {
            Some(e) => e@,
            None => EncodingView::Null,
        }
    } else if k == 23 {
        match m.hard_clip_encoding {
            Some(e) => e@,
            None => EncodingView::Null,
        }
    } else if k == 24 {
        match m.soft_clip_encoding {
            Some(e) => e@,
            None => EncodingView::Null,
        }
    } else if k == 25 {
        match m.mapping_qualities_encoding {
            Some(e) => e@,
            None => EncodingView::Null,
        }
    } else if k == 26 {
        match m.bases_encoding {
            Some(e) => e@,
            None => EncodingView::Null,
        }
    } else if k == 27 {
        match m.quality_scores_encoding {
            Some(e) => e@,
            None => EncodingView::Null,
        }
    } else {
        EncodingView::Null
    }
}

/// The map's mathematical shape: series ordinal to encoding.
pub open spec fn dsem_view(m: &DataSeriesEncodingMap) -> Map<int, EncodingView> {
    Map::new(|k: int| 0 <= k < 28 && dsem_has(m, k), |k: int| dsem_at(m, k))
}

impl DataSeriesEncodingMap {
    /// A map with no encodings declared.
    pub fn new() -> (m: DataSeriesEncodingMap)
        ensures
            dsem_view(&m) == Map::<int, EncodingView>::empty(),
    {
        let m = DataSeriesEncodingMap {
            bam_bit_flags_encoding: None,
            cram_bit_flags_encoding: None,
            reference_id_encoding: None,
            read_lengths_encoding: None,
            in_seq_positions_encoding: None,
            read_groups_encoding: None,
            read_names_encoding: None,
            next_mate_bit_flags_encoding: None,
            next_fragment_reference_sequence_id_encoding: None,
            next_mate_alignment_start_encoding: None,
            template_size_encoding: None,
            distance_to_next_fragment_encoding: None,
            tag_ids_encoding: None,
            number_of_read_features_encoding: None,
            read_features_codes_encoding: None,
            in_read_positions_encoding: None,
            deletion_lengths_encoding: None,
            stretches_of_bases_encoding: None,
            stretches_of_quality_scores_encoding: None,
            base_substitution_codes_encoding: None,
            insertion_encoding: None,
            reference_skip_length_encoding: None,
            padding_encoding: None,
            hard_clip_encoding: None,
            soft_clip_encoding: None,
            mapping_qualities_encoding: None,
            bases_encoding: None,
            quality_scores_encoding: None,
        };
        proof {
            assert(dsem_view(&m) =~= Map::<int, EncodingView>::empty());
        }
        m
    }
}

impl Default for DataSeriesEncodingMap {
    /// The stock layout: every series external, block content ids counting
    /// up from one in key order.
    fn default() -> (m: DataSeriesEncodingMap)
        ensures
            forall|k: int| 0 <= k < 28 ==> dsem_has(&m, k),
            forall|k: int| 0 <= k < 28 ==> dsem_at(&m, k) == EncodingView::External((k + 1) as i32),
    {
        DataSeriesEncodingMap {
            bam_bit_flags_encoding: Some(Encoding::External(1)),
            cram_bit_flags_encoding: Some(Encoding::External(2)),
            reference_id_encoding: Some(Encoding::External(3)),
            read_lengths_encoding: Some(Encoding::External(4)),
            in_seq_positions_encoding: Some(Encoding::External(5)),
            read_groups_encoding: Some(Encoding::External(6)),
            read_names_encoding: Some(Encoding::External(7)),
            next_mate_bit_flags_encoding: Some(Encoding::External(8)),
            next_fragment_reference_sequence_id_encoding: Some(Encoding::External(9)),
            next_mate_alignment_start_encoding: Some(Encoding::External(10)),
            template_size_encoding: Some(Encoding::External(11)),
            distance_to_next_fragment_encoding: Some(Encoding::External(12)),
            tag_ids_encoding: Some(Encoding::External(13)),
            number_of_read_features_encoding: Some(Encoding::External(14)),
            read_features_codes_encoding: Some(Encoding::External(15)),
            in_read_positions_encoding: Some(Encoding::External(16)),
            deletion_lengths_encoding: Some(Encoding::External(17)),
            stretches_of_bases_encoding: Some(Encoding::External(18)),
            stretches_of_quality_scores_encoding: Some(Encoding::External(19)),
            base_substitution_codes_encoding: Some(Encoding::External(20)),
            insertion_encoding: Some(Encoding::External(21)),
            reference_skip_length_encoding: Some(Encoding::External(22)),
            padding_encoding: Some(Encoding::External(23)),
            hard_clip_encoding: Some(Encoding::External(24)),
            soft_clip_encoding: Some(Encoding::External(25)),
            mapping_qualities_encoding: Some(Encoding::External(26)),
            bases_encoding: Some(Encoding::External(27)),
            quality_scores_encoding: Some(Encoding::External(28)),
        }
    }
}

/// Folds `count` wire entries into a series-to-encoding map. Input that
/// ends early is an unexpected end; a key outside the vocabulary is
/// invalid; a reserved key's encoding is parsed and discarded; a repeated
/// key keeps its last encoding.
pub open spec fn parse_dsem_entries(
    s: Seq<u8>,
    count: int,
    acc: Map<int, EncodingView>,
) -> Result<Map<int, EncodingView>, ReadError>
    decreases count,
{
    if count <= 0 {
        Ok(acc)
    } else if s.len() < 2 {
        Err(ReadError::UnexpectedEof)
    } else {
        match key_to_ord(s[0], s[1]) {
            None => Err(ReadError::InvalidData),
            Some(ord) => match parse_encoding(s.skip(2)) {
                Err(e) => Err(e),
                Ok((e, n)) => parse_dsem_entries(
                    s.skip(2 + n),
                    count - 1,
                    if ord < 28 {
                        acc.insert(ord, e)
                    } else {
                        acc
                    },
                ),
            },
        }
    }
}

/// Reads a whole data-series encoding map from the front of a sequence:
/// the map and the bytes consumed (the length prefix and the block it
/// frames; trailing bytes inside the block are ignored). Input shorter
/// than its declared length is an unexpected end; a negative length or
/// count is invalid.
pub open spec fn parse_dsem(s: Seq<u8>) -> Result<(Map<int, EncodingView>, int), ReadError> {
    match parse_itf8(s) {
        None => Err(ReadError::UnexpectedEof),
        Some((data_len, n1)) => if data_len < 0 {
            Err(ReadError::InvalidData)
        } else if s.len() - n1 < data_len {
            Err(ReadError::UnexpectedEof)
        } else {
            let block = s.skip(n1).take(data_len as int);
            match parse_itf8(block) {
                None => Err(ReadError::UnexpectedEof),
                Some((count, n2)) => if count < 0 {
                    Err(ReadError::InvalidData)
                } else {
                    match parse_dsem_entries(block.skip(n2), count as int, Map::empty()) {
                        Ok(m) => Ok((m, n1 + data_len)),
                        Err(e) => Err(e),
                    }
                },
            }
        },
    }
}

/// Installs an encoding under its series; the two reserved keys are
/// accepted and dropped.
#[verifier::rlimit(100)]
fn set_series(m: &mut DataSeriesEncodingMap, series: DataSeries, enc: Encoding)
    ensures
        series_ord(series) < 28 ==> dsem_view(&*final(m)) == dsem_view(&*old(m)).insert(
            series_ord(series),
            enc@,
        ),
        series_ord(series) >= 28 ==> *final(m) == *old(m),
{
    let ghost ord = series_ord(series);
    match series {
        DataSeries::BamBitFlags => {
            m.bam_bit_flags_encoding = Some(enc);
        },
        DataSeries::CramBitFlags => {
            m.cram_bit_flags_encoding = Some(enc);
        },
        DataSeries::ReferenceId => {
            m.reference_id_encoding = Some(enc);
        },
        DataSeries::ReadLengths => {
            m.read_lengths_encoding = Some(enc);
        },
        DataSeries::InSeqPositions => {
            m.in_seq_positions_encoding = Some(enc);
        },
        DataSeries::ReadGroups => {
            m.read_groups_encoding = Some(enc);
        },
        DataSeries::ReadNames => {
            m.read_names_encoding = Some(enc);
        },
        DataSeries::NextMateBitFlags => {
            m.next_mate_bit_flags_encoding = Some(enc);
        },
        DataSeries::NextFragmentReferenceSequenceId => {
            m.next_fragment_reference_sequence_id_encoding = Some(enc);
        },
        DataSeries::NextMateAlignmentStart => {
            m.next_mate_alignment_start_encoding = Some(enc);
        },
        DataSeries::TemplateSize => {
            m.template_size_encoding = Some(enc);
        },
        DataSeries::DistanceToNextFragment => {
            m.distance_to_next_fragment_encoding = Some(enc);
        },
        DataSeries::TagIds => {
            m.tag_ids_encoding = Some(enc);
        },
        DataSeries::NumberOfReadFeatures => {
            m.number_of_read_features_encoding = Some(enc);
        },
        DataSeries::ReadFeaturesCodes => {
            m.read_features_codes_encoding = Some(enc);
        },
        DataSeries::InReadPositions => {
            m.in_read_positions_encoding = Some(enc);
        },
        DataSeries::DeletionLengths => {
            m.deletion_lengths_encoding = Some(enc);
        },
        DataSeries::StretchesOfBases => {
            m.stretches_of_bases_encoding = Some(enc);
        },
        DataSeries::StretchesOfQualityScores => {
            m.stretches_of_quality_scores_encoding = Some(enc);
        },
        DataSeries::BaseSubstitutionCodes => {
            m.base_substitution_codes_encoding = Some(enc);
        },
        DataSeries::Insertion => {
            m.insertion_encoding = Some(enc);
        },
        DataSeries::ReferenceSkipLength => {
            m.reference_skip_length_encoding = Some(enc);
        },
        DataSeries::Padding => {
            m.padding_encoding = Some(enc);
        },
        DataSeries::HardClip => {
            m.hard_clip_encoding = Some(enc);
        },
        DataSeries::SoftClip => {
            m.soft_clip_encoding = Some(enc);
        },
        DataSeries::MappingQualities => {
            m.mapping_qualities_encoding = Some(enc);
        },
        DataSeries::Bases => {
            m.bases_encoding = Some(enc);
        },
        DataSeries::QualityScores => {
            m.quality_scores_encoding = Some(enc);
        },
        DataSeries::ReservedTc => {},
        DataSeries::ReservedTn => {},
    }
    proof {
        if ord < 28 {
            assert(dsem_view(m) =~= dsem_view(old(m)).insert(ord, enc@));
        }
    }
}

/// Deserializes a data-series encoding map from the front of `src`.
#[verifier::loop_isolation(false)]
#[verifier::rlimit(100)]
pub fn get_data_series_encoding_map(src: &mut Bytes) -> (r: Result<
    DataSeriesEncodingMap,
    ReadError,
>)
    ensures
        match parse_dsem(bytes_view(*old(src))) {
            Ok((pm, n)) => r matches Ok(m) && dsem_view(&m) == pm && bytes_view(*final(src))
                == bytes_view(*old(src)).skip(n),
            Err(e) => r == Err::<DataSeriesEncodingMap, ReadError>(e),
        },
        ({
            let s0 = bytes_view(*old(src));
            match parse_itf8(s0) {
                Some((data_len, n1)) => if data_len >= 0 && s0.len() - n1 >= data_len {
                    bytes_view(*final(src)) == s0.skip(n1 + data_len)
                } else {
                    bytes_view(*final(src)) == s0.skip(n1)
                },
                None => true,
            }
        }),
{
    let ghost s0 = bytes_view(*src);
    proof {
        lemma_parse_itf8_len(s0);
    }
    let data_len_raw = get_itf8(src)?;
    if data_len_raw < 0 {
        return Err(ReadError::InvalidData);
    }
    let ghost n1 = parse_itf8(s0).unwrap().1;
    let data_len = data_len_raw as usize;
    if remaining(src) < data_len {
        return Err(ReadError::UnexpectedEof);
    }
    let mut buf = split_to(src, data_len);
    let ghost block = bytes_view(buf);
    proof {
        assert(block =~= s0.skip(n1).take(data_len_raw as int));
        assert(s0.skip(n1).skip(data_len_raw as int) =~= s0.skip(n1 + data_len_raw));
        lemma_parse_itf8_len(block);
    }
    let count = get_itf8(&mut buf)?;
    if count < 0 {
        return Err(ReadError::InvalidData);
    }
    let ghost n2 = parse_itf8(block).unwrap().1;

    let mut m = DataSeriesEncodingMap::new();
    let mut i: i32 = 0;
    while i < count
        invariant
            0 <= i <= count,
            match parse_dsem_entries(bytes_view(buf), count - i, dsem_view(&m)) {
                Ok(fm) => parse_dsem_entries(block.skip(n2), count as int, Map::empty()) == Ok::<
                    Map<int, EncodingView>,
                    ReadError,
                >(fm),
                Err(e) => parse_dsem_entries(block.skip(n2), count as int, Map::empty()) == Err::<
                    Map<int, EncodingView>,
                    ReadError,
                >(e),
            },
        decreases count - i,
    {
        let ghost cur = bytes_view(buf);
        if remaining(&buf) < 2 {
            return Err(ReadError::UnexpectedEof);
        }
        let b0 = get_u8(&mut buf);
        let b1 = get_u8(&mut buf);
        proof {
            assert(cur.skip(1).skip(1) =~= cur.skip(2));
            assert(cur.skip(1)[0] == cur[1]);
        }
        let series = match DataSeries::from_key(b0, b1) {
            Some(series) => series,
            None => {
                return Err(ReadError::InvalidData);
            },
        };
        let encoding = get_encoding(&mut buf)?;
        let ghost n = parse_encoding(cur.skip(2))->Ok_0.1;
        proof {
            assert(cur.skip(2).skip(n) =~= cur.skip(2 + n));
        }
        set_series(&mut m, series, encoding);
        i = i + 1;
    }
    Ok(m)
}

/// The field an ordinal names, for the writer's sweep over the map.
fn field_at(m: &DataSeriesEncodingMap, k: usize) -> (f: &Option<Encoding>)
    requires
        k < 28,
    ensures
        *f == dsem_field(m, k as int),
{
    if k == 0 {
        &m.bam_bit_flags_encoding
    } else if k == 1 {
        &m.cram_bit_flags_encoding
    } else if k == 2 {
        &m.reference_id_encoding
    } else if k == 3 {
        &m.read_lengths_encoding
    } else if k == 4 {
        &m.in_seq_positions_encoding
    } else if k == 5 {
        &m.read_groups_encoding
    } else if k == 6 {
        &m.read_names_encoding
    } else if k == 7 {
        &m.next_mate_bit_flags_encoding
    } else if k == 8 {
        &m.next_fragment_reference_sequence_id_encoding
    } else if k == 9 {
        &m.next_mate_alignment_start_encoding
    } else if k == 10 {
        &m.template_size_encoding
    } else if k == 11 {
        &m.distance_to_next_fragment_encoding
    } else if k == 12 {
        &m.tag_ids_encoding
    } else if k == 13 {
        &m.number_of_read_features_encoding
    } else if k == 14 {
        &m.read_features_codes_encoding
    } else if k == 15 {
        &m.in_read_positions_encoding
    } else if k == 16 {
        &m.deletion_lengths_encoding
    } else if k == 17 {
        &m.stretches_of_bases_encoding
    } else if k == 18 {
        &m.stretches_of_quality_scores_encoding
    } else if k == 19 {
        &m.base_substitution_codes_encoding
    } else if k == 20 {
        &m.insertion_encoding
    } else if k == 21 {
        &m.reference_skip_length_encoding
    } else if k == 22 {
        &m.padding_encoding
    } else if k == 23 {
        &m.hard_clip_encoding
    } else if k == 24 {
        &m.soft_clip_encoding
    } else if k == 25 {
        &m.mapping_qualities_encoding
    } else if k == 26 {
        &m.bases_encoding
    } else if k == 27 {
        &m.quality_scores_encoding
    } else {
        &m.quality_scores_encoding
    }
}

/// The two key bytes of an ordinal, executably.
fn ord_key_exec(k: usize) -> (key: (u8, u8))
    requires
        k < 28,
    ensures
        key == ord_key(k as int),
{
    if k == 0 {
        (66, 70)
    } else if k == 1 {
        (67, 70)
    } else if k == 2 {
        (82, 73)
    } else if k == 3 {
        (82, 76)
    } else if k == 4 {
        (65, 80)
    } else if k == 5 {
        (82, 71)
    } else if k == 6 {
        (82, 78)
    } else if k == 7 {
        (77, 70)
    } else if k == 8 {
        (78, 83)
    } else if k == 9 {
        (78, 80)
    } else if k == 10 {
        (84, 83)
    } else if k == 11 {
        (78, 70)
    } else if k == 12 {
        (84, 76)
    } else if k == 13 {
        (70, 78)
    } else if k == 14 {
        (70, 67)
    } else if k == 15 {
        (70, 80)
    } else if k == 16 {
        (68, 76)
    } else if k == 17 {
        (66, 66)
    } else if k == 18 {
        (81, 81)
    } else if k == 19 {
        (66, 83)
    } else if k == 20 {
        (73, 78)
    } else if k == 21 {
        (82, 83)
    } else if k == 22 {
        (80, 68)
    } else if k == 23 {
        (72, 67)
    } else if k == 24 {
        (83, 67)
    } else if k == 25 {
        (77, 81)
    } else if k == 26 {
        (66, 65)
    } else if k == 27 {
        (81, 83)
    } else {
        (0, 0)
    }
}

/// The field value an ordinal names, for the wire spec.
pub open spec fn dsem_field(m: &DataSeriesEncodingMap, k: int) -> Option<Encoding> {
    if k == 0 {
        m.bam_bit_flags_encoding
    } else if k == 1 {
        m.cram_bit_flags_encoding
    } else if k == 2 {
        m.reference_id_encoding
    } else if k == 3 {
        m.read_lengths_encoding
    } else if k == 4 {
        m.in_seq_positions_encoding
    } else if k == 5 {
        m.read_groups_encoding
    } else if k == 6 {
        m.read_names_encoding
    } else if k == 7 {
        m.next_mate_bit_flags_encoding
    } else if k == 8 {
        m.next_fragment_reference_sequence_id_encoding
    } else if k == 9 {
        m.next_mate_alignment_start_encoding
    } else if k == 10 {
        m.template_size_encoding
    } else if k == 11 {
        m.distance_to_next_fragment_encoding
    } else if k == 12 {
        m.tag_ids_encoding
    } else if k == 13 {
        m.number_of_read_features_encoding
    } else if k == 14 {
        m.read_features_codes_encoding
    } else if k == 15 {
        m.in_read_positions_encoding
    } else if k == 16 {
        m.deletion_lengths_encoding
    } else if k == 17 {
        m.stretches_of_bases_encoding
    } else if k == 18 {
        m.stretches_of_quality_scores_encoding
    } else if k == 19 {
        m.base_substitution_codes_encoding
    } else if k == 20 {
        m.insertion_encoding
    } else if k == 21 {
        m.reference_skip_length_encoding
    } else if k == 22 {
        m.padding_encoding
    } else if k == 23 {
        m.hard_clip_encoding
    } else if k == 24 {
        m.soft_clip_encoding
    } else if k == 25 {
        m.mapping_qualities_encoding
    } else if k == 26 {
        m.bases_encoding
    } else if k == 27 {
        m.quality_scores_encoding
    } else {
        None
    }
}

/// One wire entry for a field: nothing where no encoding is declared, the
/// key and descriptor where one is, `None` where the descriptor cannot be
/// serialized.
pub open spec fn opt_entry_wire(f: Option<Encoding>, k: int) -> Option<Seq<u8>> {
    match f {
        None => Some(Seq::<u8>::empty()),
        Some(e) => match enc_wire(e@) {
            Some(w) => Some(seq![ord_key(k).0, ord_key(k).1] + w),
            None => None,
        },
    }
}

/// The concatenated wire entries of the first `k` fields.
pub open spec fn dsem_entries_upto(m: &DataSeriesEncodingMap, k: int) -> Option<Seq<u8>>
    decreases k,
{
    if k <= 0 {
        Some(Seq::<u8>::empty())
    } else {
        match (dsem_entries_upto(m, k - 1), opt_entry_wire(dsem_field(m, k - 1), k - 1)) {
            (Some(a), Some(b)) => Some(a + b),
            _ => None,
        }
    }
}

/// How many of the first `k` fields declare an encoding.
pub open spec fn dsem_count_upto(m: &DataSeriesEncodingMap, k: int) -> int
    decreases k,
{
    if k <= 0 {
        0
    } else {
        dsem_count_upto(m, k - 1) + if dsem_field(m, k - 1) is Some {
            1int
        } else {
            0int
        }
    }
}

/// A failed prefix fails the whole entry list.
proof fn lemma_dsem_entries_none(m: &DataSeriesEncodingMap, k: int)
    requires
        0 <= k <= 28,
        dsem_entries_upto(m, k) is None,
    ensures
        dsem_entries_upto(m, 28) is None,
    decreases 28 - k,
{
    if k < 28 {
        lemma_dsem_entries_none(m, k + 1);
    }
}

/// Serializes a data-series encoding map: an ITF8 byte length, an ITF8
/// entry count, then one key-descriptor entry per declared series, in key
/// order.
#[verifier::loop_isolation(false)]
pub fn write_data_series_encoding_map(dst: &mut Vec<u8>, m: &DataSeriesEncodingMap) -> (r: Result<
    (),
    WriteError,
>)
    ensures
        match dsem_entries_upto(m, 28) {
            Some(entries) => ({
                let body = itf8_bytes(dsem_count_upto(m, 28) as i32) + entries;
                if body.len() <= MAX_ITF8 {
                    r == Ok::<(), WriteError>(()) && final(dst)@ == old(dst)@ + itf8_bytes(
                        body.len() as i32,
                    ) + body
                } else {
                    r == Err::<(), WriteError>(WriteError::InvalidInput) && final(dst)@ == old(
                        dst,
                    )@
                }
            }),
            None => r == Err::<(), WriteError>(WriteError::InvalidInput) && final(dst)@ == old(
                dst,
            )@,
        },
{
    let mut count: i32 = 0;
    let mut k: usize = 0;
    while k < 28
        invariant
            k <= 28,
            count as int == dsem_count_upto(m, k as int),
            0 <= count <= k,
        decreases 28 - k,
    {
        if field_at(m, k).is_some() {
            count = count + 1;
        }
        k = k + 1;
    }

    let mut entries: Vec<u8> = Vec::new();
    let mut k: usize = 0;
    while k < 28
        invariant
            k <= 28,
            dsem_entries_upto(m, k as int) == Some::<Seq<u8>>(entries@),
        decreases 28 - k,
    {
        match field_at(m, k) {
            Some(e) => {
                let key = ord_key_exec(k);
                entries.push(key.0);
                entries.push(key.1);
                match write_encoding(&mut entries, e) {
                    Ok(()) => {},
                    Err(err) => {
                        proof {
                            lemma_dsem_entries_none(m, k + 1 as int);
                        }
                        return Err(err);
                    },
                }
                proof {
                    if let Some(w) = enc_wire(e@) {
                        assert(entries@ =~= dsem_entries_upto(m, k as int).unwrap() + (seq![
                            ord_key(k as int).0,
                            ord_key(k as int).1,
                        ] + w));
                    }
                }
            },
            None => {
                proof {
                    assert(entries@ =~= entries@ + Seq::<u8>::empty());
                }
            },
        }
        k = k + 1;
    }

    let mut body: Vec<u8> = Vec::new();
    write_itf8(&mut body, count);
    body.append(&mut entries);
    if body.len() > MAX_ITF8 {
        return Err(WriteError::InvalidInput);
    }
    write_itf8(dst, body.len() as i32);
    dst.extend_from_slice(body.as_slice());
    Ok(())
}

} // verus!
