//! The alignment record as the codec sees it: plain fields, flag words,
//! per-read features, and raw tag values.

use vstd::prelude::*;

use crate::substitution_matrix::Base;

verus! {

/// A 1-based coordinate; zero is not representable.
#[derive(Clone, Copy, Debug, PartialEq, Eq, Structural)]
pub struct Position(pub usize);

impl Position {
    /// Wraps a 1-based coordinate; `None` for zero.
    pub fn new(n: usize) -> (r: Option<Position>)
        ensures
            match r {
                Some(p) => n >= 1 && p.0 == n,
                None => n == 0,
            },
    {
        if n == 0 {
            None
        } else {
            Some(Position(n))
        }
    }

    /// The coordinate's validity: positions count from one.
    pub open spec fn wf(self) -> bool {
        self.0 >= 1
    }
}

/// BAM flag word of a record.
#[derive(Clone, Copy, Debug, PartialEq, Eq, Structural)]
pub struct BamFlags(pub u16);

impl BamFlags {
    /// The read is unmapped.
    pub open spec fn spec_is_unmapped(self) -> bool {
        self.0 & 0x4 != 0
    }

    /// The read is unmapped.
    pub fn is_unmapped(self) -> (b: bool)
        ensures
            b == self.spec_is_unmapped(),
    {
        self.0 & 0x4 != 0
    }
}

/// CRAM flag word of a record.
#[derive(Clone, Copy, Debug, PartialEq, Eq, Structural)]
pub struct CramFlags(pub u8);

impl CramFlags {
    /// Quality scores are stored one per base.
    pub open spec fn spec_are_quality_scores_stored_as_array(self) -> bool {
        self.0 & 0x01 != 0
    }

    /// Quality scores are stored one per base.
    pub fn are_quality_scores_stored_as_array(self) -> (b: bool)
        ensures
            b == self.spec_are_quality_scores_stored_as_array(),
    {
        self.0 & 0x01 != 0
    }

    /// The mate is not in this slice; full mate data is written.
    pub open spec fn spec_is_detached(self) -> bool {
        self.0 & 0x02 != 0
    }

    /// The mate is not in this slice; full mate data is written.
    pub fn is_detached(self) -> (b: bool)
        ensures
            b == self.spec_is_detached(),
    {
        self.0 & 0x02 != 0
    }
}

/// Next-mate flag word of a detached record.
#[derive(Clone, Copy, Debug, PartialEq, Eq, Structural)]
pub struct NextMateFlags(pub u8);

/// A substitution payload: the observed base pair on the write side, or a
/// bare matrix code on the read side.
#[derive(Clone, Copy, Debug, PartialEq, Eq, Structural)]
pub enum SubstitutionValue {
    /// Reference base and read base, to be coded through the matrix.
    Bases(Base, Base),
    /// A code already taken from the wire.
    Code(u8),
}

/// A per-read edit at a 1-based in-read position.
#[derive(Clone, Debug, PartialEq, Eq)]
pub enum Feature {
    /// A stretch of bases.
    Bases(Position, Vec<u8>),
    /// A stretch of quality scores.
    Scores(Position, Vec<u8>),
    /// One base with its quality score.
    ReadBase(Position, u8, u8),
    /// A single-base substitution against the reference.
    Substitution(Position, SubstitutionValue),
    /// Inserted bases.
    Insertion(Position, Vec<u8>),
    /// A deletion of this many reference bases.
    Deletion(Position, usize),
    /// One inserted base.
    InsertBase(Position, u8),
    /// One quality score.
    QualityScore(Position, u8),
    /// A reference skip of this length.
    ReferenceSkip(Position, usize),
    /// Soft-clipped bases.
    SoftClip(Position, Vec<u8>),
    /// Padding of this length.
    Padding(Position, usize),
    /// A hard clip of this length.
    HardClip(Position, usize),
}

impl Feature {
    /// The feature's in-read position.
    pub open spec fn spec_position(&self) -> Position {
        match self {
            Feature::Bases(p, ..) => *p,
            Feature::Scores(p, ..) => *p,
            Feature::ReadBase(p, ..) => *p,
            Feature::Substitution(p, ..) => *p,
            Feature::Insertion(p, ..) => *p,
            Feature::Deletion(p, ..) => *p,
            Feature::InsertBase(p, ..) => *p,
            Feature::QualityScore(p, ..) => *p,
            Feature::ReferenceSkip(p, ..) => *p,
            Feature::SoftClip(p, ..) => *p,
            Feature::Padding(p, ..) => *p,
            Feature::HardClip(p, ..) => *p,
        }
    }

    /// The feature's in-read position.
    pub fn position(&self) -> (p: Position)
        ensures
            p == self.spec_position(),
    {
        match self {
            Feature::Bases(p, ..) => *p,
            Feature::Scores(p, ..) => *p,
            Feature::ReadBase(p, ..) => *p,
            Feature::Substitution(p, ..) => *p,
            Feature::Insertion(p, ..) => *p,
            Feature::Deletion(p, ..) => *p,
            Feature::InsertBase(p, ..) => *p,
            Feature::QualityScore(p, ..) => *p,
            Feature::ReferenceSkip(p, ..) => *p,
            Feature::SoftClip(p, ..) => *p,
            Feature::Padding(p, ..) => *p,
            Feature::HardClip(p, ..) => *p,
        }
    }

    /// The one-byte feature code carried by the FC series.
    pub open spec fn spec_code(&self) -> u8 {
        match self {
            Feature::Bases(..) => 0x62,  // 'b'
            Feature::Scores(..) => 0x71,  // 'q'
            Feature::ReadBase(..) => 0x42,  // 'B'
            Feature::Substitution(..) => 0x58,  // 'X'
            Feature::Insertion(..) => 0x49,  // 'I'
            Feature::Deletion(..) => 0x44,  // 'D'
            Feature::InsertBase(..) => 0x69,  // 'i'
            Feature::QualityScore(..) => 0x51,  // 'Q'
            Feature::ReferenceSkip(..) => 0x4e,  // 'N'
            Feature::SoftClip(..) => 0x53,  // 'S'
            Feature::Padding(..) => 0x50,  // 'P'
            Feature::HardClip(..) => 0x48,  // 'H'
        }
    }

    /// The one-byte feature code carried by the FC series.
    pub fn code(&self) -> (c: u8)
        ensures
            c == self.spec_code(),
    {
        match self {
            Feature::Bases(..) => 0x62,
            Feature::Scores(..) => 0x71,
            Feature::ReadBase(..) => 0x42,
            Feature::Substitution(..) => 0x58,
            Feature::Insertion(..) => 0x49,
            Feature::Deletion(..) => 0x44,
            Feature::InsertBase(..) => 0x69,
            Feature::QualityScore(..) => 0x51,
            Feature::ReferenceSkip(..) => 0x4e,
            Feature::SoftClip(..) => 0x53,
            Feature::Padding(..) => 0x50,
            Feature::HardClip(..) => 0x48,
        }
    }
}

/// A tag key: two ASCII tag bytes and one ASCII SAM type byte.
#[derive(Clone, Copy, Debug, PartialEq, Eq, Structural)]
pub struct TagKey {
    /// First tag byte.
    pub tag0: u8,
    /// Second tag byte.
    pub tag1: u8,
    /// SAM value type byte.
    pub ty: u8,
}

/// The packed 24-bit form of a tag key, as the tag encoding map keys it.
pub open spec fn spec_tag_key_id(k: TagKey) -> i32 {
    ((k.tag0 as u32) << 16 | (k.tag1 as u32) << 8 | (k.ty as u32)) as i32
}

impl TagKey {
    /// Packs the three key bytes into the map's integer key.
    pub fn id(self) -> (id: i32)
        ensures
            id == spec_tag_key_id(self),
    {
        #[verifier::truncate]
        let id: i32 = ((self.tag0 as u32) << 16 | (self.tag1 as u32) << 8 | (self.ty as u32))
            as i32;
        id
    }
}

/// One tag on a record: its key and its already-serialized value bytes.
#[derive(Clone, Debug, PartialEq, Eq)]
pub struct TagField {
    /// The tag key.
    pub key: TagKey,
    /// The value, serialized per its SAM type.
    pub value: Vec<u8>,
}

/// One alignment record, in plain values.
#[derive(Clone, Debug, PartialEq, Eq)]
pub struct Record {
    /// The reference sequence the read aligns to, if any.
    pub reference_sequence_id: Option<usize>,
    /// The read length.
    pub read_length: usize,
    /// The 1-based alignment start, if mapped or placed.
    pub alignment_start: Option<Position>,
    /// The read group, if any.
    pub read_group_id: Option<usize>,
    /// BAM flags.
    pub bam_flags: BamFlags,
    /// CRAM flags.
    pub cram_flags: CramFlags,
    /// Next-mate flags, written when detached.
    pub next_mate_flags: NextMateFlags,
    /// The mate's reference sequence, written when detached.
    pub next_fragment_reference_sequence_id: Option<usize>,
    /// The mate's alignment start, written when detached.
    pub next_mate_alignment_start: Option<Position>,
    /// The template size, written when detached.
    pub template_size: i32,
    /// Records between this one and the next fragment, when the mate is
    /// downstream in the same slice.
    pub distance_to_next_fragment: Option<usize>,
    /// The read name bytes, if kept.
    pub read_name: Option<Vec<u8>>,
    /// The record's tags, in order.
    pub tags: Vec<TagField>,
    /// Per-read features, mapped reads only, in position order.
    pub features: Vec<Feature>,
    /// The mapping quality, if known.
    pub mapping_quality: Option<u8>,
    /// Quality scores, present when the CRAM flags say so.
    pub quality_scores: Vec<u8>,
    /// The read bases, written for unmapped reads.
    pub bases: Vec<u8>,
}

impl Record {
    /// A builder over an all-empty record: zero flags, empty collections,
    /// nothing placed.
    pub fn builder() -> (b: Builder)
        ensures
            b.record.reference_sequence_id is None,
            b.record.read_length == 0,
            b.record.alignment_start is None,
            b.record.read_group_id is None,
            b.record.bam_flags == BamFlags(0),
            b.record.cram_flags == CramFlags(0),
            b.record.next_mate_flags == NextMateFlags(0),
            b.record.next_fragment_reference_sequence_id is None,
            b.record.next_mate_alignment_start is None,
            b.record.template_size == 0,
            b.record.distance_to_next_fragment is None,
            b.record.read_name is None,
            b.record.tags@ == Seq::<TagField>::empty(),
            b.record.features@ == Seq::<Feature>::empty(),
            b.record.mapping_quality is None,
            b.record.quality_scores@ == Seq::<u8>::empty(),
            b.record.bases@ == Seq::<u8>::empty(),
    {
        Builder {
            record: Record {
                reference_sequence_id: None,
                read_length: 0,
                alignment_start: None,
                read_group_id: None,
                bam_flags: BamFlags(0),
                cram_flags: CramFlags(0),
                next_mate_flags: NextMateFlags(0),
                next_fragment_reference_sequence_id: None,
                next_mate_alignment_start: None,
                template_size: 0,
                distance_to_next_fragment: None,
                read_name: None,
                tags: Vec::new(),
                features: Vec::new(),
                mapping_quality: None,
                quality_scores: Vec::new(),
                bases: Vec::new(),
            },
        }
    }
}

/// Assembles a record field by field.
#[derive(Debug)]
pub struct Builder {
    /// The record being assembled.
    pub record: Record,
}

impl Builder {
    /// Sets the BAM flags.
    pub fn set_bam_flags(self, bam_flags: BamFlags) -> (b: Builder)
        ensures
            b.record == (Record { bam_flags, ..self.record }),
    {
        Builder { record: Record { bam_flags, ..self.record } }
    }

    /// Sets the CRAM flags.
    pub fn set_cram_flags(self, cram_flags: CramFlags) -> (b: Builder)
        ensures
            b.record == (Record { cram_flags, ..self.record }),
    {
        Builder { record: Record { cram_flags, ..self.record } }
    }

    /// Sets the reference sequence.
    pub fn set_reference_sequence_id(self, id: usize) -> (b: Builder)
        ensures
            b.record == (Record { reference_sequence_id: Some(id), ..self.record }),
    {
        Builder { record: Record { reference_sequence_id: Some(id), ..self.record } }
    }

    /// Sets the read length.
    pub fn set_read_length(self, read_length: usize) -> (b: Builder)
        ensures
            b.record == (Record { read_length, ..self.record }),
    {
        Builder { record: Record { read_length, ..self.record } }
    }

    /// Sets the alignment start.
    pub fn set_alignment_start(self, alignment_start: Position) -> (b: Builder)
        ensures
            b.record == (Record { alignment_start: Some(alignment_start), ..self.record }),
    {
        Builder { record: Record { alignment_start: Some(alignment_start), ..self.record } }
    }

    /// Sets the read group.
    pub fn set_read_group_id(self, id: usize) -> (b: Builder)
        ensures
            b.record == (Record { read_group_id: Some(id), ..self.record }),
    {
        Builder { record: Record { read_group_id: Some(id), ..self.record } }
    }

    /// Sets the read name.
    pub fn set_read_name(self, read_name: Vec<u8>) -> (b: Builder)
        ensures
            b.record == (Record { read_name: Some(read_name), ..self.record }),
    {
        Builder { record: Record { read_name: Some(read_name), ..self.record } }
    }

    /// Sets the next-mate flags.
    pub fn set_next_mate_flags(self, next_mate_flags: NextMateFlags) -> (b: Builder)
        ensures
            b.record == (Record { next_mate_flags, ..self.record }),
    {
        Builder { record: Record { next_mate_flags, ..self.record } }
    }

    /// Sets the mate's reference sequence.
    pub fn set_next_fragment_reference_sequence_id(self, id: usize) -> (b: Builder)
        ensures
            b.record == (Record { next_fragment_reference_sequence_id: Some(id), ..self.record }),
    {
        Builder {
            record: Record { next_fragment_reference_sequence_id: Some(id), ..self.record },
        }
    }

    /// Sets the mate's alignment start.
    pub fn set_next_mate_alignment_start(self, start: Position) -> (b: Builder)
        ensures
            b.record == (Record { next_mate_alignment_start: Some(start), ..self.record }),
    {
        Builder { record: Record { next_mate_alignment_start: Some(start), ..self.record } }
    }

    /// Sets the template size.
    pub fn set_template_size(self, template_size: i32) -> (b: Builder)
        ensures
            b.record == (Record { template_size, ..self.record }),
    {
        Builder { record: Record { template_size, ..self.record } }
    }

    /// Sets the distance to the next fragment.
    pub fn set_distance_to_next_fragment(self, distance: usize) -> (b: Builder)
        ensures
            b.record == (Record { distance_to_next_fragment: Some(distance), ..self.record }),
    {
        Builder { record: Record { distance_to_next_fragment: Some(distance), ..self.record } }
    }

    /// Appends one tag.
    pub fn add_tag(self, tag: TagField) -> (b: Builder)
        ensures
            b.record.tags@ == self.record.tags@.push(tag),
            b.record == (Record { tags: b.record.tags, ..self.record }),
    {
        let mut record = self.record;
        record.tags.push(tag);
        Builder { record }
    }

    /// Appends one feature.
    pub fn add_feature(self, feature: Feature) -> (b: Builder)
        ensures
            b.record.features@ == self.record.features@.push(feature),
            b.record == (Record { features: b.record.features, ..self.record }),
    {
        let mut record = self.record;
        record.features.push(feature);
        Builder { record }
    }

    /// Sets the mapping quality.
    pub fn set_mapping_quality(self, mapping_quality: u8) -> (b: Builder)
        ensures
            b.record == (Record { mapping_quality: Some(mapping_quality), ..self.record }),
    {
        Builder { record: Record { mapping_quality: Some(mapping_quality), ..self.record } }
    }

    /// Sets the quality scores.
    pub fn set_quality_scores(self, quality_scores: Vec<u8>) -> (b: Builder)
        ensures
            b.record == (Record { quality_scores, ..self.record }),
    {
        Builder { record: Record { quality_scores, ..self.record } }
    }

    /// Sets the read bases.
    pub fn set_bases(self, bases: Vec<u8>) -> (b: Builder)
        ensures
            b.record == (Record { bases, ..self.record }),
    {
        Builder { record: Record { bases, ..self.record } }
    }

    /// Hands the assembled record out.
    pub fn build(self) -> (r: Record)
        ensures
            r == self.record,
    {
        self.record
    }
}

} // verus!
