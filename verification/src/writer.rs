//! The per-record writer: marshals one alignment record through the
//! encodings the compression header assigns, into the external block sinks.
//!
//! Every field's effect on the sinks is stated by a spec-level transform;
//! `record_wire` strings the per-field transforms together in the exact
//! write order, so the whole record's wire effect is pinned down.

use vstd::prelude::*;

use crate::bits::{bit_len, bits_of, gamma_bits, golomb_bits, pow2_u64, subexp_bits, BitWriter};
use vstd::arithmetic::power2::pow2;
use crate::compression_header::{CompressionHeader, ReferenceSequenceId};
use crate::data_series::DataSeries;
use crate::encoding::{enc_size, Encoding, EncodingView, MAX_ITF8};
use crate::external::{edw_view, edw_wf, ExternalDataWriters};
use crate::num::{itf8_bytes, write_itf8};
use crate::preservation_map::td_view;
use crate::record::{
    Feature, Position, Record, SubstitutionValue, TagField, TagKey, spec_tag_key_id,
};
use crate::substitution_matrix::{base_idx, row_code};
use crate::tag_encoding_map::{tem_view, TagEncodingMap};

verus! {

/// Why one record could not be written.
#[derive(Clone, Copy, Debug, PartialEq, Eq, Structural)]
pub enum WriteRecordError {
    /// A series this record needs has no encoding in the map.
    MissingDataSeriesEncoding(DataSeries),
    /// A tag the dictionary lists has no encoding in the tag map.
    MissingTagEncoding(TagKey),
    /// An encoding names an external block that was never opened.
    MissingExternalBlock(i32),
    /// A value fell outside its wire domain: an out-of-range conversion,
    /// an AP-delta asymmetry, a tag line missing from the dictionary, an
    /// unordered feature position, or a substitution the matrix cannot
    /// code.
    InvalidInput,
    /// The encoding kind is not one this writer drives.
    UnsupportedEncoding,
}

/// The outcome of marshalling a piece of a record: the external blocks
/// afterwards, or the first error.
pub enum WOut {
    /// All writes landed: the external blocks, then the core bit stream.
    Done(Map<i32, Seq<u8>>, Seq<bool>),
    /// The first failure.
    Fail(WriteRecordError),
}

/// A non-negative value that must ride in ITF8's `i32` domain.
pub open spec fn int_i32(v: int) -> Option<i32> {
    if 0 <= v <= MAX_ITF8 as int {
        Some(v as i32)
    } else {
        None
    }
}

/// One integer value through an encoding: external values ride ITF8 in
/// their block; core-routed values ride their encoding's bit pattern on
/// the core stream; Null drops the value. A value or parameter outside an
/// encoding's domain is invalid; a byte-array encoding cannot carry an
/// integer, and a Huffman table beyond the zero-bit single-symbol code is
/// not driven by this writer.
pub open spec fn apply_itf8(
    enc: EncodingView,
    ext: Map<i32, Seq<u8>>,
    core: Seq<bool>,
    value: i32,
) -> WOut {
    match enc {
        EncodingView::Null => WOut::Done(ext, core),
        EncodingView::External(b) => if ext.dom().contains(b) {
            WOut::Done(ext.insert(b, ext[b] + itf8_bytes(value)), core)
        } else {
            WOut::Fail(WriteRecordError::MissingExternalBlock(b))
        },
        EncodingView::Beta(offset, len) => {
            let v = value + offset;
            if len > 32 || v < 0 || v >= pow2(len as nat) {
                WOut::Fail(WriteRecordError::InvalidInput)
            } else {
                WOut::Done(ext, core + bits_of(v as nat, len as nat))
            }
        },
        EncodingView::Gamma(offset) => {
            let v = value + offset;
            if v < 1 {
                WOut::Fail(WriteRecordError::InvalidInput)
            } else {
                WOut::Done(ext, core + gamma_bits(v as nat))
            }
        },
        EncodingView::Subexp(offset, k) => {
            let v = value + offset;
            if v < 0 || k < 0 || k > 31 {
                WOut::Fail(WriteRecordError::InvalidInput)
            } else {
                WOut::Done(ext, core + subexp_bits(v as nat, k as nat))
            }
        },
        EncodingView::Golomb(offset, m) => {
            let v = value + offset;
            if v < 0 || m <= 0 {
                WOut::Fail(WriteRecordError::InvalidInput)
            } else {
                WOut::Done(ext, core + golomb_bits(v as nat, m as nat))
            }
        },
        EncodingView::GolombRice(offset, log2_m) => {
            let v = value + offset;
            if v < 0 || log2_m < 0 || log2_m > 31 {
                WOut::Fail(WriteRecordError::InvalidInput)
            } else {
                WOut::Done(ext, core + golomb_bits(v as nat, pow2(log2_m as nat)))
            }
        },
        EncodingView::Huffman(alphabet, bit_lens) => if alphabet.len() == 1 && bit_lens.len() == 1
            && bit_lens[0] == 0 {
            if value == alphabet[0] {
                WOut::Done(ext, core)
            } else {
                WOut::Fail(WriteRecordError::InvalidInput)
            }
        } else {
            WOut::Fail(WriteRecordError::UnsupportedEncoding)
        },
        _ => WOut::Fail(WriteRecordError::UnsupportedEncoding),
    }
}

/// One byte through an encoding: external bytes land raw in their block;
/// a core-routed byte rides the integer bit pattern of its value.
pub open spec fn apply_byte(
    enc: EncodingView,
    ext: Map<i32, Seq<u8>>,
    core: Seq<bool>,
    value: u8,
) -> WOut {
    match enc {
        EncodingView::External(b) => if ext.dom().contains(b) {
            WOut::Done(ext.insert(b, ext[b].push(value)), core)
        } else {
            WOut::Fail(WriteRecordError::MissingExternalBlock(b))
        },
        EncodingView::ByteArrayLen(..) => WOut::Fail(WriteRecordError::UnsupportedEncoding),
        EncodingView::ByteArrayStop(..) => WOut::Fail(WriteRecordError::UnsupportedEncoding),
        _ => apply_itf8(enc, ext, core, value as i32),
    }
}

/// One byte array through an encoding. The integer encodings carry single
/// values, not arrays, so only External, ByteArrayLen and ByteArrayStop
/// are byte-array carriers; a ByteArrayLen length may still be core-routed.
pub open spec fn apply_bytes(
    enc: EncodingView,
    ext: Map<i32, Seq<u8>>,
    core: Seq<bool>,
    data: Seq<u8>,
) -> WOut
    decreases enc,
{
    match enc {
        EncodingView::External(b) => if ext.dom().contains(b) {
            WOut::Done(ext.insert(b, ext[b] + data), core)
        } else {
            WOut::Fail(WriteRecordError::MissingExternalBlock(b))
        },
        EncodingView::ByteArrayLen(len_encoding, value_encoding) => if data.len() > MAX_ITF8 {
            WOut::Fail(WriteRecordError::InvalidInput)
        } else {
            match apply_itf8(*len_encoding, ext, core, data.len() as i32) {
                WOut::Done(ext2, core2) => apply_bytes(*value_encoding, ext2, core2, data),
                WOut::Fail(e) => WOut::Fail(e),
            }
        },
        EncodingView::ByteArrayStop(stop_byte, b) => if ext.dom().contains(b) {
            WOut::Done(ext.insert(b, ext[b] + data + seq![stop_byte]), core)
        } else {
            WOut::Fail(WriteRecordError::MissingExternalBlock(b))
        },
        _ => WOut::Fail(WriteRecordError::UnsupportedEncoding),
    }
}

/// An ITF8 value through a series' encoding, after what came before.
pub open spec fn w_itf8(st: WOut, f: Option<Encoding>, d: DataSeries, value: i32) -> WOut {
    match st {
        WOut::Fail(e) => WOut::Fail(e),
        WOut::Done(ext, core) => match f {
            None => WOut::Fail(WriteRecordError::MissingDataSeriesEncoding(d)),
            Some(enc) => apply_itf8(enc@, ext, core, value),
        },
    }
}

/// Like [`w_itf8`], for a value that may not fit.
pub open spec fn w_itf8_v(st: WOut, f: Option<Encoding>, d: DataSeries, value: Option<i32>) -> WOut {
    match st {
        WOut::Fail(e) => WOut::Fail(e),
        WOut::Done(..) => match value {
            None => WOut::Fail(WriteRecordError::InvalidInput),
            Some(v) => w_itf8(st, f, d, v),
        },
    }
}

/// A byte through a series' encoding, after what came before.
pub open spec fn w_byte(st: WOut, f: Option<Encoding>, d: DataSeries, value: u8) -> WOut {
    match st {
        WOut::Fail(e) => WOut::Fail(e),
        WOut::Done(ext, core) => match f {
            None => WOut::Fail(WriteRecordError::MissingDataSeriesEncoding(d)),
            Some(enc) => apply_byte(enc@, ext, core, value),
        },
    }
}

/// A byte array through a series' encoding, after what came before.
pub open spec fn w_bytes(st: WOut, f: Option<Encoding>, d: DataSeries, data: Seq<u8>) -> WOut {
    match st {
        WOut::Fail(e) => WOut::Fail(e),
        WOut::Done(ext, core) => match f {
            None => WOut::Fail(WriteRecordError::MissingDataSeriesEncoding(d)),
            Some(enc) => apply_bytes(enc@, ext, core, data),
        },
    }
}

/// Fails a so-far-successful run.
pub open spec fn w_fail(st: WOut, e: WriteRecordError) -> WOut {
    match st {
        WOut::Fail(first) => WOut::Fail(first),
        WOut::Done(..) => WOut::Fail(e),
    }
}

/// A run of single bytes through one series, in order.
pub open spec fn wire_byte_run(st: WOut, f: Option<Encoding>, d: DataSeries, data: Seq<u8>) -> WOut
    decreases data.len(),
{
    match st {
        WOut::Fail(_) => st,
        WOut::Done(..) => if data.len() == 0 {
            st
        } else {
            wire_byte_run(w_byte(st, f, d, data[0]), f, d, data.skip(1))
        },
    }
}

/// The read-name bytes a record writes: its name, or `*` when absent.
pub open spec fn name_bytes(r: &Record) -> Seq<u8> {
    match r.read_name {
        Some(name) => name@,
        None => seq![0x2au8],
    }
}

/// The reference id written: the id, or -1 when unplaced.
pub open spec fn ref_id_value(id: Option<usize>) -> Option<i32> {
    match id {
        Some(id) => int_i32(id as int),
        None => Some(-1i32),
    }
}

/// The alignment-start value written: a delta from the previous record
/// under AP-delta, else the absolute start (zero when absent). A lone
/// `None` on either side of a delta cannot be written.
pub open spec fn ap_value(delta: bool, prev: Option<Position>, start: Option<Position>) -> Option<
    i32,
> {
    if delta {
        match (start, prev) {
            (Option::None, Option::None) => Some(0),
            (Option::Some(a), Option::Some(p)) => if a.0 <= MAX_ITF8 && p.0 <= MAX_ITF8 {
                Some((a.0 - p.0) as i32)
            } else {
                None
            },
            _ => None,
        }
    } else {
        match start {
            Some(a) => int_i32(a.0 as int),
            None => Some(0),
        }
    }
}

/// The next-mate-start value written: the position, or zero when absent.
pub open spec fn np_value(start: Option<Position>) -> Option<i32> {
    match start {
        Some(p) => int_i32(p.0 as int),
        None => Some(0),
    }
}

/// The mapping-quality value written: the quality, or the 255 sentinel.
pub open spec fn mq_value(q: Option<u8>) -> i32 {
    match q {
        Some(q) => q as i32,
        None => 255,
    }
}

/// The first dictionary line equal to `keys`, from `i` on; -1 when none.
pub open spec fn td_find(lines: Seq<Seq<TagKey>>, keys: Seq<TagKey>, i: int) -> int
    decreases lines.len() - i,
{
    if i < 0 || i >= lines.len() {
        -1
    } else if lines[i] == keys {
        i
    } else {
        td_find(lines, keys, i + 1)
    }
}

/// One tag's value bytes through its tag encoding.
pub open spec fn tag_step(tem: Map<i32, EncodingView>, st: WOut, tag: TagField) -> WOut {
    match st {
        WOut::Fail(e) => WOut::Fail(e),
        WOut::Done(ext, core) => if !tem.dom().contains(spec_tag_key_id(tag.key)) {
            WOut::Fail(WriteRecordError::MissingTagEncoding(tag.key))
        } else {
            apply_bytes(tem[spec_tag_key_id(tag.key)], ext, core, tag.value@)
        },
    }
}

/// The first index at or after `i` whose tag key has no encoding in the
/// map; the tag count when every key is covered.
pub open spec fn first_missing_tag(tem: Map<i32, EncodingView>, tags: Seq<TagField>, i: int) -> int
    decreases tags.len() - i,
{
    if i < 0 || i >= tags.len() {
        tags.len() as int
    } else if !tem.dom().contains(spec_tag_key_id(tags[i].key)) {
        i
    } else {
        first_missing_tag(tem, tags, i + 1)
    }
}

/// Every tag of a record, in order.
pub open spec fn wire_tags(tem: Map<i32, EncodingView>, st: WOut, tags: Seq<TagField>) -> WOut
    decreases tags.len(),
{
    match st {
        WOut::Fail(_) => st,
        WOut::Done(..) => if tags.len() == 0 {
            st
        } else {
            wire_tags(tem, tag_step(tem, st, tags[0]), tags.skip(1))
        },
    }
}

/// `wire_tags` peels one tag off the back.
proof fn lemma_wire_tags_snoc(
    tem: Map<i32, EncodingView>,
    st: WOut,
    tags: Seq<TagField>,
    tag: TagField,
)
    ensures
        wire_tags(tem, st, tags.push(tag)) == tag_step(tem, wire_tags(tem, st, tags), tag),
    decreases tags.len(),
{
    match st {
        WOut::Fail(_) => {
            assert(wire_tags(tem, st, tags.push(tag)) == st);
            assert(wire_tags(tem, st, tags) == st);
            assert(tag_step(tem, st, tag) == st);
        },
        WOut::Done(..) => {
            if tags.len() == 0 {
                assert(tags.push(tag)[0] == tag);
                assert(tags.push(tag).skip(1) =~= Seq::<TagField>::empty());
                assert(wire_tags(tem, st, tags) == st);
                match tag_step(tem, st, tag) {
                    WOut::Done(..) => {
                        assert(wire_tags(tem, tag_step(tem, st, tag), Seq::<TagField>::empty())
                            == tag_step(tem, st, tag));
                    },
                    WOut::Fail(_) => {
                        assert(wire_tags(tem, tag_step(tem, st, tag), Seq::<TagField>::empty())
                            == tag_step(tem, st, tag));
                    },
                }
            } else {
                assert(tags.push(tag)[0] == tags[0]);
                assert(tags.push(tag).skip(1) =~= tags.skip(1).push(tag));
                lemma_wire_tags_snoc(tem, tag_step(tem, st, tags[0]), tags.skip(1), tag);
            }
        },
    }
}

/// One feature: its code, its position delta, then its payload.
pub open spec fn wire_feature(ch: &CompressionHeader, st: WOut, f: Feature, prev_pos: int) -> WOut {
    let dsem = &ch.data_series_encoding_map;
    let st = w_byte(st, dsem.read_features_codes_encoding, DataSeries::ReadFeaturesCodes,
        f.spec_code());
    let st = w_itf8_v(st, dsem.in_read_positions_encoding, DataSeries::InReadPositions,
        int_i32(f.spec_position().0 - prev_pos));
    match f {
        Feature::Bases(_, bases) => w_bytes(st, dsem.stretches_of_bases_encoding,
            DataSeries::StretchesOfBases, bases@),
        Feature::Scores(_, scores) => w_bytes(st, dsem.stretches_of_quality_scores_encoding,
            DataSeries::StretchesOfQualityScores, scores@),
        Feature::ReadBase(_, base, score) => {
            let st = w_byte(st, dsem.bases_encoding, DataSeries::Bases, base);
            w_byte(st, dsem.quality_scores_encoding, DataSeries::QualityScores, score)
        },
        Feature::Substitution(_, value) => match value {
            SubstitutionValue::Bases(reference_base, read_base) => {
                let code = row_code(
                    ch.preservation_map.substitution_matrix.substitutions@,
                    base_idx(reference_base),
                    read_base,
                    0,
                );
                if code >= 4 {
                    w_fail(st, WriteRecordError::InvalidInput)
                } else {
                    w_byte(st, dsem.base_substitution_codes_encoding,
                        DataSeries::BaseSubstitutionCodes, code as u8)
                }
            },
            SubstitutionValue::Code(_) => w_fail(st, WriteRecordError::InvalidInput),
        },
        Feature::Insertion(_, bases) => w_bytes(st, dsem.insertion_encoding,
            DataSeries::Insertion, bases@),
        Feature::Deletion(_, len) => w_itf8_v(st, dsem.deletion_lengths_encoding,
            DataSeries::DeletionLengths, int_i32(len as int)),
        Feature::InsertBase(_, base) => w_byte(st, dsem.bases_encoding, DataSeries::Bases, base),
        Feature::QualityScore(_, score) => w_byte(st, dsem.quality_scores_encoding,
            DataSeries::QualityScores, score),
        Feature::ReferenceSkip(_, len) => w_itf8_v(st, dsem.reference_skip_length_encoding,
            DataSeries::ReferenceSkipLength, int_i32(len as int)),
        Feature::SoftClip(_, bases) => w_bytes(st, dsem.soft_clip_encoding, DataSeries::SoftClip,
            bases@),
        Feature::Padding(_, len) => w_itf8_v(st, dsem.padding_encoding, DataSeries::Padding,
            int_i32(len as int)),
        Feature::HardClip(_, len) => w_itf8_v(st, dsem.hard_clip_encoding, DataSeries::HardClip,
            int_i32(len as int)),
    }
}

/// Every feature of a record, in order, threading the previous in-read
/// position for the delta.
pub open spec fn wire_features(
    ch: &CompressionHeader,
    st: WOut,
    fs: Seq<Feature>,
    prev_pos: int,
) -> WOut
    decreases fs.len(),
{
    match st {
        WOut::Fail(_) => st,
        WOut::Done(..) => if fs.len() == 0 {
            st
        } else {
            wire_features(
                ch,
                wire_feature(ch, st, fs[0], prev_pos),
                fs.skip(1),
                fs[0].spec_position().0 as int,
            )
        },
    }
}

/// The whole wire effect of one record, in write order: flags, positional
/// data, read name, mate data, tags, then the mapped or unmapped body.
pub open spec fn record_wire(
    ch: &CompressionHeader,
    many_references: bool,
    prev: Option<Position>,
    r: &Record,
    ext0: Map<i32, Seq<u8>>,
    core0: Seq<bool>,
) -> WOut {
    let dsem = &ch.data_series_encoding_map;
    let pm = &ch.preservation_map;
    let st = w_itf8(WOut::Done(ext0, core0), dsem.bam_bit_flags_encoding, DataSeries::BamBitFlags,
        r.bam_flags.0 as i32);
    let st = w_itf8(st, dsem.cram_bit_flags_encoding, DataSeries::CramBitFlags,
        r.cram_flags.0 as i32);
    let st = if many_references {
        w_itf8_v(st, dsem.reference_id_encoding, DataSeries::ReferenceId,
            ref_id_value(r.reference_sequence_id))
    } else {
        st
    };
    let st = w_itf8_v(st, dsem.read_lengths_encoding, DataSeries::ReadLengths,
        int_i32(r.read_length as int));
    let st = w_itf8_v(st, dsem.in_seq_positions_encoding, DataSeries::InSeqPositions,
        ap_value(pm.ap_data_series_delta, prev, r.alignment_start));
    let st = w_itf8_v(st, dsem.read_groups_encoding, DataSeries::ReadGroups,
        ref_id_value(r.read_group_id));
    let st = if pm.read_names_included {
        w_bytes(st, dsem.read_names_encoding, DataSeries::ReadNames, name_bytes(r))
    } else {
        st
    };
    let st = if r.cram_flags.spec_is_detached() {
        let st = w_itf8(st, dsem.next_mate_bit_flags_encoding, DataSeries::NextMateBitFlags,
            r.next_mate_flags.0 as i32);
        let st = if !pm.read_names_included {
            w_bytes(st, dsem.read_names_encoding, DataSeries::ReadNames, name_bytes(r))
        } else {
            st
        };
        let st = w_itf8_v(st, dsem.next_fragment_reference_sequence_id_encoding,
            DataSeries::NextFragmentReferenceSequenceId,
            ref_id_value(r.next_fragment_reference_sequence_id));
        let st = w_itf8_v(st, dsem.next_mate_alignment_start_encoding,
            DataSeries::NextMateAlignmentStart, np_value(r.next_mate_alignment_start));
        w_itf8(st, dsem.template_size_encoding, DataSeries::TemplateSize, r.template_size)
    } else {
        match r.distance_to_next_fragment {
            Some(distance) => w_itf8_v(st, dsem.distance_to_next_fragment_encoding,
                DataSeries::DistanceToNextFragment, int_i32(distance as int)),
            None => st,
        }
    };
    let keys = r.tags@.map_values(|t: TagField| t.key);
    let line = td_find(td_view(&pm.tag_ids_dictionary), keys, 0);
    let st = if line < 0 {
        w_fail(st, WriteRecordError::InvalidInput)
    } else {
        w_itf8_v(st, dsem.tag_ids_encoding, DataSeries::TagIds, int_i32(line))
    };
    let st = wire_tags(tem_view(&ch.tag_encoding_map), st, r.tags@);
    if r.bam_flags.spec_is_unmapped() {
        let st = wire_byte_run(st, dsem.bases_encoding, DataSeries::Bases, r.bases@);
        if r.cram_flags.spec_are_quality_scores_stored_as_array() {
            wire_byte_run(st, dsem.quality_scores_encoding, DataSeries::QualityScores,
                r.quality_scores@)
        } else {
            st
        }
    } else {
        let st = w_itf8_v(st, dsem.number_of_read_features_encoding,
            DataSeries::NumberOfReadFeatures, int_i32(r.features@.len() as int));
        let st = wire_features(ch, st, r.features@, 0);
        let st = w_itf8(st, dsem.mapping_qualities_encoding, DataSeries::MappingQualities,
            mq_value(r.mapping_quality));
        if r.cram_flags.spec_are_quality_scores_stored_as_array() {
            wire_byte_run(st, dsem.quality_scores_encoding, DataSeries::QualityScores,
                r.quality_scores@)
        } else {
            st
        }
    }
}

/// Encodes one integer value through an encoding: into its external block
/// as ITF8, or onto the core bit stream in its encoding's bit pattern.
fn encode_itf8(
    encoding: &Encoding,
    external_data_writers: &mut ExternalDataWriters,
    core_data_writer: &mut BitWriter,
    value: i32,
) -> (r: Result<(), WriteRecordError>)
    requires
        edw_wf(&*old(external_data_writers)),
    ensures
        edw_wf(&*final(external_data_writers)),
        match apply_itf8(
            encoding@,
            edw_view(&*old(external_data_writers)),
            old(core_data_writer).bits@,
            value,
        ) {
            WOut::Done(m, c) => r == Ok::<(), WriteRecordError>(()) && edw_view(
                &*final(external_data_writers),
            ) == m && final(core_data_writer).bits@ == c,
            WOut::Fail(e) => r == Err::<(), WriteRecordError>(e) && *final(external_data_writers)
                == *old(external_data_writers) && *final(core_data_writer) == *old(
                core_data_writer,
            ),
        },
{
    match encoding {
        Encoding::Null => Ok(()),
        Encoding::External(block_content_id) => {
            let mut buf: Vec<u8> = Vec::new();
            write_itf8(&mut buf, value);
            if external_data_writers.append_bytes(*block_content_id, buf.as_slice()) {
                Ok(())
            } else {
                Err(WriteRecordError::MissingExternalBlock(*block_content_id))
            }
        },
        Encoding::Beta(offset, len) => {
            let v = (value as i64) + (*offset as i64);
            if *len > 32 || v < 0 {
                return Err(WriteRecordError::InvalidInput);
            }
            let bound = pow2_u64(*len as usize);
            if (v as u64) >= bound {
                return Err(WriteRecordError::InvalidInput);
            }
            core_data_writer.write_bits(v as u32, *len as usize);
            Ok(())
        },
        Encoding::Gamma(offset) => {
            let v = (value as i64) + (*offset as i64);
            if v < 1 {
                return Err(WriteRecordError::InvalidInput);
            }
            proof {
                vstd::arithmetic::power2::lemma2_to64();
            }
            core_data_writer.write_gamma(v as u32);
            Ok(())
        },
        Encoding::Subexp(offset, k) => {
            let v = (value as i64) + (*offset as i64);
            if v < 0 || *k < 0 || *k > 31 {
                return Err(WriteRecordError::InvalidInput);
            }
            proof {
                vstd::arithmetic::power2::lemma2_to64();
            }
            core_data_writer.write_subexp(v as u32, *k as u32);
            Ok(())
        },
        Encoding::Golomb(offset, m) => {
            let v = (value as i64) + (*offset as i64);
            if v < 0 || *m <= 0 {
                return Err(WriteRecordError::InvalidInput);
            }
            proof {
                vstd::arithmetic::power2::lemma2_to64();
            }
            core_data_writer.write_golomb(v as u32, *m as u32);
            Ok(())
        },
        Encoding::GolombRice(offset, log2_m) => {
            let v = (value as i64) + (*offset as i64);
            if v < 0 || *log2_m < 0 || *log2_m > 31 {
                return Err(WriteRecordError::InvalidInput);
            }
            let m = pow2_u64(*log2_m as usize);
            proof {
                vstd::arithmetic::power2::lemma2_to64();
                crate::bits::lemma_pow2_le(*log2_m as nat, 31);
            }
            core_data_writer.write_golomb(v as u32, m as u32);
            Ok(())
        },
        Encoding::Huffman(alphabet, bit_lens) => {
            if alphabet.len() == 1 && bit_lens.len() == 1 && bit_lens[0] == 0 {
                if value == alphabet[0] {
                    Ok(())
                } else {
                    Err(WriteRecordError::InvalidInput)
                }
            } else {
                Err(WriteRecordError::UnsupportedEncoding)
            }
        },
        _ => Err(WriteRecordError::UnsupportedEncoding),
    }
}

/// Encodes one byte through an encoding: raw into its external block, or
/// onto the core bit stream as its value's bit pattern.
fn encode_byte(
    encoding: &Encoding,
    external_data_writers: &mut ExternalDataWriters,
    core_data_writer: &mut BitWriter,
    value: u8,
) -> (r: Result<(), WriteRecordError>)
    requires
        edw_wf(&*old(external_data_writers)),
    ensures
        edw_wf(&*final(external_data_writers)),
        match apply_byte(
            encoding@,
            edw_view(&*old(external_data_writers)),
            old(core_data_writer).bits@,
            value,
        ) {
            WOut::Done(m, c) => r == Ok::<(), WriteRecordError>(()) && edw_view(
                &*final(external_data_writers),
            ) == m && final(core_data_writer).bits@ == c,
            WOut::Fail(e) => r == Err::<(), WriteRecordError>(e) && *final(external_data_writers)
                == *old(external_data_writers) && *final(core_data_writer) == *old(
                core_data_writer,
            ),
        },
{
    match encoding {
        Encoding::External(block_content_id) => {
            if external_data_writers.append_byte(*block_content_id, value) {
                Ok(())
            } else {
                Err(WriteRecordError::MissingExternalBlock(*block_content_id))
            }
        },
        Encoding::ByteArrayLen(..) => Err(WriteRecordError::UnsupportedEncoding),
        Encoding::ByteArrayStop(..) => Err(WriteRecordError::UnsupportedEncoding),
        _ => encode_itf8(encoding, external_data_writers, core_data_writer, value as i32),
    }
}

/// Encodes a byte array through an encoding into the sinks.
fn encode_byte_array(
    encoding: &Encoding,
    external_data_writers: &mut ExternalDataWriters,
    core_data_writer: &mut BitWriter,
    data: &[u8],
) -> (r: Result<(), WriteRecordError>)
    requires
        edw_wf(&*old(external_data_writers)),
    ensures
        edw_wf(&*final(external_data_writers)),
        match apply_bytes(
            encoding@,
            edw_view(&*old(external_data_writers)),
            old(core_data_writer).bits@,
            data@,
        ) {
            WOut::Done(m, c) => r == Ok::<(), WriteRecordError>(()) && edw_view(
                &*final(external_data_writers),
            ) == m && final(core_data_writer).bits@ == c,
            WOut::Fail(e) => r == Err::<(), WriteRecordError>(e),
        },
    decreases enc_size(encoding@),
{
    match encoding {
        Encoding::External(block_content_id) => {
            if external_data_writers.append_bytes(*block_content_id, data) {
                Ok(())
            } else {
                Err(WriteRecordError::MissingExternalBlock(*block_content_id))
            }
        },
        Encoding::ByteArrayLen(len_encoding, value_encoding) => {
            if data.len() > MAX_ITF8 {
                return Err(WriteRecordError::InvalidInput);
            }
            encode_itf8(len_encoding, external_data_writers, core_data_writer, data.len() as i32)?;
            encode_byte_array(value_encoding, external_data_writers, core_data_writer, data)
        },
        Encoding::ByteArrayStop(stop_byte, block_content_id) => {
            let ghost ext0 = edw_view(&*external_data_writers);
            if !external_data_writers.has_block(*block_content_id) {
                return Err(WriteRecordError::MissingExternalBlock(*block_content_id));
            }
            let ok1 = external_data_writers.append_bytes(*block_content_id, data);
            let ok2 = external_data_writers.append_byte(*block_content_id, *stop_byte);
            proof {
                let b = *block_content_id;
                assert((ext0[b] + data@).push(*stop_byte) =~= ext0[b] + data@ + seq![*stop_byte]);
                assert(edw_view(external_data_writers) =~= ext0.insert(
                    b,
                    ext0[b] + data@ + seq![*stop_byte],
                ));
            }
            Ok(())
        },
        _ => Err(WriteRecordError::UnsupportedEncoding),
    }
}

/// A failed run stays failed through a byte run.
proof fn lemma_byte_run_fail(e: WriteRecordError, f: Option<Encoding>, d: DataSeries, data: Seq<u8>)
    ensures
        wire_byte_run(WOut::Fail(e), f, d, data) == WOut::Fail(e),
    decreases data.len(),
{
    if data.len() > 0 {
        lemma_byte_run_fail(e, f, d, data.skip(1));
    }
}

/// A failed run stays failed through the tags.
proof fn lemma_tags_fail(tem: Map<i32, EncodingView>, e: WriteRecordError, tags: Seq<TagField>)
    ensures
        wire_tags(tem, WOut::Fail(e), tags) == WOut::Fail(e),
    decreases tags.len(),
{
    if tags.len() > 0 {
        lemma_tags_fail(tem, e, tags.skip(1));
    }
}

/// A failed run stays failed through the features.
proof fn lemma_features_fail(
    ch: &CompressionHeader,
    e: WriteRecordError,
    fs: Seq<Feature>,
    prev_pos: int,
)
    ensures
        wire_features(ch, WOut::Fail(e), fs, prev_pos) == WOut::Fail(e),
    decreases fs.len(),
{
    if fs.len() > 0 {
        lemma_features_fail(ch, e, fs.skip(1), fs[0].spec_position().0 as int);
    }
}

/// One ITF8 value through one series.
fn write_series_itf8(
    f: &Option<Encoding>,
    d: DataSeries,
    ext: &mut ExternalDataWriters,
    core: &mut BitWriter,
    value: i32,
) -> (r: Result<(), WriteRecordError>)
    requires
        edw_wf(&*old(ext)),
    ensures
        edw_wf(&*final(ext)),
        match w_itf8(WOut::Done(edw_view(&*old(ext)), old(core).bits@), *f, d, value) {
            WOut::Done(m, c) => r == Ok::<(), WriteRecordError>(()) && edw_view(&*final(ext))
                == m && final(core).bits@ == c,
            WOut::Fail(e) => r == Err::<(), WriteRecordError>(e) && *final(ext) == *old(ext)
                && *final(core) == *old(core),
        },
{
    match f {
        None => Err(WriteRecordError::MissingDataSeriesEncoding(d)),
        Some(enc) => encode_itf8(enc, ext, core, value),
    }
}

/// One byte through one series.
fn write_series_byte(
    f: &Option<Encoding>,
    d: DataSeries,
    ext: &mut ExternalDataWriters,
    core: &mut BitWriter,
    value: u8,
) -> (r: Result<(), WriteRecordError>)
    requires
        edw_wf(&*old(ext)),
    ensures
        edw_wf(&*final(ext)),
        match w_byte(WOut::Done(edw_view(&*old(ext)), old(core).bits@), *f, d, value) {
            WOut::Done(m, c) => r == Ok::<(), WriteRecordError>(()) && edw_view(&*final(ext))
                == m && final(core).bits@ == c,
            WOut::Fail(e) => r == Err::<(), WriteRecordError>(e) && *final(ext) == *old(ext)
                && *final(core) == *old(core),
        },
{
    match f {
        None => Err(WriteRecordError::MissingDataSeriesEncoding(d)),
        Some(enc) => encode_byte(enc, ext, core, value),
    }
}

/// One byte array through one series.
fn write_series_bytes(
    f: &Option<Encoding>,
    d: DataSeries,
    ext: &mut ExternalDataWriters,
    core: &mut BitWriter,
    data: &[u8],
) -> (r: Result<(), WriteRecordError>)
    requires
        edw_wf(&*old(ext)),
    ensures
        edw_wf(&*final(ext)),
        match w_bytes(WOut::Done(edw_view(&*old(ext)), old(core).bits@), *f, d, data@) {
            WOut::Done(m, c) => r == Ok::<(), WriteRecordError>(()) && edw_view(&*final(ext))
                == m && final(core).bits@ == c,
            WOut::Fail(e) => r == Err::<(), WriteRecordError>(e),
        },
{
    match f {
        None => Err(WriteRecordError::MissingDataSeriesEncoding(d)),
        Some(enc) => encode_byte_array(enc, ext, core, data),
    }
}

/// A run of single bytes through one series.
#[verifier::loop_isolation(false)]
fn write_byte_run(
    f: &Option<Encoding>,
    d: DataSeries,
    ext: &mut ExternalDataWriters,
    core: &mut BitWriter,
    data: &[u8],
) -> (r: Result<(), WriteRecordError>)
    requires
        edw_wf(&*old(ext)),
    ensures
        edw_wf(&*final(ext)),
        match wire_byte_run(WOut::Done(edw_view(&*old(ext)), old(core).bits@), *f, d, data@) {
            WOut::Done(m, c) => r == Ok::<(), WriteRecordError>(()) && edw_view(&*final(ext))
                == m && final(core).bits@ == c,
            WOut::Fail(e) => r == Err::<(), WriteRecordError>(e),
        },
{
    let ghost v0 = edw_view(&*ext);
    let ghost c0 = core.bits@;
    proof {
        assert(data@.skip(0) =~= data@);
    }
    let mut i: usize = 0;
    while i < data.len()
        invariant
            i <= data@.len(),
            edw_wf(&*ext),
            wire_byte_run(WOut::Done(v0, c0), *f, d, data@) == wire_byte_run(
                WOut::Done(edw_view(&*ext), core.bits@),
                *f,
                d,
                data@.skip(i as int),
            ),
        decreases data@.len() - i,
    {
        let ghost cur = edw_view(&*ext);
        let ghost cur_core = core.bits@;
        let value = data[i];
        proof {
            assert(data@.skip(i as int)[0] == data@[i as int]);
            assert(data@.skip(i as int).skip(1) =~= data@.skip(i + 1 as int));
        }
        match write_series_byte(f, d, ext, core, value) {
            Ok(()) => {},
            Err(e) => {
                proof {
                    lemma_byte_run_fail(e, *f, d, data@.skip(i + 1 as int));
                    assert(wire_byte_run(WOut::Done(cur, cur_core), *f, d, data@.skip(i as int))
                        == WOut::Fail(e));
                }
                return Err(e);
            },
        }
        i = i + 1;
    }
    proof {
        assert(data@.skip(data@.len() as int) =~= Seq::<u8>::empty());
    }
    Ok(())
}

/// The tag-line index and every tag value, in order.
#[verifier::loop_isolation(false)]
#[verifier::rlimit(100)]
fn write_tag_data(
    ch: &CompressionHeader,
    ext: &mut ExternalDataWriters,
    core: &mut BitWriter,
    record: &Record,
) -> (r:
    Result<(), WriteRecordError>)
    requires
        edw_wf(&*old(ext)),
    ensures
        edw_wf(&*final(ext)),
        ({
            let keys = record.tags@.map_values(|t: TagField| t.key);
            let line = td_find(td_view(&ch.preservation_map.tag_ids_dictionary), keys, 0);
            let st = if line < 0 {
                w_fail(WOut::Done(edw_view(&*old(ext)), old(core).bits@), WriteRecordError::InvalidInput)
            } else {
                w_itf8_v(
                    WOut::Done(edw_view(&*old(ext)), old(core).bits@),
                    ch.data_series_encoding_map.tag_ids_encoding,
                    DataSeries::TagIds,
                    int_i32(line),
                )
            };
            &&& match wire_tags(tem_view(&ch.tag_encoding_map), st, record.tags@) {
                WOut::Done(m, c) => r == Ok::<(), WriteRecordError>(()) && edw_view(
                    &*final(ext),
                ) == m && final(core).bits@ == c,
                WOut::Fail(e) => r == Err::<(), WriteRecordError>(e),
            }
            &&& line < 0 ==> *final(ext) == *old(ext) && *final(core) == *old(core)
            &&& (r matches Err(WriteRecordError::MissingTagEncoding(_)) ==> ({
                let fmi = first_missing_tag(tem_view(&ch.tag_encoding_map), record.tags@, 0);
                wire_tags(tem_view(&ch.tag_encoding_map), st, record.tags@.take(fmi)) matches
                    WOut::Done(m, c) && edw_view(&*final(ext)) == m && final(core).bits@ == c
            }))
        }),
{
    let ghost keys_view = record.tags@.map_values(|t: TagField| t.key);
    let ghost td = td_view(&ch.preservation_map.tag_ids_dictionary);

    let mut keys: Vec<TagKey> = Vec::new();
    let mut i: usize = 0;
    while i < record.tags.len()
        invariant
            i <= record.tags@.len(),
            keys@ == keys_view.take(i as int),
        decreases record.tags@.len() - i,
    {
        keys.push(record.tags[i].key);
        proof {
            assert(keys@ =~= keys_view.take(i + 1 as int));
        }
        i = i + 1;
    }
    proof {
        assert(keys_view.take(keys_view.len() as int) =~= keys_view);
    }

    // locate the record's exact tag-key line in the dictionary
    let lines = &ch.preservation_map.tag_ids_dictionary.lines;
    let mut line: usize = 0;
    let mut found = false;
    while line < lines.len()
        invariant
            line <= lines@.len(),
            !found,
            td.len() == lines@.len(),
            forall|q: int| 0 <= q < lines@.len() ==> td[q] == (#[trigger] lines@[q])@,
            td_find(td, keys_view, 0) == td_find(td, keys_view, line as int),
        decreases lines@.len() - line,
    {
        if tag_keys_eq(&lines[line], &keys) {
            found = true;
            break;
        }
        line = line + 1;
    }
    let ghost tl = td_find(td, keys_view, 0);
    if !found {
        proof {
            assert(tl == -1);
            lemma_tags_fail(
                tem_view(&ch.tag_encoding_map),
                WriteRecordError::InvalidInput,
                record.tags@,
            );
        }
        return Err(WriteRecordError::InvalidInput);
    }
    proof {
        assert(tl == line as int);
    }
    if line > MAX_ITF8 {
        proof {
            lemma_tags_fail(
                tem_view(&ch.tag_encoding_map),
                WriteRecordError::InvalidInput,
                record.tags@,
            );
        }
        return Err(WriteRecordError::InvalidInput);
    }
    match write_series_itf8(
        &ch.data_series_encoding_map.tag_ids_encoding,
        DataSeries::TagIds,
        ext,
        core,
        line as i32,
    ) {
        Ok(()) => {},
        Err(e) => {
            proof {
                lemma_tags_fail(tem_view(&ch.tag_encoding_map), e, record.tags@);
            }
            return Err(e);
        },
    }

    write_tag_values(&ch.tag_encoding_map, ext, core, &record.tags)
}

/// A byte-array write can fail only on its own grounds, never for a
/// missing tag encoding.
proof fn lemma_apply_bytes_errors(enc: EncodingView, ext: Map<i32, Seq<u8>>, core: Seq<bool>, data: Seq<u8>)
    ensures
        apply_bytes(enc, ext, core, data) matches WOut::Fail(e) ==> !(e matches
        WriteRecordError::MissingTagEncoding(_)),
    decreases enc,
{
    match enc {
        EncodingView::ByteArrayLen(len_encoding, value_encoding) => {
            if data.len() <= MAX_ITF8 {
                match apply_itf8(*len_encoding, ext, core, data.len() as i32) {
                    WOut::Done(ext2, core2) => {
                        lemma_apply_bytes_errors(*value_encoding, ext2, core2, data);
                    },
                    WOut::Fail(_) => {},
                }
            }
        },
        _ => {},
    }
}

/// One tag's value bytes through its tag encoding.
fn write_one_tag(
    map: &TagEncodingMap,
    ext: &mut ExternalDataWriters,
    core: &mut BitWriter,
    tag: &TagField,
) -> (r: Result<(), WriteRecordError>)
    requires
        edw_wf(&*old(ext)),
    ensures
        edw_wf(&*final(ext)),
        match tag_step(tem_view(map), WOut::Done(edw_view(&*old(ext)), old(core).bits@), *tag) {
            WOut::Done(m, c) => r == Ok::<(), WriteRecordError>(()) && edw_view(&*final(ext))
                == m && final(core).bits@ == c,
            WOut::Fail(e) => r == Err::<(), WriteRecordError>(e),
        },
        (r matches Err(WriteRecordError::MissingTagEncoding(_)) ==> *final(ext) == *old(ext)
            && *final(core) == *old(core)),
{
    let key_id = tag.key.id();
    match map.get(key_id) {
        None => Err(WriteRecordError::MissingTagEncoding(tag.key)),
        Some(enc) => {
            proof {
                lemma_apply_bytes_errors(enc@, edw_view(&*ext), core.bits@, tag.value@);
            }
            encode_byte_array(enc, ext, core, tag.value.as_slice())
        },
    }
}

/// Every tag value of a record, in order, each through its tag encoding.
#[verifier::loop_isolation(false)]
#[verifier::rlimit(100)]
fn write_tag_values(
    map: &TagEncodingMap,
    ext: &mut ExternalDataWriters,
    core: &mut BitWriter,
    tags: &Vec<TagField>,
) -> (r: Result<(), WriteRecordError>)
    requires
        edw_wf(&*old(ext)),
    ensures
        edw_wf(&*final(ext)),
        match wire_tags(
            tem_view(map),
            WOut::Done(edw_view(&*old(ext)), old(core).bits@),
            tags@,
        ) {
            WOut::Done(m, c) => r == Ok::<(), WriteRecordError>(()) && edw_view(&*final(ext))
                == m && final(core).bits@ == c,
            WOut::Fail(e) => r == Err::<(), WriteRecordError>(e),
        },
        (r matches Err(WriteRecordError::MissingTagEncoding(_)) ==> ({
            let fmi = first_missing_tag(tem_view(map), tags@, 0);
            wire_tags(
                tem_view(map),
                WOut::Done(edw_view(&*old(ext)), old(core).bits@),
                tags@.take(fmi),
            ) matches WOut::Done(m, c) && edw_view(&*final(ext)) == m && final(core).bits@ == c
        })),
{
    let ghost tem = tem_view(map);
    let ghost v0 = edw_view(&*ext);
    let ghost c0 = core.bits@;
    proof {
        assert(tags@.skip(0) =~= tags@);
        assert(tags@.take(0) =~= Seq::<TagField>::empty());
    }
    let mut j: usize = 0;
    while j < tags.len()
        invariant
            j <= tags@.len(),
            edw_wf(&*ext),
            wire_tags(tem, WOut::Done(v0, c0), tags@) == wire_tags(
                tem,
                WOut::Done(edw_view(&*ext), core.bits@),
                tags@.skip(j as int),
            ),
            wire_tags(tem, WOut::Done(v0, c0), tags@.take(j as int)) == WOut::Done(
                edw_view(&*ext),
                core.bits@,
            ),
            first_missing_tag(tem, tags@, 0) == first_missing_tag(
                tem,
                tags@,
                j as int,
            ),
        decreases tags@.len() - j,
    {
        let ghost cur = edw_view(&*ext);
        let ghost cur_core = core.bits@;
        let tag = &tags[j];
        proof {
            assert(tags@.skip(j as int)[0] == tags@[j as int]);
            assert(tags@.skip(j as int).skip(1) =~= tags@.skip(j + 1 as int));
            assert(tags@.take(j + 1 as int) =~= tags@.take(j as int).push(tags@[j as int]));
            lemma_wire_tags_snoc(tem, WOut::Done(v0, c0), tags@.take(j as int), tags@[j as int]);
        }
        match write_one_tag(map, ext, core, tag) {
            Ok(()) => {},
            Err(e) => {
                proof {
                    lemma_tags_fail(tem, e, tags@.skip(j + 1 as int));
                    if e matches WriteRecordError::MissingTagEncoding(_) {
                        if tem.dom().contains(spec_tag_key_id(tags@[j as int].key)) {
                            lemma_apply_bytes_errors(
                                tem[spec_tag_key_id(tags@[j as int].key)],
                                cur,
                                cur_core,
                                tags@[j as int].value@,
                            );
                        }
                        assert(first_missing_tag(tem, tags@, j as int) == j as int);
                        assert(first_missing_tag(tem, tags@, 0) == j as int);
                        assert(wire_tags(tem, WOut::Done(v0, c0), tags@.take(j as int))
                            == WOut::Done(cur, cur_core));
                    }
                }
                return Err(e);
            },
        }
        j = j + 1;
    }
    proof {
        assert(tags@.skip(tags@.len() as int) =~= Seq::<TagField>::empty());
    }
    Ok(())
}

/// Element-wise equality of two tag-key lines.
fn tag_keys_eq(a: &Vec<TagKey>, b: &Vec<TagKey>) -> (r: bool)
    ensures
        r == (a@ == b@),
{
    if a.len() != b.len() {
        proof {
            assert(a@ != b@);
        }
        return false;
    }
    let mut i: usize = 0;
    while i < a.len()
        invariant
            i <= a@.len(),
            a@.len() == b@.len(),
            forall|k: int| 0 <= k < i ==> a@[k] == b@[k],
        decreases a@.len() - i,
    {
        if !(a[i].tag0 == b[i].tag0 && a[i].tag1 == b[i].tag1 && a[i].ty == b[i].ty) {
            proof {
                assert(a@[i as int] != b@[i as int]);
            }
            return false;
        }
        i = i + 1;
    }
    proof {
        assert(a@ =~= b@);
    }
    true
}

/// One feature: its code byte, its position delta, then its payload.
#[verifier::rlimit(100)]
fn write_feature(
    ch: &CompressionHeader,
    ext: &mut ExternalDataWriters,
    core: &mut BitWriter,
    feature: &Feature,
    prev_position: usize,
) -> (r: Result<(), WriteRecordError>)
    requires
        edw_wf(&*old(ext)),
        ch.preservation_map.substitution_matrix.substitutions@.len() == 20,
    ensures
        edw_wf(&*final(ext)),
        match wire_feature(ch, WOut::Done(edw_view(&*old(ext)), old(core).bits@), *feature, prev_position as int) {
            WOut::Done(m, c) => r == Ok::<(), WriteRecordError>(()) && edw_view(&*final(ext))
                == m && final(core).bits@ == c,
            WOut::Fail(e) => r == Err::<(), WriteRecordError>(e),
        },
{
    let dsem = &ch.data_series_encoding_map;
    write_series_byte(
        &dsem.read_features_codes_encoding,
        DataSeries::ReadFeaturesCodes,
        ext,
        core,
        feature.code(),
    )?;

    let position = feature.position().0;
    if position < prev_position {
        return Err(WriteRecordError::InvalidInput);
    }
    let delta = position - prev_position;
    if delta > MAX_ITF8 {
        return Err(WriteRecordError::InvalidInput);
    }
    write_series_itf8(
        &dsem.in_read_positions_encoding,
        DataSeries::InReadPositions,
        ext,
        core,
        delta as i32,
    )?;

    match feature {
        Feature::Bases(_, bases) => write_series_bytes(
            &dsem.stretches_of_bases_encoding,
            DataSeries::StretchesOfBases,
            ext,
            core,
            bases.as_slice(),
        ),
        Feature::Scores(_, scores) => write_series_bytes(
            &dsem.stretches_of_quality_scores_encoding,
            DataSeries::StretchesOfQualityScores,
            ext,
            core,
            scores.as_slice(),
        ),
        Feature::ReadBase(_, base, score) => {
            write_series_byte(&dsem.bases_encoding, DataSeries::Bases, ext, core, *base)?;
            write_series_byte(
                &dsem.quality_scores_encoding,
                DataSeries::QualityScores,
                ext,
                core,
                *score,
            )
        },
        Feature::Substitution(_, value) => write_base_substitution_code(ch, ext, core, *value),
        Feature::Insertion(_, bases) => write_series_bytes(
            &dsem.insertion_encoding,
            DataSeries::Insertion,
            ext,
            core,
            bases.as_slice(),
        ),
        Feature::Deletion(_, len) => {
            if *len > MAX_ITF8 {
                return Err(WriteRecordError::InvalidInput);
            }
            write_series_itf8(
                &dsem.deletion_lengths_encoding,
                DataSeries::DeletionLengths,
                ext,
                core,
                *len as i32,
            )
        },
        Feature::InsertBase(_, base) => write_series_byte(
            &dsem.bases_encoding,
            DataSeries::Bases,
            ext,
            core,
            *base,
        ),
        Feature::QualityScore(_, score) => write_series_byte(
            &dsem.quality_scores_encoding,
            DataSeries::QualityScores,
            ext,
            core,
            *score,
        ),
        Feature::ReferenceSkip(_, len) => {
            if *len > MAX_ITF8 {
                return Err(WriteRecordError::InvalidInput);
            }
            write_series_itf8(
                &dsem.reference_skip_length_encoding,
                DataSeries::ReferenceSkipLength,
                ext,
                core,
                *len as i32,
            )
        },
        Feature::SoftClip(_, bases) => write_series_bytes(
            &dsem.soft_clip_encoding,
            DataSeries::SoftClip,
            ext,
            core,
            bases.as_slice(),
        ),
        Feature::Padding(_, len) => {
            if *len > MAX_ITF8 {
                return Err(WriteRecordError::InvalidInput);
            }
            write_series_itf8(&dsem.padding_encoding, DataSeries::Padding, ext, core, *len as i32)
        },
        Feature::HardClip(_, len) => {
            if *len > MAX_ITF8 {
                return Err(WriteRecordError::InvalidInput);
            }
            write_series_itf8(&dsem.hard_clip_encoding, DataSeries::HardClip, ext, core, *len as i32)
        },
    }
}

/// A substitution's matrix code. Only a base pair can be coded on the
/// write side; the pair must differ, or the matrix holds no code for it.
fn write_base_substitution_code(
    ch: &CompressionHeader,
    ext: &mut ExternalDataWriters,
    core: &mut BitWriter,
    value: SubstitutionValue,
) -> (r: Result<(), WriteRecordError>)
    requires
        edw_wf(&*old(ext)),
        ch.preservation_map.substitution_matrix.substitutions@.len() == 20,
    ensures
        edw_wf(&*final(ext)),
        ({
            let st = WOut::Done(edw_view(&*old(ext)), old(core).bits@);
            let out = match value {
                SubstitutionValue::Bases(reference_base, read_base) => {
                    let code = row_code(
                        ch.preservation_map.substitution_matrix.substitutions@,
                        base_idx(reference_base),
                        read_base,
                        0,
                    );
                    if code >= 4 {
                        w_fail(st, WriteRecordError::InvalidInput)
                    } else {
                        w_byte(
                            st,
                            ch.data_series_encoding_map.base_substitution_codes_encoding,
                            DataSeries::BaseSubstitutionCodes,
                            code as u8,
                        )
                    }
                },
                SubstitutionValue::Code(_) => w_fail(st, WriteRecordError::InvalidInput),
            };
            match out {
                WOut::Done(m, c) => r == Ok::<(), WriteRecordError>(()) && edw_view(
                    &*final(ext),
                ) == m && final(core).bits@ == c,
                WOut::Fail(e) => r == Err::<(), WriteRecordError>(e),
            }
        }),
{
    match value {
        SubstitutionValue::Bases(reference_base, read_base) => {
            let matrix = &ch.preservation_map.substitution_matrix;
            let code = matrix.code_in_row(reference_base.index(), read_base, 0);
            if code >= 4 {
                return Err(WriteRecordError::InvalidInput);
            }
            write_series_byte(
                &ch.data_series_encoding_map.base_substitution_codes_encoding,
                DataSeries::BaseSubstitutionCodes,
                ext,
                core,
                code as u8,
            )
        },
        SubstitutionValue::Code(_) => Err(WriteRecordError::InvalidInput),
    }
}


/// Writes the alignment-start series: a delta from the previous record
/// under AP-delta, else the absolute position.
fn write_alignment_start(
    ch: &CompressionHeader,
    ext: &mut ExternalDataWriters,
    core: &mut BitWriter,
    prev_alignment_start: Option<Position>,
    alignment_start: Option<Position>,
) -> (r: Result<(), WriteRecordError>)
    requires
        edw_wf(&*old(ext)),
    ensures
        edw_wf(&*final(ext)),
        match w_itf8_v(
            WOut::Done(edw_view(&*old(ext)), old(core).bits@),
            ch.data_series_encoding_map.in_seq_positions_encoding,
            DataSeries::InSeqPositions,
            ap_value(
                ch.preservation_map.ap_data_series_delta,
                prev_alignment_start,
                alignment_start,
            ),
        ) {
            WOut::Done(m, c) => r == Ok::<(), WriteRecordError>(()) && edw_view(&*final(ext))
                == m && final(core).bits@ == c,
            WOut::Fail(e) => r == Err::<(), WriteRecordError>(e) && *final(ext) == *old(ext)
                && *final(core) == *old(core),
        },
{
    let value: i32 = if ch.preservation_map.ap_data_series_delta {
        match (alignment_start, prev_alignment_start) {
            (Option::None, Option::None) => 0,
            (Option::Some(a), Option::Some(p)) => {
                if a.0 > MAX_ITF8 || p.0 > MAX_ITF8 {
                    return Err(WriteRecordError::InvalidInput);
                }
                (a.0 as i32) - (p.0 as i32)
            },
            _ => {
                return Err(WriteRecordError::InvalidInput);
            },
        }
    } else {
        match alignment_start {
            Some(a) => {
                if a.0 > MAX_ITF8 {
                    return Err(WriteRecordError::InvalidInput);
                }
                a.0 as i32
            },
            None => 0,
        }
    };
    write_series_itf8(
        &ch.data_series_encoding_map.in_seq_positions_encoding,
        DataSeries::InSeqPositions,
        ext,
        core,
        value,
    )
}

/// Writes an optional id series: the id, or -1 when absent.
fn write_opt_id(
    f: &Option<Encoding>,
    d: DataSeries,
    ext: &mut ExternalDataWriters,
    core: &mut BitWriter,
    id: Option<usize>,
) -> (r: Result<(), WriteRecordError>)
    requires
        edw_wf(&*old(ext)),
    ensures
        edw_wf(&*final(ext)),
        match w_itf8_v(WOut::Done(edw_view(&*old(ext)), old(core).bits@), *f, d, ref_id_value(id)) {
            WOut::Done(m, c) => r == Ok::<(), WriteRecordError>(()) && edw_view(&*final(ext))
                == m && final(core).bits@ == c,
            WOut::Fail(e) => r == Err::<(), WriteRecordError>(e) && *final(ext) == *old(ext)
                && *final(core) == *old(core),
        },
{
    let value: i32 = match id {
        Some(id) => {
            if id > MAX_ITF8 {
                return Err(WriteRecordError::InvalidInput);
            }
            id as i32
        },
        None => -1,
    };
    write_series_itf8(f, d, ext, core, value)
}

/// Writes the read name, or the `*` placeholder.
fn write_read_name(
    ch: &CompressionHeader,
    ext: &mut ExternalDataWriters,
    core: &mut BitWriter,
    record: &Record,
) -> (r: Result<(), WriteRecordError>)
    requires
        edw_wf(&*old(ext)),
    ensures
        edw_wf(&*final(ext)),
        match w_bytes(
            WOut::Done(edw_view(&*old(ext)), old(core).bits@),
            ch.data_series_encoding_map.read_names_encoding,
            DataSeries::ReadNames,
            name_bytes(record),
        ) {
            WOut::Done(m, c) => r == Ok::<(), WriteRecordError>(()) && edw_view(&*final(ext))
                == m && final(core).bits@ == c,
            WOut::Fail(e) => r == Err::<(), WriteRecordError>(e),
        },
{
    match &record.read_name {
        Some(name) => write_series_bytes(
            &ch.data_series_encoding_map.read_names_encoding,
            DataSeries::ReadNames,
            ext,
            core,
            name.as_slice(),
        ),
        None => {
            let missing: Vec<u8> = vec![0x2a];
            proof {
                assert(missing@ =~= name_bytes(record));
            }
            write_series_bytes(
                &ch.data_series_encoding_map.read_names_encoding,
                DataSeries::ReadNames,
                ext,
                core,
                missing.as_slice(),
            )
        },
    }
}

/// Writes the mate block: the full mate fields when detached, or the
/// distance to the next fragment when the mate is downstream.
fn write_mate_data(
    ch: &CompressionHeader,
    ext: &mut ExternalDataWriters,
    core: &mut BitWriter,
    record: &Record,
) -> (r: Result<(), WriteRecordError>)
    requires
        edw_wf(&*old(ext)),
    ensures
        edw_wf(&*final(ext)),
        ({
            let dsem = &ch.data_series_encoding_map;
            let st0 = WOut::Done(edw_view(&*old(ext)), old(core).bits@);
            let out = if record.cram_flags.spec_is_detached() {
                let st = w_itf8(st0, dsem.next_mate_bit_flags_encoding,
                    DataSeries::NextMateBitFlags, record.next_mate_flags.0 as i32);
                let st = if !ch.preservation_map.read_names_included {
                    w_bytes(st, dsem.read_names_encoding, DataSeries::ReadNames,
                        name_bytes(record))
                } else {
                    st
                };
                let st = w_itf8_v(st, dsem.next_fragment_reference_sequence_id_encoding,
                    DataSeries::NextFragmentReferenceSequenceId,
                    ref_id_value(record.next_fragment_reference_sequence_id));
                let st = w_itf8_v(st, dsem.next_mate_alignment_start_encoding,
                    DataSeries::NextMateAlignmentStart,
                    np_value(record.next_mate_alignment_start));
                w_itf8(st, dsem.template_size_encoding, DataSeries::TemplateSize,
                    record.template_size)
            } else {
                match record.distance_to_next_fragment {
                    Some(distance) => w_itf8_v(st0, dsem.distance_to_next_fragment_encoding,
                        DataSeries::DistanceToNextFragment, int_i32(distance as int)),
                    None => st0,
                }
            };
            match out {
                WOut::Done(m, c) => r == Ok::<(), WriteRecordError>(()) && edw_view(
                    &*final(ext),
                ) == m && final(core).bits@ == c,
                WOut::Fail(e) => r == Err::<(), WriteRecordError>(e),
            }
        }),
{
    let dsem = &ch.data_series_encoding_map;
    if record.cram_flags.is_detached() {
        write_series_itf8(
            &dsem.next_mate_bit_flags_encoding,
            DataSeries::NextMateBitFlags,
            ext,
            core,
            record.next_mate_flags.0 as i32,
        )?;
        if !ch.preservation_map.read_names_included {
            write_read_name(ch, ext, core, record)?;
        }
        write_opt_id(
            &dsem.next_fragment_reference_sequence_id_encoding,
            DataSeries::NextFragmentReferenceSequenceId,
            ext,
            core,
            record.next_fragment_reference_sequence_id,
        )?;
        let np: i32 = match record.next_mate_alignment_start {
            Some(p) => {
                if p.0 > MAX_ITF8 {
                    return Err(WriteRecordError::InvalidInput);
                }
                p.0 as i32
            },
            None => 0,
        };
        write_series_itf8(
            &dsem.next_mate_alignment_start_encoding,
            DataSeries::NextMateAlignmentStart,
            ext,
            core,
            np,
        )?;
        write_series_itf8(
            &dsem.template_size_encoding,
            DataSeries::TemplateSize,
            ext,
            core,
            record.template_size,
        )
    } else {
        match record.distance_to_next_fragment {
            Some(distance) => {
                if distance > MAX_ITF8 {
                    return Err(WriteRecordError::InvalidInput);
                }
                write_series_itf8(
                    &dsem.distance_to_next_fragment_encoding,
                    DataSeries::DistanceToNextFragment,
                    ext,
                    core,
                    distance as i32,
                )
            },
            None => Ok(()),
        }
    }
}

/// Writes the mapped-read body: the feature count, every feature, the
/// mapping quality, and the per-base scores when stored.
#[verifier::loop_isolation(false)]
#[verifier::rlimit(100)]
fn write_mapped_read(
    ch: &CompressionHeader,
    ext: &mut ExternalDataWriters,
    core: &mut BitWriter,
    record: &Record,
) -> (r: Result<(), WriteRecordError>)
    requires
        edw_wf(&*old(ext)),
        ch.preservation_map.substitution_matrix.substitutions@.len() == 20,
    ensures
        edw_wf(&*final(ext)),
        ({
            let dsem = &ch.data_series_encoding_map;
            let st = w_itf8_v(WOut::Done(edw_view(&*old(ext)), old(core).bits@),
                dsem.number_of_read_features_encoding, DataSeries::NumberOfReadFeatures,
                int_i32(record.features@.len() as int));
            let st = wire_features(ch, st, record.features@, 0);
            let st = w_itf8(st, dsem.mapping_qualities_encoding, DataSeries::MappingQualities,
                mq_value(record.mapping_quality));
            let out = if record.cram_flags.spec_are_quality_scores_stored_as_array() {
                wire_byte_run(st, dsem.quality_scores_encoding, DataSeries::QualityScores,
                    record.quality_scores@)
            } else {
                st
            };
            match out {
                WOut::Done(m, c) => r == Ok::<(), WriteRecordError>(()) && edw_view(
                    &*final(ext),
                ) == m && final(core).bits@ == c,
                WOut::Fail(e) => r == Err::<(), WriteRecordError>(e),
            }
        }),
{
    let dsem = &ch.data_series_encoding_map;
    let feature_count = record.features.len();
    if feature_count > MAX_ITF8 {
        proof {
            lemma_features_fail(ch, WriteRecordError::InvalidInput, record.features@, 0);
        }
        return Err(WriteRecordError::InvalidInput);
    }
    match write_series_itf8(
        &dsem.number_of_read_features_encoding,
        DataSeries::NumberOfReadFeatures,
        ext,
        core,
        feature_count as i32,
    ) {
        Ok(()) => {},
        Err(e) => {
            proof {
                lemma_features_fail(ch, e, record.features@, 0);
            }
            return Err(e);
        },
    }

    let ghost v0 = edw_view(&*ext);
    let ghost c0 = core.bits@;
    proof {
        assert(record.features@.skip(0) =~= record.features@);
    }
    let mut prev_position: usize = 0;
    let mut i: usize = 0;
    while i < record.features.len()
        invariant
            i <= record.features@.len(),
            edw_wf(&*ext),
            wire_features(ch, WOut::Done(v0, c0), record.features@, 0) == wire_features(
                ch,
                WOut::Done(edw_view(&*ext), core.bits@),
                record.features@.skip(i as int),
                prev_position as int,
            ),
        decreases record.features@.len() - i,
    {
        let feature = &record.features[i];
        proof {
            assert(record.features@.skip(i as int)[0] == record.features@[i as int]);
            assert(record.features@.skip(i as int).skip(1) =~= record.features@.skip(
                i + 1 as int,
            ));
        }
        match write_feature(ch, ext, core, feature, prev_position) {
            Ok(()) => {},
            Err(e) => {
                proof {
                    lemma_features_fail(
                        ch,
                        e,
                        record.features@.skip(i + 1 as int),
                        record.features@[i as int].spec_position().0 as int,
                    );
                }
                return Err(e);
            },
        }
        prev_position = feature.position().0;
        i = i + 1;
    }
    proof {
        assert(record.features@.skip(record.features@.len() as int) =~= Seq::<Feature>::empty());
    }

    let mq: i32 = match record.mapping_quality {
        Some(q) => q as i32,
        None => 255,
    };
    write_series_itf8(
        &dsem.mapping_qualities_encoding,
        DataSeries::MappingQualities,
        ext,
        core,
        mq,
    )?;

    if record.cram_flags.are_quality_scores_stored_as_array() {
        write_byte_run(
            &dsem.quality_scores_encoding,
            DataSeries::QualityScores,
            ext,
            core,
            record.quality_scores.as_slice(),
        )?;
    }
    Ok(())
}

/// Writes the unmapped-read body: every base, and the per-base scores when
/// stored.
fn write_unmapped_read(
    ch: &CompressionHeader,
    ext: &mut ExternalDataWriters,
    core: &mut BitWriter,
    record: &Record,
) -> (r: Result<(), WriteRecordError>)
    requires
        edw_wf(&*old(ext)),
    ensures
        edw_wf(&*final(ext)),
        ({
            let dsem = &ch.data_series_encoding_map;
            let st = wire_byte_run(WOut::Done(edw_view(&*old(ext)), old(core).bits@), dsem.bases_encoding,
                DataSeries::Bases, record.bases@);
            let out = if record.cram_flags.spec_are_quality_scores_stored_as_array() {
                wire_byte_run(st, dsem.quality_scores_encoding, DataSeries::QualityScores,
                    record.quality_scores@)
            } else {
                st
            };
            match out {
                WOut::Done(m, c) => r == Ok::<(), WriteRecordError>(()) && edw_view(
                    &*final(ext),
                ) == m && final(core).bits@ == c,
                WOut::Fail(e) => r == Err::<(), WriteRecordError>(e),
            }
        }),
{
    let dsem = &ch.data_series_encoding_map;
    let ghost st = wire_byte_run(
        WOut::Done(edw_view(&*ext), core.bits@),
        dsem.bases_encoding,
        DataSeries::Bases,
        record.bases@,
    );
    match write_byte_run(
        &dsem.bases_encoding,
        DataSeries::Bases,
        ext,
        core,
        record.bases.as_slice(),
    ) {
        Ok(()) => {},
        Err(e) => {
            proof {
                if record.cram_flags.spec_are_quality_scores_stored_as_array() {
                    lemma_byte_run_fail(
                        e,
                        dsem.quality_scores_encoding,
                        DataSeries::QualityScores,
                        record.quality_scores@,
                    );
                }
            }
            return Err(e);
        },
    }
    if record.cram_flags.are_quality_scores_stored_as_array() {
        write_byte_run(
            &dsem.quality_scores_encoding,
            DataSeries::QualityScores,
            ext,
            core,
            record.quality_scores.as_slice(),
        )?;
    }
    Ok(())
}

/// The per-record writer for one slice: the compression header it codes
/// against, the core bit stream, the external block sinks, the slice's
/// reference context, and the previous alignment start that seeds the AP
/// delta.
#[derive(Debug)]
pub struct Writer<'a> {
    /// The compression header records are coded against.
    pub compression_header: &'a CompressionHeader,
    /// The core bit stream; only core-routed encodings touch it.
    pub core_data_writer: BitWriter,
    /// The external block sinks.
    pub external_data_writers: ExternalDataWriters,
    /// The slice's reference context.
    pub reference_sequence_id: ReferenceSequenceId,
    /// The previous record's alignment start.
    pub prev_alignment_start: Option<Position>,
}

impl<'a> Writer<'a> {
    /// A writer over fresh sinks.
    pub fn new(
        compression_header: &'a CompressionHeader,
        core_data_writer: BitWriter,
        external_data_writers: ExternalDataWriters,
        reference_sequence_id: ReferenceSequenceId,
        initial_alignment_start: Option<Position>,
    ) -> (w: Writer<'a>)
        ensures
            w.compression_header == compression_header,
            w.core_data_writer == core_data_writer,
            w.external_data_writers == external_data_writers,
            w.reference_sequence_id == reference_sequence_id,
            w.prev_alignment_start == initial_alignment_start,
    {
        Writer {
            compression_header,
            core_data_writer,
            external_data_writers,
            reference_sequence_id,
            prev_alignment_start: initial_alignment_start,
        }
    }

    /// Marshals one record through the header's encodings into the sinks,
    /// and seeds the next record's AP delta. On an error the record is
    /// abandoned: the sinks may hold a partial prefix and the slice is
    /// invalid.
    #[verifier::rlimit(100)]
    pub fn write_record(&mut self, record: &Record) -> (r: Result<(), WriteRecordError>)
        requires
            edw_wf(&old(self).external_data_writers),
            old(self).compression_header.preservation_map.substitution_matrix.substitutions@.len()
                == 20,
        ensures
            edw_wf(&final(self).external_data_writers),
            final(self).compression_header == old(self).compression_header,
            final(self).reference_sequence_id == old(self).reference_sequence_id,
            match record_wire(
                old(self).compression_header,
                (old(self).reference_sequence_id is Many),
                old(self).prev_alignment_start,
                record,
                edw_view(&old(self).external_data_writers),
                old(self).core_data_writer.bits@,
            ) {
                WOut::Done(m, c) => r == Ok::<(), WriteRecordError>(()) && edw_view(
                    &final(self).external_data_writers,
                ) == m && final(self).core_data_writer.bits@ == c
                    && final(self).prev_alignment_start == record.alignment_start,
                WOut::Fail(e) => r == Err::<(), WriteRecordError>(e)
                    && final(self).prev_alignment_start == old(self).prev_alignment_start,
            },
    {
        let ch = self.compression_header;
        let ext = &mut self.external_data_writers;
        let core = &mut self.core_data_writer;
        let dsem = &ch.data_series_encoding_map;

        write_series_itf8(
            &dsem.bam_bit_flags_encoding,
            DataSeries::BamBitFlags,
            ext,
            core,
            record.bam_flags.0 as i32,
        )?;
        write_series_itf8(
            &dsem.cram_bit_flags_encoding,
            DataSeries::CramBitFlags,
            ext,
            core,
            record.cram_flags.0 as i32,
        )?;

        if self.reference_sequence_id.is_many() {
            write_opt_id(
                &dsem.reference_id_encoding,
                DataSeries::ReferenceId,
                ext,
                core,
                record.reference_sequence_id,
            )?;
        }
        if record.read_length > MAX_ITF8 {
            return Err(WriteRecordError::InvalidInput);
        }
        write_series_itf8(
            &dsem.read_lengths_encoding,
            DataSeries::ReadLengths,
            ext,
            core,
            record.read_length as i32,
        )?;
        write_alignment_start(ch, ext, core, self.prev_alignment_start, record.alignment_start)?;
        write_opt_id(
            &dsem.read_groups_encoding,
            DataSeries::ReadGroups,
            ext,
            core,
            record.read_group_id,
        )?;

        if ch.preservation_map.read_names_included {
            write_read_name(ch, ext, core, record)?;
        }

        write_mate_data(ch, ext, core, record)?;
        write_tag_data(ch, ext, core, record)?;

        if record.bam_flags.is_unmapped() {
            write_unmapped_read(ch, ext, core, record)?;
        } else {
            write_mapped_read(ch, ext, core, record)?;
        }

        self.prev_alignment_start = record.alignment_start;

        Ok(())
    }
}


/// The AP value the writer emits for record `j` of a run of placed
/// records: the delta from the record before it (the seed for the first).
pub open spec fn ap_delta_at(starts: Seq<Position>, seed: Position, j: int) -> Option<i32> {
    let prev = if j == 0 {
        seed
    } else {
        starts[j - 1]
    };
    ap_value(true, Some(prev), Some(starts[j]))
}

/// The sum of the emitted AP deltas for records `0..=i`.
pub open spec fn ap_delta_sum(starts: Seq<Position>, seed: Position, i: int) -> int
    decreases i + 1,
{
    if i < 0 {
        0
    } else {
        ap_delta_sum(starts, seed, i - 1) + match ap_delta_at(starts, seed, i) {
            Some(d) => d as int,
            None => 0,
        }
    }
}

/// With AP-delta on, alignment starts are recovered by prefix-summing the
/// emitted AP values onto the seed: for every record of a placed run, the
/// seed plus the deltas up to and including it is exactly its absolute
/// alignment start. With AP-delta off the emitted value is the absolute
/// start itself, which is what `ap_value` states directly.
pub proof fn lemma_ap_delta_prefix_sum(starts: Seq<Position>, seed: Position, i: int)
    requires
        0 <= i < starts.len(),
        seed.0 <= MAX_ITF8,
        forall|j: int| 0 <= j < starts.len() ==> (#[trigger] starts[j]).0 <= MAX_ITF8,
    ensures
        ap_delta_at(starts, seed, i) is Some,
        seed.0 + ap_delta_sum(starts, seed, i) == starts[i].0,
    decreases i,
{
    assert(ap_delta_sum(starts, seed, -1) == 0);
    if i > 0 {
        lemma_ap_delta_prefix_sum(starts, seed, i - 1);
    }
}

} // verus!
