use cram_codec::bits::BitWriter;
use cram_codec::compression_header::{CompressionHeader, ReferenceSequenceId};
use cram_codec::data_series::{DataSeries, DataSeriesEncodingMap};
use cram_codec::external::ExternalDataWriters;
use cram_codec::preservation_map::{PreservationMap, TagIdsDictionary};
use cram_codec::record::{BamFlags, CramFlags, Position, Record};
use cram_codec::substitution_matrix::SubstitutionMatrix;
use cram_codec::tag_encoding_map::TagEncodingMap;
use cram_codec::encoding::Encoding;
use cram_codec::writer::{WriteRecordError, Writer};

fn test_header(ap_data_series_delta: bool) -> CompressionHeader {
    CompressionHeader::new(
        PreservationMap::new(
            true,
            ap_data_series_delta,
            true,
            SubstitutionMatrix::default(),
            TagIdsDictionary::new(vec![vec![]]),
        ),
        DataSeriesEncodingMap::default(),
        TagEncodingMap::new(),
    )
}

fn open_blocks() -> ExternalDataWriters {
    let mut writers = ExternalDataWriters::new();
    for id in 1..=28 {
        writers.add_block(id, Vec::new());
    }
    writers
}

fn block(writers: &ExternalDataWriters, id: i32) -> Vec<u8> {
    for (block_id, data) in &writers.entries {
        if *block_id == id {
            return data.clone();
        }
    }
    panic!("no block {}", id);
}

#[test]
fn test_missing_data_series_encoding() {
    // an empty map cannot even carry the BAM flags
    let header = CompressionHeader::new(
        PreservationMap::new(
            true,
            true,
            true,
            SubstitutionMatrix::default(),
            TagIdsDictionary::new(vec![vec![]]),
        ),
        DataSeriesEncodingMap::new(),
        TagEncodingMap::new(),
    );
    let mut writer = Writer::new(
        &header,
        BitWriter::new(),
        ExternalDataWriters::new(),
        ReferenceSequenceId::Single(0),
        None,
    );
    let record = Record::builder().build();
    assert_eq!(
        writer.write_record(&record),
        Err(WriteRecordError::MissingDataSeriesEncoding(
            DataSeries::BamBitFlags
        ))
    );
}

#[test]
fn test_write_unmapped_record() {
    let header = test_header(true);
    let mut writer = Writer::new(
        &header,
        BitWriter::new(),
        open_blocks(),
        ReferenceSequenceId::Single(0),
        None,
    );

    let record = Record::builder()
        .set_bam_flags(BamFlags(0x4))
        .set_read_length(4)
        .set_read_name(b"r0".to_vec())
        .set_bases(b"ACGT".to_vec())
        .build();

    writer.write_record(&record).unwrap();

    assert_eq!(block(&writer.external_data_writers, 1), vec![0x04]); // BF
    assert_eq!(block(&writer.external_data_writers, 2), vec![0x00]); // CF
    assert_eq!(block(&writer.external_data_writers, 4), vec![0x04]); // RL
    assert_eq!(block(&writer.external_data_writers, 5), vec![0x00]); // AP: both sides unplaced
    assert_eq!(block(&writer.external_data_writers, 6), vec![0xff, 0xff, 0xff, 0xff, 0xff]); // RG: -1
    assert_eq!(block(&writer.external_data_writers, 7), b"r0".to_vec()); // RN
    assert_eq!(block(&writer.external_data_writers, 13), vec![0x00]); // TL: line 0
    assert_eq!(block(&writer.external_data_writers, 27), b"ACGT".to_vec()); // BA
    assert_eq!(block(&writer.external_data_writers, 28), Vec::<u8>::new()); // QS: not stored
}

#[test]
fn test_alignment_start_deltas_prefix_sum_to_the_starts() {
    let header = test_header(true);
    let mut writer = Writer::new(
        &header,
        BitWriter::new(),
        open_blocks(),
        ReferenceSequenceId::Single(0),
        Some(Position(1)),
    );

    for (start, read_length) in [(5usize, 4usize), (8, 4)] {
        let record = Record::builder()
            .set_bam_flags(BamFlags(0x4))
            .set_read_length(read_length)
            .set_alignment_start(Position(start))
            .set_read_name(b"r".to_vec())
            .set_bases(b"ACGT".to_vec())
            .build();
        writer.write_record(&record).unwrap();
    }

    // deltas 5 - 1 = 4 and 8 - 5 = 3; the seed plus their prefix sums
    // recovers 5 and 8
    assert_eq!(block(&writer.external_data_writers, 5), vec![0x04, 0x03]);
}

#[test]
fn test_absolute_alignment_start() {
    let header = test_header(false);
    let mut writer = Writer::new(
        &header,
        BitWriter::new(),
        open_blocks(),
        ReferenceSequenceId::Single(0),
        None,
    );

    let record = Record::builder()
        .set_bam_flags(BamFlags(0x4))
        .set_read_length(4)
        .set_alignment_start(Position(200))
        .set_read_name(b"r".to_vec())
        .set_bases(b"ACGT".to_vec())
        .build();
    writer.write_record(&record).unwrap();

    assert_eq!(block(&writer.external_data_writers, 5), vec![0x80, 0xc8]); // ITF8 of 200
}

#[test]
fn test_ap_delta_asymmetry_is_invalid() {
    let header = test_header(true);
    let mut writer = Writer::new(
        &header,
        BitWriter::new(),
        open_blocks(),
        ReferenceSequenceId::Single(0),
        None,
    );

    // a placed record after an unplaced seed has no delta
    let record = Record::builder()
        .set_bam_flags(BamFlags(0x4))
        .set_read_length(4)
        .set_alignment_start(Position(5))
        .set_read_name(b"r".to_vec())
        .set_bases(b"ACGT".to_vec())
        .build();
    assert_eq!(
        writer.write_record(&record),
        Err(WriteRecordError::InvalidInput)
    );
}

#[test]
fn test_detached_record_writes_mate_fields() {
    let header = test_header(true);
    let mut writer = Writer::new(
        &header,
        BitWriter::new(),
        open_blocks(),
        ReferenceSequenceId::Single(0),
        None,
    );

    let record = Record::builder()
        .set_bam_flags(BamFlags(0x4))
        .set_cram_flags(CramFlags(0x02)) // detached
        .set_read_length(1)
        .set_read_name(b"r".to_vec())
        .set_next_fragment_reference_sequence_id(3)
        .set_next_mate_alignment_start(Position(7))
        .set_template_size(21)
        .set_bases(b"A".to_vec())
        .build();
    writer.write_record(&record).unwrap();

    assert_eq!(block(&writer.external_data_writers, 8), vec![0x00]); // MF
    assert_eq!(block(&writer.external_data_writers, 9), vec![0x03]); // NS
    assert_eq!(block(&writer.external_data_writers, 10), vec![0x07]); // NP
    assert_eq!(block(&writer.external_data_writers, 11), vec![0x15]); // TS
}

#[test]
fn test_missing_external_block() {
    let header = test_header(true);
    let mut writer = Writer::new(
        &header,
        BitWriter::new(),
        ExternalDataWriters::new(),
        ReferenceSequenceId::Single(0),
        None,
    );
    let record = Record::builder().set_read_length(1).set_bases(b"A".to_vec()).build();
    assert_eq!(
        writer.write_record(&record),
        Err(WriteRecordError::MissingExternalBlock(1))
    );
}

#[test]
fn test_core_bit_encodings_land_on_the_core_stream() {
    // route the flag and length series through core-bit encodings
    let mut dsem = DataSeriesEncodingMap::default();
    dsem.bam_bit_flags_encoding = Some(Encoding::Beta(0, 8));
    dsem.cram_bit_flags_encoding = Some(Encoding::Gamma(1));
    dsem.read_lengths_encoding = Some(Encoding::Golomb(0, 3));
    dsem.in_seq_positions_encoding = Some(Encoding::Subexp(0, 2));
    let header = CompressionHeader::new(
        PreservationMap::new(
            true,
            true,
            true,
            SubstitutionMatrix::default(),
            TagIdsDictionary::new(vec![vec![]]),
        ),
        dsem,
        TagEncodingMap::new(),
    );

    let mut writer = Writer::new(
        &header,
        BitWriter::new(),
        open_blocks(),
        ReferenceSequenceId::Single(0),
        None,
    );
    let record = Record::builder()
        .set_bam_flags(BamFlags(0x4))
        .set_read_length(4)
        .set_read_name(b"r".to_vec())
        .set_bases(b"ACGT".to_vec())
        .build();
    writer.write_record(&record).unwrap();

    // BF = 4 in 8 Beta bits:        00000100
    // CF = 0, Gamma of 0 + 1:       1
    // RL = 4, Golomb m = 3:         10 10   (quotient 1 unary, remainder 1 coded 10)
    // AP = 0, Subexp k = 2:         0 00
    // packed MSB-first:             00000100 11010000 0... -> 0x04, 0xd0
    let core = writer.core_data_writer;
    assert_eq!(core.finish(), vec![0x04, 0xd0]);
}

#[test]
fn test_golomb_rice_encoding_bits() {
    let mut dsem = DataSeriesEncodingMap::default();
    dsem.read_lengths_encoding = Some(Encoding::GolombRice(0, 2));
    let header = CompressionHeader::new(
        PreservationMap::new(
            true,
            true,
            true,
            SubstitutionMatrix::default(),
            TagIdsDictionary::new(vec![vec![]]),
        ),
        dsem,
        TagEncodingMap::new(),
    );
    let mut writer = Writer::new(
        &header,
        BitWriter::new(),
        open_blocks(),
        ReferenceSequenceId::Single(0),
        None,
    );
    let record = Record::builder()
        .set_bam_flags(BamFlags(0x4))
        .set_read_length(5)
        .set_read_name(b"r".to_vec())
        .set_bases(b"ACGTA".to_vec())
        .build();
    writer.write_record(&record).unwrap();

    // RL = 5, Rice with m = 4: quotient 1 unary `10`, remainder 1 in two
    // bits `01`; packed: 10010000 -> 0x90
    assert_eq!(writer.core_data_writer.finish(), vec![0x90]);
}

#[test]
fn test_zero_bit_huffman_carries_a_constant() {
    let mut dsem = DataSeriesEncodingMap::default();
    dsem.cram_bit_flags_encoding = Some(Encoding::Huffman(vec![0], vec![0]));
    let header = CompressionHeader::new(
        PreservationMap::new(
            true,
            true,
            true,
            SubstitutionMatrix::default(),
            TagIdsDictionary::new(vec![vec![]]),
        ),
        dsem,
        TagEncodingMap::new(),
    );
    let mut writer = Writer::new(
        &header,
        BitWriter::new(),
        open_blocks(),
        ReferenceSequenceId::Single(0),
        None,
    );
    let record = Record::builder()
        .set_bam_flags(BamFlags(0x4))
        .set_read_length(1)
        .set_read_name(b"r".to_vec())
        .set_bases(b"A".to_vec())
        .build();
    writer.write_record(&record).unwrap();

    // the single zero-length code writes no bits, and block 2 stays empty
    assert_eq!(writer.core_data_writer.bits.len(), 0);
    assert_eq!(block(&writer.external_data_writers, 2), Vec::<u8>::new());
}
