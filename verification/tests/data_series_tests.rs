use bytes::Bytes;

use cram_codec::data_series::{
    get_data_series_encoding_map, write_data_series_encoding_map, DataSeries,
    DataSeriesEncodingMap,
};
use cram_codec::encoding::Encoding;

#[test]
fn test_get_data_series_encoding_map() {
    let expected = DataSeriesEncodingMap::default();

    let mut buf = Vec::new();
    write_data_series_encoding_map(&mut buf, &expected).unwrap();
    let mut data = Bytes::from(buf);

    let actual = get_data_series_encoding_map(&mut data).unwrap();

    assert_eq!(actual, expected);
    assert_eq!(bytes::Buf::remaining(&data), 0);
}

#[test]
fn test_reserved_keys_are_read_and_discarded() {
    // one entry under the reserved key "TC": the map stays empty
    let mut data = Bytes::from_static(&[
        0x04, // data.len = 4
        0x01, // map.len = 1
        0x54, 0x43, // key = "TC"
        0x00, // null encoding
    ]);
    let map = get_data_series_encoding_map(&mut data).unwrap();
    assert_eq!(map, DataSeriesEncodingMap::new());
}

#[test]
fn test_unknown_key_is_invalid() {
    let mut data = Bytes::from_static(&[
        0x04, // data.len = 4
        0x01, // map.len = 1
        0x5a, 0x5a, // key = "ZZ"
        0x00, // null encoding
    ]);
    assert!(get_data_series_encoding_map(&mut data).is_err());
}

#[test]
fn test_default_map_is_external_in_key_order() {
    let map = DataSeriesEncodingMap::default();
    assert_eq!(map.bam_bit_flags_encoding, Some(Encoding::External(1)));
    assert_eq!(map.cram_bit_flags_encoding, Some(Encoding::External(2)));
    assert_eq!(map.quality_scores_encoding, Some(Encoding::External(28)));
}

#[test]
fn test_data_series_key_round_trip() {
    let (b0, b1) = DataSeries::BamBitFlags.key();
    assert_eq!((b0, b1), (b'B', b'F'));
    assert_eq!(DataSeries::from_key(b'B', b'F'), Some(DataSeries::BamBitFlags));
    assert_eq!(DataSeries::from_key(b'Z', b'Z'), None);
}
