use bytes::Bytes;

use cram_codec::buf::ReadError;
use cram_codec::preservation_map::{
    get_bool, get_preservation_map, write_preservation_map, PreservationMap, TagIdsDictionary,
};
use cram_codec::record::TagKey;
use cram_codec::substitution_matrix::SubstitutionMatrix;

#[test]
fn test_get_preservation_map() {
    let mut data = Bytes::from_static(&[
        0x18, // data.len = 24
        0x05, // map.len = 5
        0x52, 0x4e, // key = "RN"
        0x00, // map["RN"] = false
        0x41, 0x50, // key = "AP"
        0x00, // map["AP"] = false
        0x52, 0x52, // key = "RR"
        0x00, // map["RR"] = false
        0x53, 0x4d, // key = "SM"
        // [[C, G, T, N], [A, G, T, N], [A, C, T, N], [A, C, G, N], [A, C, G, T]]
        0x1b, 0x1b, 0x1b, 0x1b, 0x1b, // substitution matrix
        0x54, 0x44, // key = "TD"
        0x04, 0x43, 0x4f, 0x5a, 0x00, // tag IDs dictionary = [[CO:Z]]
    ]);

    let actual = get_preservation_map(&mut data).unwrap();

    let expected = PreservationMap::new(
        false,
        false,
        false,
        SubstitutionMatrix::default(),
        TagIdsDictionary::new(vec![vec![TagKey {
            tag0: b'C',
            tag1: b'O',
            ty: b'Z',
        }]]),
    );

    assert_eq!(actual, expected);
}

#[test]
fn test_get_preservation_map_with_no_substitution_matrix() {
    let mut data = Bytes::from_static(&[
        0x08, // data.len = 8
        0x01, // map.len = 1
        0x54, 0x44, // key = "TD"
        0x04, 0x43, 0x4f, 0x5a, 0x00, // tag IDs dictionary = [[CO:Z]]
    ]);

    assert!(get_preservation_map(&mut data).is_err());
}

#[test]
fn test_get_preservation_map_with_no_tag_ids_dictionary() {
    let mut data = Bytes::from_static(&[
        0x08, // data.len = 8
        0x01, // map.len = 1
        0x53, 0x4d, // key = "SM"
        // [[C, G, T, N], [A, G, T, N], [A, C, T, N], [A, C, G, N], [A, C, G, T]]
        0x1b, 0x1b, 0x1b, 0x1b, 0x1b, // substitution matrix
    ]);

    assert!(get_preservation_map(&mut data).is_err());
}

#[test]
fn test_get_bool() {
    let mut reader = Bytes::from_static(&[0x00]);
    assert!(!get_bool(&mut reader).unwrap());

    let mut reader = Bytes::from_static(&[0x01]);
    assert!(get_bool(&mut reader).unwrap());

    let mut reader = Bytes::from_static(&[0x02]);
    assert!(matches!(get_bool(&mut reader), Err(ReadError::InvalidData)));
}

#[test]
fn test_write_preservation_map() {
    let map = PreservationMap::new(
        false,
        false,
        false,
        SubstitutionMatrix::default(),
        TagIdsDictionary::new(vec![vec![TagKey {
            tag0: b'C',
            tag1: b'O',
            ty: b'Z',
        }]]),
    );

    let mut buf = Vec::new();
    write_preservation_map(&mut buf, &map).unwrap();

    let expected = [
        0x18, // data.len = 24
        0x05, // map.len = 5
        0x52, 0x4e, // key = "RN"
        0x00, // false
        0x41, 0x50, // key = "AP"
        0x00, // false
        0x52, 0x52, // key = "RR"
        0x00, // false
        0x53, 0x4d, // key = "SM"
        0x1b, 0x1b, 0x1b, 0x1b, 0x1b, // the identity matrix
        0x54, 0x44, // key = "TD"
        0x04, 0x43, 0x4f, 0x5a, 0x00, // dictionary = [[CO:Z]]
    ];
    assert_eq!(buf, expected);

    // and it reads back to the same value
    let mut data = Bytes::from(buf);
    assert_eq!(get_preservation_map(&mut data).unwrap(), map);
}
