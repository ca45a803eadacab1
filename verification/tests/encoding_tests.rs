use bytes::Bytes;

use cram_codec::encoding::{
    get_encoding, write_beta_encoding, write_byte_array_len_encoding,
    write_byte_array_stop_encoding, write_encoding, write_external_encoding, write_gamma_encoding,
    write_golomb_encoding, write_golomb_rice_encoding, write_huffman_encoding,
    write_null_encoding, write_subexp_encoding, Encoding,
};

#[test]
fn test_write_null_encoding() {
    let mut buf = Vec::new();
    write_null_encoding(&mut buf).unwrap();

    let expected = [
        0, // null encoding ID
    ];

    assert_eq!(buf, expected);
}

#[test]
fn test_write_external_encoding() {
    let mut buf = Vec::new();
    write_external_encoding(&mut buf, 5).unwrap();

    let expected = [
        1, // external encoding ID
        1, // args.len
        5, // block content ID
    ];

    assert_eq!(buf, expected);
}

#[test]
fn test_write_golomb_encoding() {
    let mut buf = Vec::new();
    write_golomb_encoding(&mut buf, 1, 10).unwrap();

    let expected = [
        2,  // Golomb encoding ID
        2,  // args.len
        1,  // offset
        10, // m
    ];

    assert_eq!(buf, expected);
}

#[test]
fn test_write_huffman_encoding() {
    let mut buf = Vec::new();
    write_huffman_encoding(&mut buf, &[65], &[0]).unwrap();

    let expected = [
        3,  // Huffman encoding ID
        4,  // args.len
        1,  // alphabet.len
        65, // 'A'
        1,  // bit_lens.len
        0,  // 0
    ];

    assert_eq!(buf, expected);
}

#[test]
fn test_write_byte_array_len_encoding() {
    let mut buf = Vec::new();

    let len_encoding = Encoding::External(13);
    let value_encoding = Encoding::External(21);

    write_byte_array_len_encoding(&mut buf, &len_encoding, &value_encoding).unwrap();

    let expected = [
        4,  // byte array len encoding ID
        6,  // args.len
        1,  // external encoding ID
        1,  // args.len
        13, // block content ID
        1,  // external encoding ID
        1,  // args.len
        21, // block content ID
    ];

    assert_eq!(buf, expected);
}

#[test]
fn test_write_byte_array_stop_encoding() {
    let mut buf = Vec::new();
    write_byte_array_stop_encoding(&mut buf, 0x00, 8).unwrap();

    let expected = [
        5, // byte array stop encoding ID
        2, // args.len
        0, // NUL
        8, // block content ID
    ];

    assert_eq!(buf, expected);
}

#[test]
fn test_write_beta_encoding() {
    let mut buf = Vec::new();
    write_beta_encoding(&mut buf, 0, 8).unwrap();

    let expected = [
        6, // Beta encoding ID
        2, // args.len
        0, // offset
        8, // len
    ];

    assert_eq!(buf, expected);
}

#[test]
fn test_write_subexp_encoding() {
    let mut buf = Vec::new();
    write_subexp_encoding(&mut buf, 0, 1).unwrap();

    let expected = [
        7, // subexponential encoding ID
        2, // args.len
        0, // offset
        1, // k
    ];

    assert_eq!(buf, expected);
}

#[test]
fn test_write_golomb_rice_encoding() {
    let mut buf = Vec::new();
    write_golomb_rice_encoding(&mut buf, 1, 3).unwrap();

    let expected = [
        8, // Golomb encoding ID
        2, // args.len
        1, // offset
        3, // m
    ];

    assert_eq!(buf, expected);
}

#[test]
fn test_write_gamma_encoding() {
    let mut buf = Vec::new();
    write_gamma_encoding(&mut buf, 1).unwrap();

    let expected = [
        9, // Elias gamma encoding ID
        1, // args.len
        1, // offset
    ];

    assert_eq!(buf, expected);
}

#[test]
fn test_external_encoding_round_trip() {
    // the descriptor [1, 1, 5] denotes External(5), both ways
    let mut data = Bytes::from_static(&[1, 1, 5]);
    let decoded = get_encoding(&mut data).unwrap();
    assert_eq!(decoded, Encoding::External(5));
    assert_eq!(bytes::Buf::remaining(&data), 0);

    let mut buf = Vec::new();
    write_encoding(&mut buf, &decoded).unwrap();
    assert_eq!(buf, [1, 1, 5]);
}

#[test]
fn test_byte_array_len_encoding_round_trip() {
    let encoding = Encoding::ByteArrayLen(
        Box::new(Encoding::External(13)),
        Box::new(Encoding::External(21)),
    );

    let mut buf = Vec::new();
    write_encoding(&mut buf, &encoding).unwrap();
    assert_eq!(buf, [4, 6, 1, 1, 13, 1, 1, 21]);

    let mut data = Bytes::from(buf);
    let decoded = get_encoding(&mut data).unwrap();
    assert_eq!(decoded, encoding);
}

#[test]
fn test_huffman_encoding_round_trip() {
    let encoding = Encoding::Huffman(vec![65, 66, 67], vec![1, 2, 2]);

    let mut buf = Vec::new();
    write_encoding(&mut buf, &encoding).unwrap();

    let mut data = Bytes::from(buf);
    let decoded = get_encoding(&mut data).unwrap();
    assert_eq!(decoded, encoding);
}

#[test]
fn test_get_encoding_rejects_unknown_kind() {
    let mut data = Bytes::from_static(&[10, 1, 0]);
    assert!(get_encoding(&mut data).is_err());
}
