use bytes::Bytes;

use cram_codec::buf::{get_itf8, get_ltf8};
use cram_codec::num::{write_itf8, write_ltf8};

#[test]
fn test_write_itf8() {
    let cases: [(i32, &[u8]); 5] = [
        (0, &[0x00]),
        (1877, &[0x87, 0x55]),
        (480665, &[0xc7, 0x55, 0x99]),
        (123050095, &[0xe7, 0x55, 0x98, 0x6f]),
        (-1, &[0xff, 0xff, 0xff, 0xff, 0xff]),
    ];
    for (value, expected) in cases {
        let mut buf = Vec::new();
        write_itf8(&mut buf, value);
        assert_eq!(buf.as_slice(), expected, "value {}", value);
    }
}

#[test]
fn test_itf8_round_trip() {
    let values: [i32; 9] = [
        0,
        1,
        127,
        128,
        16383,
        16384,
        i32::MAX,
        -1,
        i32::MIN,
    ];
    for value in values {
        let mut buf = Vec::new();
        write_itf8(&mut buf, value);
        let mut data = Bytes::from(buf);
        let decoded = get_itf8(&mut data).unwrap();
        assert_eq!(decoded, value);
        assert_eq!(bytes::Buf::remaining(&data), 0);
    }
}

#[test]
fn test_ltf8_round_trip() {
    let values: [i64; 12] = [
        0,
        1,
        127,
        128,
        16383,
        16384,
        0x7ff_ffff_ffff,
        0xff_ffff_ffff_ffff,
        i64::MAX,
        -1,
        -99999999,
        i64::MIN,
    ];
    for value in values {
        let mut buf = Vec::new();
        write_ltf8(&mut buf, value);
        let mut data = Bytes::from(buf);
        let decoded = get_ltf8(&mut data).unwrap();
        assert_eq!(decoded, value);
        assert_eq!(bytes::Buf::remaining(&data), 0);
    }
}

#[test]
fn test_get_itf8_rejects_truncated_input() {
    // 0x87 opens a two-byte encoding but nothing follows
    let mut data = Bytes::from_static(&[0x87]);
    assert!(get_itf8(&mut data).is_err());
}
