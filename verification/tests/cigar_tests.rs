use cram_codec::cigar::{Cigar, Kind, Op, OpParseError, ParseError};

#[test]
fn test_is_empty() {
    let cigar = Cigar::default();
    assert!(cigar.is_empty());

    let cigar = Cigar::new(vec![Op::new(Kind::Match, 1)]);
    assert!(!cigar.is_empty());
}

#[test]
fn test_clear() {
    let mut cigar = Cigar::new(vec![Op::new(Kind::Match, 5)]);
    assert!(!cigar.is_empty());

    cigar.clear();
    assert!(cigar.is_empty());
}

#[test]
fn test_reference_len() {
    let cigar = Cigar::new(vec![
        Op::new(Kind::Match, 36),
        Op::new(Kind::Deletion, 4),
        Op::new(Kind::SoftClip, 8),
    ]);

    assert_eq!(cigar.reference_len(), 40);
}

#[test]
fn test_read_len() {
    let cigar = Cigar::new(vec![
        Op::new(Kind::Match, 36),
        Op::new(Kind::Deletion, 4),
        Op::new(Kind::SoftClip, 8),
    ]);

    assert_eq!(cigar.read_len(), 44);
}

#[test]
fn test_from_str() {
    assert_eq!(
        "1M13N144S".parse(),
        Ok(Cigar::new(vec![
            Op::new(Kind::Match, 1),
            Op::new(Kind::Skip, 13),
            Op::new(Kind::SoftClip, 144),
        ]))
    );

    assert_eq!("".parse::<Cigar>(), Err(ParseError::Empty));
    assert_eq!("8M13".parse::<Cigar>(), Err(ParseError::Invalid));

    assert!(matches!(
        "*".parse::<Cigar>(),
        Err(ParseError::InvalidOp(_))
    ));
}

#[test]
fn test_from_str_rejects_unknown_kind() {
    assert_eq!(
        "3Q".parse::<Cigar>(),
        Err(ParseError::InvalidOp(OpParseError::InvalidKind))
    );
}
