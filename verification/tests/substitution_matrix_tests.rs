use cram_codec::record::{Feature, Position, Record, SubstitutionValue};
use cram_codec::substitution_matrix::{Base, Builder, SubstitutionMatrix};

#[test]
fn test_build() {
    // reference sequence = "ACAGGAATAANNNNNN"
    let bases = b"TCTGGCGTGT".to_vec();

    let record = Record::builder()
        .set_alignment_start(Position(1))
        .set_read_length(bases.len())
        .set_bases(bases)
        .add_feature(Feature::Substitution(
            Position(1),
            SubstitutionValue::Bases(Base::A, Base::T),
        ))
        .add_feature(Feature::Substitution(
            Position(3),
            SubstitutionValue::Bases(Base::A, Base::T),
        ))
        .add_feature(Feature::Substitution(
            Position(6),
            SubstitutionValue::Bases(Base::A, Base::C),
        ))
        .add_feature(Feature::Substitution(
            Position(7),
            SubstitutionValue::Bases(Base::A, Base::G),
        ))
        .add_feature(Feature::Substitution(
            Position(9),
            SubstitutionValue::Bases(Base::A, Base::G),
        ))
        .add_feature(Feature::Substitution(
            Position(10),
            SubstitutionValue::Bases(Base::A, Base::T),
        ))
        .build();

    let mut builder = Builder::default();
    builder.update(&record);
    let matrix = builder.build();

    assert_eq!(
        matrix.substitutions,
        vec![
            Base::T, Base::G, Base::C, Base::N, // ref A
            Base::A, Base::G, Base::T, Base::N, // ref C
            Base::A, Base::C, Base::T, Base::N, // ref G
            Base::A, Base::C, Base::G, Base::N, // ref T
            Base::A, Base::C, Base::G, Base::T, // ref N
        ]
    );
}

#[test]
fn test_default_matrix_round_trips_through_wire_bytes() {
    let matrix = SubstitutionMatrix::default();
    let bytes = matrix.to_bytes();
    assert_eq!(bytes, vec![0x1b, 0x1b, 0x1b, 0x1b, 0x1b]);

    let decoded = SubstitutionMatrix::from_bytes([0x1b, 0x1b, 0x1b, 0x1b, 0x1b]);
    assert_eq!(decoded, matrix);
}

#[test]
fn test_find_code_and_base_for() {
    let matrix = SubstitutionMatrix::default();
    // row A is [C, G, T, N]: the code for T under reference A is 2
    assert_eq!(matrix.find_code(Base::A, Base::T), Some(2));
    assert_eq!(matrix.base_for(Base::A, 2), Base::T);
    // a base never substitutes for itself, so it has no code
    assert_eq!(matrix.find_code(Base::A, Base::A), None);
}
