use cram_codec::container::{AddRecordError, Builder, MAX_SLICE_RECORDS};
use cram_codec::record::Record;

fn record_against(reference_sequence_id: usize, read_length: usize) -> Record {
    Record::builder()
        .set_reference_sequence_id(reference_sequence_id)
        .set_read_length(read_length)
        .build()
}

#[test]
fn test_add_record_counts_bases() {
    let mut builder = Builder::new(0);
    assert!(builder.is_empty());

    builder.add_record(record_against(0, 4)).unwrap();
    builder.add_record(record_against(0, 6)).unwrap();

    assert!(!builder.is_empty());
    assert_eq!(builder.base_count(), 10);
}

#[test]
fn test_reference_mismatch_closes_the_container() {
    let mut builder = Builder::new(0);
    builder.add_record(record_against(0, 4)).unwrap();

    let other = record_against(1, 4);
    assert!(matches!(
        builder.add_record(other),
        Err(AddRecordError::ContainerFull(_))
    ));
}

#[test]
fn test_slice_cap_seals_the_slice() {
    let mut builder = Builder::new(0);
    for _ in 0..MAX_SLICE_RECORDS {
        builder.add_record(record_against(0, 1)).unwrap();
    }

    // the record that would overflow seals the slice and comes back
    assert!(matches!(
        builder.add_record(record_against(0, 1)),
        Err(AddRecordError::SliceFull(_))
    ));
    // with the one slice sealed, the container is full
    assert!(matches!(
        builder.add_record(record_against(0, 1)),
        Err(AddRecordError::ContainerFull(_))
    ));
}
