use cram_codec::fasta::{len_with_right_trim, FaiRecord, IndexError, Indexer};

#[test]
fn test_consume_sequence_line() {
    let data = b"ACGT\nNNNN\n";
    let mut indexer = Indexer::new(data.to_vec());

    let (bytes_read, base_count) = indexer.consume_sequence_line();
    assert_eq!(bytes_read, 5);
    assert_eq!(base_count, 4);
}

#[test]
fn test_index_record() {
    let data = b">sq0\nACGT\n>sq1\nNNNN\nNNNN\nNN\n";
    let mut indexer = Indexer::new(data.to_vec());

    let record = indexer.index_record().unwrap();
    assert_eq!(record, Some(FaiRecord::new(String::from("sq0"), 4, 5, 4, 5)));

    let record = indexer.index_record().unwrap();
    assert_eq!(record, Some(FaiRecord::new(String::from("sq1"), 10, 15, 4, 5)));

    assert!(indexer.index_record().unwrap().is_none());
}

#[test]
fn test_index_record_with_invalid_line_bases() {
    let data = b">sq0\nACGT\nACG\nACGT\nAC\n";
    let mut indexer = Indexer::new(data.to_vec());

    assert!(matches!(
        indexer.index_record(),
        Err(IndexError::InvalidLineBases(4, 3))
    ));
}

#[test]
fn test_index_record_with_invalid_line_width() {
    let data = b">sq0\nACGT\nACGT \nACGT\nAC\n";
    let mut indexer = Indexer::new(data.to_vec());

    assert!(matches!(
        indexer.index_record(),
        Err(IndexError::InvalidLineWidth(5, 6))
    ));
}

#[test]
fn test_index_record_with_empty_seqeunce() {
    let data = b">sq0\n";
    let mut indexer = Indexer::new(data.to_vec());

    assert!(matches!(
        indexer.index_record(),
        Err(IndexError::EmptySequence(5))
    ));
}

#[test]
fn test_len_with_right_trim() {
    assert_eq!(len_with_right_trim(b"ATGC\n"), 4);
    assert_eq!(len_with_right_trim(b"ATGC\r\n"), 4);
}
