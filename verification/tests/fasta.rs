use bali_score::fasta::from_record;
use bali_score::{fasta, AlignmentError, Sequence};

#[test]
fn fasta_records_form_one_core_block() {
    let records = vec![
        Sequence::new("one".to_string(), b"AC-G".to_vec()),
        Sequence::new("two".to_string(), b"A-CG".to_vec()),
    ];
    let alignment = fasta::parse("test".to_string(), records).unwrap();
    assert_eq!(alignment.name, "test");
    assert_eq!(alignment.core_blocks, vec![true; 4]);
    assert_eq!(alignment.aligned_data.len(), 2);
    assert_eq!(alignment.unaligned_data[1].data, b"ACG".to_vec());
}

#[test]
fn fasta_without_records_is_empty() {
    assert_eq!(
        fasta::parse("test".to_string(), vec![]).err(),
        Some(AlignmentError::EmptyAlignment)
    );
}

#[test]
fn fasta_core_blocks_follow_the_first_record() {
    let records = vec![
        Sequence::new("one".to_string(), b"AC".to_vec()),
        Sequence::new("two".to_string(), b"A-CG".to_vec()),
    ];
    let alignment = fasta::parse("test".to_string(), records).unwrap();
    assert_eq!(alignment.core_blocks, vec![true; 2]);
}

#[test]
fn record_becomes_a_sequence() {
    let sequence = from_record(b"seq one", b"AC-G").unwrap();
    assert_eq!(sequence.name, "seq one");
    assert_eq!(sequence.data, b"AC-G".to_vec());
}

#[test]
fn record_name_may_hold_any_utf8() {
    let sequence = from_record("s\u{e9}q\u{2028}".as_bytes(), &[0xff, b'A']).unwrap();
    assert_eq!(sequence.name, "s\u{e9}q\u{2028}");
    assert_eq!(sequence.data, vec![0xff, b'A']);
}

#[test]
fn record_with_invalid_name_is_refused() {
    assert!(from_record(&[b'a', 0xff], b"ACG").is_none());
    assert!(from_record(&[0xc2], b"ACG").is_none());
    assert!(from_record(&[0xed, 0xa0, 0x80], b"ACG").is_none());
}
