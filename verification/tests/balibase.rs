use bali_score::balibase::{parse, read_core_blocks, strip_space, BalibaseError};
use bali_score::Sequence;

#[test]
fn one_marks_a_core_block() {
    assert_eq!(read_core_blocks(b"1 0 1 1 0"), Ok(vec![true, false, true, true, false]));
}

#[test]
fn other_integers_mark_none() {
    assert_eq!(read_core_blocks(b"2 -1 10 11 0"), Ok(vec![false; 5]));
}

#[test]
fn signs_and_leading_zeros_are_read() {
    assert_eq!(read_core_blocks(b"+1 001 -0 +0 -1"), Ok(vec![true, true, false, false, false]));
}

#[test]
fn white_space_round_a_field_is_dropped() {
    assert_eq!(read_core_blocks(b"1\n 0\t \r1\n"), Ok(vec![true, false, true]));
}

#[test]
fn limits_of_32_bits() {
    assert_eq!(read_core_blocks(b"2147483647 -2147483648"), Ok(vec![false, false]));
    assert_eq!(read_core_blocks(b"1 2147483648"), Err(BalibaseError::InvalidCoreBlock(1)));
    assert_eq!(read_core_blocks(b"-2147483649"), Err(BalibaseError::InvalidCoreBlock(0)));
    assert_eq!(
        read_core_blocks(b"1 0 100000000000000000000000000000000001"),
        Err(BalibaseError::InvalidCoreBlock(2))
    );
}

#[test]
fn empty_field_is_invalid() {
    assert_eq!(read_core_blocks(b""), Err(BalibaseError::InvalidCoreBlock(0)));
    assert_eq!(read_core_blocks(b"1  0"), Err(BalibaseError::InvalidCoreBlock(1)));
    assert_eq!(read_core_blocks(b"1 0 "), Err(BalibaseError::InvalidCoreBlock(2)));
}

#[test]
fn first_invalid_field_is_reported() {
    assert_eq!(read_core_blocks(b"1 x 0 y"), Err(BalibaseError::InvalidCoreBlock(1)));
    assert_eq!(read_core_blocks(b"1 1.0"), Err(BalibaseError::InvalidCoreBlock(1)));
    assert_eq!(read_core_blocks(b"+ 1"), Err(BalibaseError::InvalidCoreBlock(0)));
    assert_eq!(read_core_blocks(b"1 - 1"), Err(BalibaseError::InvalidCoreBlock(1)));
    assert_eq!(read_core_blocks(b"1 1\t1"), Err(BalibaseError::InvalidCoreBlock(1)));
}

#[test]
fn strip_space_keeps_residues_and_gaps() {
    assert_eq!(strip_space(b"AC-G\n  A-\tCG\r\n\x0c"), b"AC-GA-CG".to_vec());
    assert_eq!(strip_space(b"A\x0bC"), b"A\x0bC".to_vec());
    assert_eq!(strip_space(b""), Vec::<u8>::new());
}

#[test]
fn reference_is_built_from_records_and_core_block_line() {
    let records = vec![
        Sequence::new("one".to_string(), b"AC-\nG".to_vec()),
        Sequence::new("two".to_string(), b"A-C G\n".to_vec()),
    ];
    let alignment = parse("BB11001".to_string(), records, b"1 0 0 1").unwrap();
    assert_eq!(alignment.name, "BB11001");
    assert_eq!(alignment.aligned_data[0].name, "one");
    assert_eq!(alignment.aligned_data[0].data, b"AC-G".to_vec());
    assert_eq!(alignment.aligned_data[1].data, b"A-CG".to_vec());
    assert_eq!(alignment.unaligned_data[1].data, b"ACG".to_vec());
    assert_eq!(alignment.core_blocks, vec![true, false, false, true]);
    assert_eq!(alignment.validate(), Ok(()));
}

#[test]
fn reference_with_invalid_core_block_line_is_refused() {
    let records = vec![Sequence::new("one".to_string(), b"ACG".to_vec())];
    let parsed = parse("BB11001".to_string(), records, b"1 0 one");
    assert_eq!(parsed.err(), Some(BalibaseError::InvalidCoreBlock(2)));
}

#[test]
fn unicode_white_space_round_a_field_is_dropped() {
    assert_eq!(read_core_blocks(&[49, 194, 160]), Ok(vec![true]));
    assert_eq!(read_core_blocks("\u{a0}1\u{85} 0\u{2003}".as_bytes()), Ok(vec![true, false]));
    let spaces = [
        "\u{9}", "\u{a}", "\u{b}", "\u{c}", "\u{d}", "\u{85}", "\u{a0}", "\u{1680}",
        "\u{2000}", "\u{2001}", "\u{2002}", "\u{2003}", "\u{2004}", "\u{2005}", "\u{2006}",
        "\u{2007}", "\u{2008}", "\u{2009}", "\u{200a}", "\u{2028}", "\u{2029}", "\u{202f}",
        "\u{205f}", "\u{3000}",
    ];
    for space in spaces.iter() {
        let line = format!("0 {}1{}{} 0", space, space, space);
        assert_eq!(read_core_blocks(line.as_bytes()), Ok(vec![false, true, false]));
    }
}

#[test]
fn fields_are_read_as_trim_and_parse_read_them() {
    let lines = [
        "1 0 1", "\u{a0}1 \u{3000}-7\u{2009}", "1 \u{200b}1", "1 1\u{a0}1", "+1 -0 007",
        "\u{feff}1", "1 \u{180e}0", "\u{2028}\u{2029}1\u{202f}\u{205f}", "\u{1680}",
        "1  1", "", " ", "\u{e9}", "1 2147483648", "\t1\n -2147483648\r",
    ];
    for line in lines.iter() {
        let by_std: Result<Vec<bool>, usize> = line
            .split(' ')
            .enumerate()
            .map(|(index, block)| block.trim().parse::<i32>().map(|n| n == 1).map_err(|_| index))
            .collect();
        let expected = by_std.map_err(BalibaseError::InvalidCoreBlock);
        assert_eq!(read_core_blocks(line.as_bytes()), expected, "line {:?}", line);
    }
}

#[test]
fn characters_that_are_no_white_space_stay() {
    assert_eq!(read_core_blocks("1\u{200b}".as_bytes()), Err(BalibaseError::InvalidCoreBlock(0)));
    assert_eq!(read_core_blocks(&[49, 160]), Err(BalibaseError::InvalidCoreBlock(0)));
    assert_eq!(read_core_blocks(&[49, 194]), Err(BalibaseError::InvalidCoreBlock(0)));
    assert_eq!(read_core_blocks(&[49, 226, 128]), Err(BalibaseError::InvalidCoreBlock(0)));
}
