//! The BAliBASE reference format, as far as it is text to be read: the
//! core-block line, a list of integers separated by single spaces of which a
//! 1 marks a core-block column, and the sequence data, residues and gaps
//! with white space in between. Both are read as the bytes of UTF-8 text.

use crate::alignment::Alignment;
use crate::sequence::Sequence;
use vstd::prelude::*;

verus! {

/// Why a reference cannot be read.
#[derive(Debug, Clone, Copy, PartialEq, Eq, Structural)]
pub enum BalibaseError {
    /// The field of the core-block line with this index, counted from 0, is
    /// no 32-bit integer.
    InvalidCoreBlock(usize),
}

/// The white space that may stand within sequence data: space, tab, line
/// feed, form feed, carriage return.
pub open spec fn is_data_space(byte: u8) -> bool {
    byte == 32 || byte == 9 || byte == 10 || byte == 12 || byte == 13
}

/// Whether one byte encodes a white-space character: U+0009 to U+000D, or
/// the space.
pub open spec fn space_of_one(byte: u8) -> bool {
    byte == 32 || (9 <= byte <= 13)
}

/// Whether two bytes encode a white-space character: U+0085 or U+00A0.
pub open spec fn space_of_two(first: u8, second: u8) -> bool {
    first == 0xC2 && (second == 0x85 || second == 0xA0)
}

/// Whether three bytes encode a white-space character: U+1680, U+2000 to
/// U+200A, U+2028, U+2029, U+202F, U+205F or U+3000.
pub open spec fn space_of_three(first: u8, second: u8, third: u8) -> bool {
    ||| first == 0xE1 && second == 0x9A && third == 0x80
    ||| first == 0xE2 && second == 0x80 && (0x80 <= third <= 0x8A || third == 0xA8 || third
        == 0xA9 || third == 0xAF)
    ||| first == 0xE2 && second == 0x81 && third == 0x9F
    ||| first == 0xE3 && second == 0x80 && third == 0x80
}

/// The number of bytes of the white-space character with which a text
/// begins, or 0 where it begins with none.
pub open spec fn space_at_start(text: Seq<u8>) -> int {
    if text.len() >= 1 && space_of_one(text[0]) {
        1
    } else if text.len() >= 2 && space_of_two(text[0], text[1]) {
        2
    } else if text.len() >= 3 && space_of_three(text[0], text[1], text[2]) {
        3
    } else {
        0
    }
}

/// The number of bytes of the white-space character with which a text ends,
/// or 0 where it ends with none.
pub open spec fn space_at_end(text: Seq<u8>) -> int {
    let length = text.len() as int;
    if length >= 1 && space_of_one(text[length - 1]) {
        1
    } else if length >= 2 && space_of_two(text[length - 2], text[length - 1]) {
        2
    } else if length >= 3 && space_of_three(text[length - 3], text[length - 2], text[length - 1]) {
        3
    } else {
        0
    }
}

/// Whether a byte is a decimal digit.
pub open spec fn is_digit(byte: u8) -> bool {
    48 <= byte <= 57
}

/// Sequence data without its white space.
pub open spec fn without_space(data: Seq<u8>) -> Seq<u8>
    decreases data.len(),
{
    if data.len() == 0 {
        Seq::empty()
    } else if is_data_space(data.last()) {
        without_space(data.drop_last())
    } else {
        without_space(data.drop_last()).push(data.last())
    }
}

/// The number that a string of decimal digits denotes.
pub open spec fn decimal(digits: Seq<u8>) -> nat
    decreases digits.len(),
{
    if digits.len() == 0 {
        0
    } else {
        10 * decimal(digits.drop_last()) + (digits.last() - 48) as nat
    }
}

/// A text without the white-space characters at its start.
pub open spec fn trim_start(text: Seq<u8>) -> Seq<u8>
    decreases text.len(),
{
    if space_at_start(text) > 0 {
        trim_start(text.subrange(space_at_start(text), text.len() as int))
    } else {
        text
    }
}

/// A text without the white-space characters at its end.
pub open spec fn trim_end(text: Seq<u8>) -> Seq<u8>
    decreases text.len(),
{
    if space_at_end(text) > 0 {
        trim_end(text.subrange(0, text.len() - space_at_end(text)))
    } else {
        text
    }
}

/// Whether a text is a string of decimal digits, and not empty.
pub open spec fn all_digits(text: Seq<u8>) -> bool {
    text.len() > 0 && forall|i: int| 0 <= i < text.len() ==> is_digit(#[trigger] text[i])
}

/// The 32-bit integer that a text denotes: an optional sign, `+` or `-`,
/// and decimal digits, at least one, that stay within the 32 bits.
pub open spec fn integer(text: Seq<u8>) -> Option<int> {
    let signed = text.len() > 0 && (text[0] == 43 || text[0] == 45);
    let digits = if signed {
        text.subrange(1, text.len() as int)
    } else {
        text
    };
    let value = if signed && text[0] == 45 {
        -(decimal(digits) as int)
    } else {
        decimal(digits) as int
    };
    if all_digits(digits) && -0x8000_0000 <= value <= 0x7fff_ffff {
        Some(value)
    } else {
        None
    }
}

/// What a field of the core-block line says: whether the integer that it
/// holds between white space is 1, or nothing where it holds none.
pub open spec fn core_flag(field: Seq<u8>) -> Option<bool> {
    match integer(trim_end(trim_start(field))) {
        Some(value) => Some(value == 1),
        None => None,
    }
}

/// The fields of a line: the texts between its spaces, one more than it
/// has spaces.
pub open spec fn fields(line: Seq<u8>) -> Seq<Seq<u8>>
    decreases line.len(),
{
    if line.len() == 0 {
        seq![Seq::empty()]
    } else if line.last() == 32 {
        fields(line.drop_last()).push(Seq::empty())
    } else {
        let before = fields(line.drop_last());
        before.drop_last().push(before.last().push(line.last()))
    }
}

/// Whether each field before `limit` holds an integer.
pub open spec fn flags_before(line: Seq<u8>, limit: int) -> bool {
    forall|k: int| 0 <= k < limit ==> core_flag(#[trigger] fields(line)[k]) is Some
}

/// What the core-block line says: one flag for each of its fields, true
/// where the field holds the integer 1, or the index of the first field that
/// holds no integer.
pub open spec fn core_blocks(line: Seq<u8>) -> Result<Seq<bool>, BalibaseError> {
    if flags_before(line, fields(line).len() as int) {
        Ok(Seq::new(fields(line).len(), |k: int| core_flag(fields(line)[k]) == Some(true)))
    } else {
        Err(
            BalibaseError::InvalidCoreBlock(
                (choose|k: int|
                    0 <= k < fields(line).len() && core_flag(#[trigger] fields(line)[k]) is None
                        && flags_before(line, k)) as usize,
            ),
        )
    }
}

/// Takes the white space out of sequence data.
pub fn strip_space(data: &[u8]) -> (stripped: Vec<u8>)
    ensures
        stripped@ == without_space(data@),
{
    let mut stripped: Vec<u8> = Vec::new();
    let length: usize = data.len();
    for i in 0..length
        invariant
            length == data@.len(),
            stripped@ == without_space(data@.take(i as int)),
    {
        let byte: u8 = data[i];
        assert(data@.take(i + 1).drop_last() == data@.take(i as int));
        if !(byte == 32 || byte == 9 || byte == 10 || byte == 12 || byte == 13) {
            stripped.push(byte);
        }
    }
    assert(data@.take(length as int) == data@);
    stripped
}

/// The decimal value of a string of digits grows with each digit.
proof fn lemma_decimal_next(digits: Seq<u8>, length: int)
    requires
        0 <= length < digits.len(),
    ensures
        decimal(digits.take(length + 1)) == 10 * decimal(digits.take(length)) + (digits[length]
            - 48) as nat,
{
    assert(digits.take(length + 1).drop_last() == digits.take(length));
}

/// Reads the 32-bit integer that a text denotes.
fn read_integer(text: &[u8], from: usize, to: usize) -> (value: Option<i64>)
    requires
        from <= to <= text@.len(),
    ensures
        value matches Some(number) ==> integer(text@.subrange(from as int, to as int)) == Some(
            number as int,
        ),
        value is None ==> integer(text@.subrange(from as int, to as int)) is None,
{
    let ghost whole = text@.subrange(from as int, to as int);
    let mut i: usize = from;
    let mut negative: bool = false;
    if i < to && (text[i] == 43 || text[i] == 45) {
        negative = text[i] == 45;
        i += 1;
    }
    let first: usize = i;
    let ghost digits = text@.subrange(first as int, to as int);
    assert(digits == if first > from {
        whole.subrange(1, whole.len() as int)
    } else {
        whole
    });
    if first == to {
        return None;
    }
    let mut magnitude: u64 = 0;
    let mut too_large: bool = false;
    while i < to
        invariant
            from <= first <= i <= to <= text@.len(),
            whole == text@.subrange(from as int, to as int),
            first > from <==> whole.len() > 0 && (whole[0] == 43 || whole[0] == 45),
            negative <==> first > from && whole[0] == 45,
            digits == if first > from {
                whole.subrange(1, whole.len() as int)
            } else {
                whole
            },
            digits == text@.subrange(first as int, to as int),
            forall|j: int| 0 <= j < i - first ==> is_digit(#[trigger] digits[j]),
            !too_large ==> magnitude == decimal(digits.take(i - first)) && magnitude
                <= 0x8000_0000,
            too_large ==> decimal(digits.take(i - first)) > 0x8000_0000,
        decreases to - i,
    {
        let byte: u8 = text[i];
        assert(digits[i - first] == byte);
        if !(48 <= byte && byte <= 57) {
            return None;
        }
        proof {
            lemma_decimal_next(digits, i - first);
        }
        if !too_large {
            magnitude = magnitude * 10 + (byte - 48) as u64;
            if magnitude > 0x8000_0000 {
                too_large = true;
            }
        }
        i += 1;
    }
    assert(digits.take(to - first) == digits);
    if too_large {
        None
    } else if negative {
        Some(-(magnitude as i64))
    } else if magnitude <= 0x7fff_ffff {
        Some(magnitude as i64)
    } else {
        None
    }
}

/// Whether three bytes encode a white-space character.
fn is_space_of_three(first: u8, second: u8, third: u8) -> (space: bool)
    ensures
        space == space_of_three(first, second, third),
{
    (first == 0xE1 && second == 0x9A && third == 0x80) || (first == 0xE2 && second == 0x80 && ((
    0x80 <= third && third <= 0x8A) || third == 0xA8 || third == 0xA9 || third == 0xAF)) || (first
        == 0xE2 && second == 0x81 && third == 0x9F) || (first == 0xE3 && second == 0x80 && third
        == 0x80)
}

/// The number of bytes of the white-space character with which the part of
/// a text between `from` and `to` begins, or 0.
fn leading_space(text: &Vec<u8>, from: usize, to: usize) -> (bytes: usize)
    requires
        from <= to <= text@.len(),
    ensures
        bytes == space_at_start(text@.subrange(from as int, to as int)),
        bytes <= to - from,
{
    let length: usize = to - from;
    if length >= 1 && (text[from] == 32 || (9 <= text[from] && text[from] <= 13)) {
        1
    } else if length >= 2 && text[from] == 0xC2 && (text[from + 1] == 0x85 || text[from + 1]
        == 0xA0) {
        2
    } else if length >= 3 && is_space_of_three(text[from], text[from + 1], text[from + 2]) {
        3
    } else {
        0
    }
}

/// The number of bytes of the white-space character with which the part of
/// a text between `from` and `to` ends, or 0.
fn trailing_space(text: &Vec<u8>, from: usize, to: usize) -> (bytes: usize)
    requires
        from <= to <= text@.len(),
    ensures
        bytes == space_at_end(text@.subrange(from as int, to as int)),
        bytes <= to - from,
{
    let length: usize = to - from;
    if length >= 1 && (text[to - 1] == 32 || (9 <= text[to - 1] && text[to - 1] <= 13)) {
        1
    } else if length >= 2 && text[to - 2] == 0xC2 && (text[to - 1] == 0x85 || text[to - 1]
        == 0xA0) {
        2
    } else if length >= 3 && is_space_of_three(text[to - 3], text[to - 2], text[to - 1]) {
        3
    } else {
        0
    }
}

/// Reads what a field of the core-block line says.
fn read_flag(field: &Vec<u8>) -> (flag: Option<bool>)
    ensures
        flag == core_flag(field@),
{
    let length: usize = field.len();
    let mut from: usize = 0;
    assert(field@.subrange(0, length as int) == field@);
    let mut step: usize = leading_space(field, from, length);
    while step > 0
        invariant
            from <= length == field@.len(),
            step == space_at_start(field@.subrange(from as int, length as int)),
            step <= length - from,
            trim_start(field@) == trim_start(field@.subrange(from as int, length as int)),
        decreases length - from,
    {
        assert(field@.subrange(from as int, length as int).subrange(
            step as int,
            length - from,
        ) == field@.subrange(from + step, length as int));
        from += step;
        step = leading_space(field, from, length);
    }
    let ghost tail = field@.subrange(from as int, length as int);
    assert(trim_start(field@) == tail);
    let mut to: usize = length;
    step = trailing_space(field, from, to);
    while step > 0
        invariant
            from <= to <= length == field@.len(),
            tail == field@.subrange(from as int, length as int),
            step == space_at_end(field@.subrange(from as int, to as int)),
            step <= to - from,
            trim_end(tail) == trim_end(field@.subrange(from as int, to as int)),
        decreases to - from,
    {
        assert(field@.subrange(from as int, to as int).subrange(0, to - from - step)
            == field@.subrange(from as int, to - step));
        to -= step;
        step = trailing_space(field, from, to);
    }
    assert(trim_end(tail) == field@.subrange(from as int, to as int));
    match read_integer(field.as_slice(), from, to) {
        Some(number) => Some(number == 1),
        None => None,
    }
}

/// Reads the core-block line: one flag for each column.
pub fn read_core_blocks(line: &[u8]) -> (flags: Result<Vec<bool>, BalibaseError>)
    ensures
        match flags {
            Ok(read) => core_blocks(line@) == Ok::<Seq<bool>, BalibaseError>(read@),
            Err(error) => core_blocks(line@) == Err::<Seq<bool>, BalibaseError>(error),
        },
{
    let mut flags: Vec<bool> = Vec::new();
    let mut first_invalid: Option<usize> = None;
    let mut field: Vec<u8> = Vec::new();
    let ghost mut closed: Seq<Seq<u8>> = Seq::empty();
    let length: usize = line.len();
    assert(line@.take(0) =~= Seq::<u8>::empty());
    for i in 0..length
        invariant
            length == line@.len(),
            fields(line@.take(i as int)) == closed.push(field@),
            flags@.len() == closed.len(),
            flags@.len() <= i,
            forall|k: int|
                0 <= k < closed.len() ==> (#[trigger] flags@[k]) == (core_flag(closed[k]) == Some(
                    true,
                )),
            match first_invalid {
                Some(index) => index < closed.len() && core_flag(closed[index as int]) is None
                    && forall|k: int| 0 <= k < index ==> core_flag(#[trigger] closed[k]) is Some,
                None => forall|k: int| 0 <= k < closed.len() ==> core_flag(#[trigger] closed[k])
                    is Some,
            },
    {
        let byte: u8 = line[i];
        proof {
            assert(line@.take(i + 1).drop_last() == line@.take(i as int));
            assert(closed.push(field@).drop_last() == closed);
        }
        if byte == 32 {
            let flag = read_flag(&field);
            if flag.is_none() && first_invalid.is_none() {
                first_invalid = Some(flags.len());
            }
            flags.push(flag == Some(true));
            proof {
                closed = closed.push(field@);
            }
            field = Vec::new();
        } else {
            field.push(byte);
        }
    }
    let flag = read_flag(&field);
    if flag.is_none() && first_invalid.is_none() {
        first_invalid = Some(flags.len());
    }
    flags.push(flag == Some(true));
    proof {
        assert(line@.take(length as int) == line@);
        let all = fields(line@);
        assert(all == closed.push(field@));
        match first_invalid {
            Some(index) => {
                assert(core_flag(all[index as int]) is None);
                assert(flags_before(line@, index as int));
                assert(!flags_before(line@, all.len() as int));
                let chosen = choose|k: int|
                    0 <= k < all.len() && core_flag(#[trigger] all[k]) is None && flags_before(
                        line@,
                        k,
                    );
                assert(chosen == index) by {
                    if chosen < index {
                        assert(core_flag(all[chosen]) is Some);
                    }
                    if index < chosen {
                        assert(core_flag(all[index as int]) is Some);
                    }
                }
            },
            None => {
                assert(flags_before(line@, all.len() as int));
                assert(flags@ =~= Seq::new(
                    all.len(),
                    |k: int| core_flag(all[k]) == Some(true),
                ));
            },
        }
    }
    match first_invalid {
        Some(index) => Err(BalibaseError::InvalidCoreBlock(index)),
        None => Ok(flags),
    }
}

/// Builds the reference alignment from what its file holds: the name, the
/// sequence records, whose data may hold white space, and the core-block
/// line.
pub fn parse(name: String, sequences: Vec<Sequence>, core_block_data: &[u8]) -> (parsed: Result<
    Alignment,
    BalibaseError,
>)
    ensures
        match parsed {
            Ok(alignment) => {
                &&& core_blocks(core_block_data@) == Ok::<Seq<bool>, BalibaseError>(
                    alignment.core_blocks@,
                )
                &&& alignment.wf()
                &&& alignment.name == name
                &&& alignment.aligned_data@.len() == sequences@.len()
                &&& forall|s: int|
                    0 <= s < sequences@.len() ==> {
                        &&& (#[trigger] alignment.aligned_data@[s]).name@ == sequences@[s].name@
                        &&& alignment.aligned_data@[s].data@ == without_space(
                            sequences@[s].data@,
                        )
                    }
            },
            Err(error) => core_blocks(core_block_data@) == Err::<Seq<bool>, BalibaseError>(error),
        },
{
    let core_blocks = match read_core_blocks(core_block_data) {
        Ok(flags) => flags,
        Err(error) => {
            return Err(error);
        },
    };
    let mut seqs: Vec<Sequence> = Vec::new();
    let count: usize = sequences.len();
    for s in 0..count
        invariant
            count == sequences@.len(),
            seqs@.len() == s,
            forall|t: int|
                0 <= t < s ==> {
                    &&& (#[trigger] seqs@[t]).name@ == sequences@[t].name@
                    &&& seqs@[t].data@ == without_space(sequences@[t].data@)
                },
    {
        let data = strip_space(sequences[s].data.as_slice());
        seqs.push(Sequence::new(sequences[s].name.clone(), data));
    }
    Ok(Alignment::new(name, seqs, core_blocks))
}

} // verus!
