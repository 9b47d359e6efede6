//! Reading fields and numbers from a line of text, and writing them.
//!
//! A line is a sequence of bytes. Blanks separate its fields, and a number
//! is written in decimal digits.

use vstd::prelude::*;

verus! {

/// The bytes that separate fields: the space and the ASCII control
/// characters from the tab to the carriage return.
pub open spec fn is_blank(byte: u8) -> bool {
    byte == 32 || 9 <= byte <= 13
}

/// `begin..end` is the first field of `bytes` at or after `from`: blanks
/// lead up to it, it holds no blank, and a blank or the end follows it.
pub open spec fn is_next_field(bytes: Seq<u8>, from: int, begin: int, end: int) -> bool {
    &&& 0 <= from <= begin < end <= bytes.len()
    &&& forall|k: int| from <= k < begin ==> is_blank(#[trigger] bytes[k])
    &&& forall|k: int| begin <= k < end ==> !is_blank(#[trigger] bytes[k])
    &&& end < bytes.len() ==> is_blank(bytes[end])
}

/// Nothing but blanks stands in `bytes` from `from` on.
pub open spec fn is_blank_from(bytes: Seq<u8>, from: int) -> bool {
    forall|k: int| 0 <= from <= k < bytes.len() ==> is_blank(#[trigger] bytes[k])
}

/// The first field at or after `from`, if there is one.
pub open spec fn field_after(bytes: Seq<u8>, from: int) -> Option<(int, int)> {
    if exists|begin: int, end: int| is_next_field(bytes, from, begin, end) {
        Some(choose|field: (int, int)| is_next_field(bytes, from, field.0, field.1))
    } else {
        None
    }
}

/// A line has at most one first field after a position.
pub proof fn lemma_next_field_is_unique(
    bytes: Seq<u8>,
    from: int,
    first: (int, int),
    second: (int, int),
)
    requires
        is_next_field(bytes, from, first.0, first.1),
        is_next_field(bytes, from, second.0, second.1),
    ensures
        first == second,
{
    if first.0 < second.0 {
        assert(is_blank(bytes[first.0]));
    }
    if second.0 < first.0 {
        assert(is_blank(bytes[second.0]));
    }
    if first.1 < second.1 {
        assert(!is_blank(bytes[first.1]));
    }
    if second.1 < first.1 {
        assert(!is_blank(bytes[second.1]));
    }
}

/// `field_after` is the field that [`is_next_field`] describes, and is
/// none where only blanks are left.
pub proof fn lemma_field_after(bytes: Seq<u8>, from: int)
    ensures
        match field_after(bytes, from) {
            Some((begin, end)) => is_next_field(bytes, from, begin, end),
            None => forall|begin: int, end: int| !is_next_field(bytes, from, begin, end),
        },
{
    if exists|begin: int, end: int| is_next_field(bytes, from, begin, end) {
        let (begin, end) = choose|begin: int, end: int| is_next_field(bytes, from, begin, end);
        let witness = (begin, end);
        assert(is_next_field(bytes, from, witness.0, witness.1));
    }
}

/// Whether a byte separates fields.
pub fn blank(byte: u8) -> (answer: bool)
    ensures
        answer == is_blank(byte),
{
    byte == 32 || (9 <= byte && byte <= 13)
}

/// Finds the first field of a line at or after `from`, as the positions
/// where it begins and ends.
pub fn next_field(bytes: &[u8], from: usize) -> (field: Option<(usize, usize)>)
    ensures
        match field {
            Some((begin, end)) => field_after(bytes@, from as int) == Some(
                (begin as int, end as int),
            ) && is_next_field(bytes@, from as int, begin as int, end as int),
            None => field_after(bytes@, from as int) is None && (from <= bytes.len()
                ==> is_blank_from(bytes@, from as int)),
        },
{
    proof {
        lemma_field_after(bytes@, from as int);
    }
    let mut begin = from;
    while begin < bytes.len() && blank(bytes[begin])
        invariant
            from <= begin,
            forall|k: int| from <= k < begin && k < bytes.len() ==> is_blank(#[trigger] bytes@[k]),
        decreases bytes.len() - begin,
    {
        begin += 1;
    }
    if begin >= bytes.len() {
        assert forall|b: int, e: int| !is_next_field(bytes@, from as int, b, e) by {
            if is_next_field(bytes@, from as int, b, e) {
                assert(!is_blank(bytes@[b]));
            }
        }
        return None;
    }
    let mut end = begin + 1;
    while end < bytes.len() && !blank(bytes[end])
        invariant
            begin < end <= bytes.len(),
            forall|k: int| begin <= k < end ==> !is_blank(#[trigger] bytes@[k]),
        decreases bytes.len() - end,
    {
        end += 1;
    }
    proof {
        assert(is_next_field(bytes@, from as int, begin as int, end as int));
        match field_after(bytes@, from as int) {
            Some(found) => {
                lemma_next_field_is_unique(
                    bytes@,
                    from as int,
                    found,
                    (begin as int, end as int),
                );
            },
            None => {},
        }
    }
    Some((begin, end))
}

/// The decimal digits.
pub open spec fn is_digit(byte: u8) -> bool {
    48 <= byte <= 57
}

/// The number that a sequence of decimal digits writes; zero for none.
pub open spec fn digits_value(digits: Seq<u8>) -> nat
    decreases digits.len(),
{
    if digits.len() == 0 {
        0
    } else {
        (digits_value(digits.drop_last()) * 10 + (digits.last() - 48)) as nat
    }
}

/// The digits of a number in text, which may begin with a plus sign.
pub open spec fn digits_of(text: Seq<u8>) -> Seq<u8> {
    if text.len() > 0 && text[0] == 43 {
        text.drop_first()
    } else {
        text
    }
}

/// The number that a text writes: one decimal digit or more, after a plus
/// sign or none. Any other text writes no number.
pub open spec fn number_of(text: Seq<u8>) -> Option<nat> {
    let digits = digits_of(text);
    if digits.len() > 0 && forall|k: int| 0 <= k < digits.len() ==> is_digit(#[trigger] digits[k]) {
        Some(digits_value(digits))
    } else {
        None
    }
}

/// More digits never write a smaller number.
pub proof fn lemma_digits_value_grows(digits: Seq<u8>, length: int)
    requires
        0 <= length <= digits.len(),
        forall|k: int| 0 <= k < digits.len() ==> is_digit(#[trigger] digits[k]),
    ensures
        digits_value(digits.take(length)) <= digits_value(digits),
    decreases digits.len(),
{
    if length == digits.len() {
        assert(digits.take(length) =~= digits);
    } else {
        let front = digits.drop_last();
        lemma_digits_value_grows(front, length);
        assert(front.take(length) =~= digits.take(length));
    }
}

/// The decimal digits of a number, as ASCII.
pub open spec fn decimal(number: nat) -> Seq<u8>
    decreases number,
{
    if number < 10 {
        seq![(48 + number) as u8]
    } else {
        decimal(number / 10).push((48 + number % 10) as u8)
    }
}

/// The decimal digits of a number are digits, at least one, and write the
/// number.
pub proof fn lemma_decimal_is_digits(number: nat)
    ensures
        decimal(number).len() > 0,
        forall|k: int| 0 <= k < decimal(number).len() ==> is_digit(#[trigger] decimal(number)[k]),
        digits_value(decimal(number)) == number,
    decreases number,
{
    let text = decimal(number);
    if number >= 10 {
        lemma_decimal_is_digits(number / 10);
        let front = decimal(number / 10);
        assert(text.drop_last() =~= front);
        assert forall|k: int| 0 <= k < text.len() implies is_digit(#[trigger] text[k]) by {
            if k < front.len() {
                assert(text[k] == front[k]);
            }
        }
        assert(text.last() == (48 + number % 10) as u8);
        assert(digits_value(text) == digits_value(front) * 10 + number % 10);
    } else {
        assert(text.drop_last() =~= Seq::<u8>::empty());
        assert(digits_value(Seq::<u8>::empty()) == 0);
        assert(text.last() == (48 + number) as u8);
    }
}

/// Reading inverts writing: the decimal digits of a number write that
/// number.
pub proof fn law_number_of_decimal(number: nat)
    ensures
        number_of(decimal(number)) == Some(number),
{
    lemma_decimal_is_digits(number);
    assert(is_digit(decimal(number)[0]));
}

/// Writes a number in decimal digits.
pub fn decimal_digits(number: u32) -> (digits: Vec<u8>)
    ensures
        digits@ == decimal(number as nat),
    decreases number,
{
    if number < 10 {
        let mut digits = Vec::new();
        digits.push(48 + number as u8);
        assert(digits@ =~= seq![(48 + number) as u8]);
        digits
    } else {
        let mut digits = decimal_digits(number / 10);
        digits.push(48 + (number % 10) as u8);
        digits
    }
}

/// Reads the number that a text writes, if it writes one that is no larger
/// than `largest`.
pub fn parse_number(text: &[u8], largest: u32) -> (number: Option<u32>)
    ensures
        number == match number_of(text@) {
            Some(value) => if value <= largest {
                Some(value as u32)
            } else {
                None
            },
            None => None,
        },
{
    let ghost digits = digits_of(text@);
    let end = text.len();
    let first: usize = if 0 < end && text[0] == 43 {
        1
    } else {
        0
    };
    assert(digits =~= text@.subrange(first as int, end as int));
    if first == end {
        return None;
    }
    let mut value: u64 = 0;
    let mut index = first;
    assert(digits.take(0) =~= Seq::empty());
    while index < end
        invariant
            first <= index <= end,
            first < end,
            end == text.len(),
            digits == digits_of(text@),
            digits == text@.subrange(first as int, end as int),
            forall|k: int| 0 <= k < index - first ==> is_digit(#[trigger] digits[k]),
            value == digits_value(digits.take(index - first)),
            value <= largest,
        decreases end - index,
    {
        let byte = text[index];
        assert(byte == digits[index - first]);
        if byte < 48 || byte > 57 {
            return None;
        }
        let ghost read = digits.take(index - first + 1);
        assert(read.drop_last() =~= digits.take(index - first));
        value = value * 10 + (byte - 48) as u64;
        index += 1;
        if value > largest as u64 {
            proof {
                if number_of(text@) is Some {
                    lemma_digits_value_grows(digits, index - first);
                }
            }
            return None;
        }
    }
    assert(digits.take(index - first) =~= digits);
    Some(value as u32)
}

} // verus!
