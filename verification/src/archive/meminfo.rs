//! Reading one field out of the text in which the platform reports its
//! memory: lines of a label, a colon, spaces, a number and a unit.

use vstd::prelude::*;
use vstd::slice::slice_subrange;
use vstd::string::StringSliceAdditionalSpecFns;

verus! {

pub const NEWLINE: u8 = 10;

pub const CARRIAGE_RETURN: u8 = 13;

pub const SPACE: u8 = 32;

pub const PLUS: u8 = 43;

pub const COLON: u8 = 58;

pub const DIGIT_ZERO: u8 = 48;

pub const DIGIT_NINE: u8 = 57;

/// Where `byte` first stands in `s`, or the length of `s` where it does not.
pub open spec fn first_byte(s: Seq<u8>, byte: u8) -> int
    decreases s.len(),
{
    if s.len() == 0 {
        0
    } else if s[0] == byte {
        0
    } else {
        1 + first_byte(s.skip(1), byte)
    }
}

/// Where `byte` last stands in `s`, or -1 where it does not.
pub open spec fn last_byte(s: Seq<u8>, byte: u8) -> int
    decreases s.len(),
{
    if s.len() == 0 {
        -1
    } else if s.last() == byte {
        s.len() - 1
    } else {
        last_byte(s.drop_last(), byte)
    }
}

/// Whether every byte is a decimal digit.
pub open spec fn all_digits(s: Seq<u8>) -> bool {
    forall|i: int| 0 <= i < s.len() ==> DIGIT_ZERO <= #[trigger] s[i] <= DIGIT_NINE
}

/// The number that a run of decimal digits stands for.
pub open spec fn digits_value(s: Seq<u8>) -> int
    decreases s.len(),
{
    if s.len() == 0 {
        0
    } else {
        digits_value(s.drop_last()) * 10 + (s.last() - DIGIT_ZERO)
    }
}

/// The number that a token stands for: decimal digits, at least one, after
/// an optional plus sign, as long as the number fits into 64 bits.
pub open spec fn parsed_number(token: Seq<u8>) -> Option<u64> {
    let digits = if token.len() > 0 && token[0] == PLUS {
        token.skip(1)
    } else {
        token
    };
    if digits.len() > 0 && all_digits(digits) && digits_value(digits) <= u64::MAX {
        Some(digits_value(digits) as u64)
    } else {
        None
    }
}

/// The label of a line: what stands before its first colon.
pub open spec fn label_of(line: Seq<u8>) -> Seq<u8> {
    line.take(first_byte(line, COLON))
}

/// The value of a line: the number in the last but one of the tokens that
/// single spaces part the line into.
pub open spec fn value_of(line: Seq<u8>) -> Option<u64> {
    let last = last_byte(line, SPACE);
    if last < 0 {
        None
    } else {
        let before = last_byte(line.take(last), SPACE);
        parsed_number(line.subrange(before + 1, last))
    }
}

/// The first line of a text, without the line feed that ends it and without
/// a carriage return before that line feed.
pub open spec fn first_line(text: Seq<u8>) -> Seq<u8> {
    let end = first_byte(text, NEWLINE);
    if 0 < end < text.len() && text[end - 1] == CARRIAGE_RETURN {
        text.take(end - 1)
    } else {
        text.take(end)
    }
}

/// The value of the first line of `text` whose label is `field`. A line of
/// that label without a value ends the search.
pub open spec fn field_value(text: Seq<u8>, field: Seq<u8>) -> Option<u64>
    decreases text.len(),
    via field_value_terminates
{
    if text.len() == 0 {
        None
    } else if label_of(first_line(text)) == field {
        value_of(first_line(text))
    } else if first_byte(text, NEWLINE) >= text.len() {
        None
    } else {
        field_value(text.skip(first_byte(text, NEWLINE) + 1), field)
    }
}

#[via_fn]
proof fn field_value_terminates(text: Seq<u8>, field: Seq<u8>) {
    lemma_first_byte(text, NEWLINE);
}

pub proof fn lemma_first_byte(s: Seq<u8>, byte: u8)
    ensures
        0 <= first_byte(s, byte) <= s.len(),
        first_byte(s, byte) < s.len() ==> s[first_byte(s, byte)] == byte,
        forall|j: int| 0 <= j < first_byte(s, byte) ==> s[j] != byte,
    decreases s.len(),
{
    if s.len() != 0 && s[0] != byte {
        lemma_first_byte(s.skip(1), byte);
        assert forall|j: int| 0 <= j < first_byte(s, byte) implies s[j] != byte by {
            if j > 0 {
                assert(s.skip(1)[j - 1] == s[j]);
            }
        }
    }
}

pub proof fn lemma_first_byte_is(s: Seq<u8>, byte: u8, k: int)
    requires
        0 <= k <= s.len(),
        forall|j: int| 0 <= j < k ==> s[j] != byte,
        k < s.len() ==> s[k] == byte,
    ensures
        first_byte(s, byte) == k,
{
    lemma_first_byte(s, byte);
    let f = first_byte(s, byte);
    if f < k {
        assert(s[f] == byte);
    } else if f > k {
        assert(s[k] != byte);
    }
}

pub proof fn lemma_last_byte_is(s: Seq<u8>, byte: u8, k: int)
    requires
        -1 <= k < s.len(),
        forall|j: int| k < j < s.len() ==> s[j] != byte,
        k >= 0 ==> s[k] == byte,
    ensures
        last_byte(s, byte) == k,
    decreases s.len(),
{
    if s.len() > 0 && k < s.len() - 1 {
        assert(s.last() != byte);
        lemma_last_byte_is(s.drop_last(), byte, k);
    }
}

/// A run of digits stands for at least what any of its beginnings stands for.
pub proof fn lemma_digits_value_grows(s: Seq<u8>, k: int)
    requires
        all_digits(s),
        0 <= k <= s.len(),
    ensures
        0 <= digits_value(s.take(k)) <= digits_value(s),
    decreases s.len() - k,
{
    if k == s.len() {
        assert(s.take(k) == s);
        lemma_digits_value_nonnegative(s);
    } else {
        lemma_digits_value_grows(s, k + 1);
        lemma_digits_value_nonnegative(s.take(k));
        assert(s.take(k + 1).drop_last() == s.take(k));
        assert(s.take(k + 1).last() == s[k]);
    }
}

proof fn lemma_digits_value_nonnegative(s: Seq<u8>)
    requires
        all_digits(s),
    ensures
        0 <= digits_value(s),
    decreases s.len(),
{
    if s.len() > 0 {
        assert(all_digits(s.drop_last())) by {
            assert forall|i: int| 0 <= i < s.drop_last().len() implies DIGIT_ZERO
                <= #[trigger] s.drop_last()[i] <= DIGIT_NINE by {
                assert(s.drop_last()[i] == s[i]);
            }
        }
        lemma_digits_value_nonnegative(s.drop_last());
    }
}

/// Where `byte` first stands in `s`, or the length of `s`.
pub fn find_first(s: &[u8], byte: u8) -> (k: usize)
    ensures
        k == first_byte(s@, byte),
        k <= s@.len(),
{
    let mut k: usize = 0;
    while k < s.len() && s[k] != byte
        invariant
            k <= s.len(),
            forall|j: int| 0 <= j < k ==> s@[j] != byte,
        decreases s.len() - k,
    {
        k += 1;
    }
    proof {
        lemma_first_byte_is(s@, byte, k as int);
    }
    k
}

/// Where `byte` last stands in the first `end` bytes of `s`.
pub fn find_last(s: &[u8], end: usize, byte: u8) -> (k: Option<usize>)
    requires
        end <= s@.len(),
    ensures
        match k {
            Some(k) => k == last_byte(s@.take(end as int), byte) && k < end,
            None => last_byte(s@.take(end as int), byte) == -1,
        },
{
    let mut k: usize = end;
    while k > 0 && s[k - 1] != byte
        invariant
            k <= end <= s.len(),
            forall|j: int| k <= j < end ==> s@[j] != byte,
        decreases k,
    {
        k -= 1;
    }
    proof {
        lemma_last_byte_is(s@.take(end as int), byte, k - 1);
    }
    if k == 0 {
        None
    } else {
        Some(k - 1)
    }
}

/// Whether two runs of bytes are the same.
pub fn same_bytes(a: &[u8], b: &[u8]) -> (same: bool)
    ensures
        same == (a@ == b@),
{
    if a.len() != b.len() {
        return false;
    }
    let mut i: usize = 0;
    while i < a.len()
        invariant
            i <= a.len(),
            a.len() == b.len(),
            forall|j: int| 0 <= j < i ==> a@[j] == b@[j],
        decreases a.len() - i,
    {
        if a[i] != b[i] {
            return false;
        }
        i += 1;
    }
    assert(a@ =~= b@);
    true
}

/// The number that a token stands for.
pub fn parse_number(token: &[u8]) -> (number: Option<u64>)
    ensures
        number == parsed_number(token@),
{
    let start: usize = if token.len() > 0 && token[0] == PLUS {
        1
    } else {
        0
    };
    let digits = slice_subrange(token, start, token.len());
    let ghost unsigned = if token@.len() > 0 && token@[0] == PLUS {
        token@.skip(1)
    } else {
        token@
    };
    assert(digits@ == unsigned);
    if digits.len() == 0 {
        return None;
    }
    let mut value: u64 = 0;
    let mut i: usize = 0;
    while i < digits.len()
        invariant
            i <= digits.len(),
            digits@ == unsigned,
            unsigned == if token@.len() > 0 && token@[0] == PLUS {
                token@.skip(1)
            } else {
                token@
            },
            all_digits(digits@.take(i as int)),
            value == digits_value(digits@.take(i as int)),
        decreases digits.len() - i,
    {
        let byte = digits[i];
        let ghost next = digits@.take(i + 1);
        proof {
            assert(next.drop_last() == digits@.take(i as int));
            assert(next.last() == byte);
        }
        if byte < DIGIT_ZERO || byte > DIGIT_NINE {
            assert(!all_digits(digits@)) by {
                if all_digits(digits@) {
                    assert(DIGIT_ZERO <= digits@[i as int] <= DIGIT_NINE);
                }
            }
            return None;
        }
        assert(all_digits(next)) by {
            assert forall|j: int| 0 <= j < next.len() implies DIGIT_ZERO <= #[trigger] next[j]
                <= DIGIT_NINE by {
                if j < i {
                    assert(next[j] == digits@.take(i as int)[j]);
                }
            }
        }
        let digit = (byte - DIGIT_ZERO) as u64;
        let grown = match value.checked_mul(10) {
            Some(tenfold) => tenfold.checked_add(digit),
            None => None,
        };
        match grown {
            Some(grown) => {
                value = grown;
            },
            None => {
                proof {
                    assert(digits_value(next) > u64::MAX);
                    if all_digits(digits@) {
                        lemma_digits_value_grows(digits@, i + 1);
                    }
                }
                return None;
            },
        }
        i += 1;
    }
    assert(digits@.take(digits.len() as int) == digits@);
    Some(value)
}

/// The value of a line.
pub fn line_value(line: &[u8]) -> (value: Option<u64>)
    ensures
        value == value_of(line@),
{
    assert(line@.take(line.len() as int) == line@);
    let last = match find_last(line, line.len(), SPACE) {
        Some(last) => last,
        None => {
            return None;
        },
    };
    let start = match find_last(line, last, SPACE) {
        Some(before) => before + 1,
        None => 0,
    };
    parse_number(slice_subrange(line, start, last))
}

/// The value of the first line of `contents` whose label is `field`, as the
/// platform's report on its memory gives it, in KB.
pub fn read_meminfo_field(contents: &[u8], field: &str) -> (value: Option<u64>)
    ensures
        value == field_value(contents@, field.spec_bytes()),
{
    let wanted = field.as_bytes();
    let mut start: usize = 0;
    assert(contents@.skip(0) == contents@);
    while start < contents.len()
        invariant
            start <= contents.len(),
            wanted@ == field.spec_bytes(),
            field_value(contents@.skip(start as int), wanted@) == field_value(
                contents@,
                wanted@,
            ),
        decreases contents.len() - start,
    {
        let text = slice_subrange(contents, start, contents.len());
        assert(text@ == contents@.skip(start as int));
        let end = find_first(text, NEWLINE);
        let line_end = if 0 < end && end < text.len() && text[end - 1] == CARRIAGE_RETURN {
            end - 1
        } else {
            end
        };
        let line = slice_subrange(text, 0, line_end);
        assert(line@ == first_line(text@));
        let label = slice_subrange(line, 0, find_first(line, COLON));
        assert(label@ == label_of(line@));
        if same_bytes(label, wanted) {
            return line_value(line);
        }
        if end >= text.len() {
            return None;
        }
        assert(text@.skip(end + 1) == contents@.skip(start + end + 1));
        start = start + end + 1;
    }
    None
}

} // verus!
