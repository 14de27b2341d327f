//! The report lines of the logging allocator.
//!
//! For every allocation the allocator writes `allocating NNNNNNNNNNNNNN bytes\n`, and
//! for every deallocation `deallocating NNNNNNNNNNNNNN bytes\n`, where the fourteen
//! character field holds the size in decimal, right-aligned and padded with zeros, so that
//! the second word of each line can be summed to get the number of bytes requested.
use vstd::prelude::*;
use crate::digits::{
    decimal_digits, decimal_value, digits_iterator, exp10, lemma_decimal_digits_canonical,
    lemma_digit_count_bound, lemma_leading_zeros_value, zero_digits,
};

verus! {

/// Width of the decimal field that holds the size.
pub const FIELD_WIDTH: usize = 14;

/// The allocator that reports each allocation and deallocation before handing it on.
pub struct MyAllocator;

/// ASCII code of the character `0`.
pub open spec fn ascii_zero() -> u8 {
    48u8
}

/// `k` ASCII zeros.
pub open spec fn ascii_zeros(k: nat) -> Seq<u8> {
    Seq::new(k, |i: int| ascii_zero())
}

/// `allocating ` in ASCII.
pub open spec fn allocating_prefix() -> Seq<u8> {
    seq![97u8, 108u8, 108u8, 111u8, 99u8, 97u8, 116u8, 105u8, 110u8, 103u8, 32u8]
}

/// `deallocating ` in ASCII.
pub open spec fn deallocating_prefix() -> Seq<u8> {
    seq![100u8, 101u8, 97u8, 108u8, 108u8, 111u8, 99u8, 97u8, 116u8, 105u8, 110u8, 103u8, 32u8]
}

/// ` bytes` and a line feed in ASCII.
pub open spec fn bytes_suffix() -> Seq<u8> {
    seq![32u8, 98u8, 121u8, 116u8, 101u8, 115u8, 10u8]
}

/// A report line before the size is written into it: the prefix, a field of zeros and
/// the suffix.
pub open spec fn line_template(prefix: Seq<u8>) -> Seq<u8> {
    prefix + ascii_zeros(FIELD_WIDTH as nat) + bytes_suffix()
}

/// Index of the last character of the size field of a line.
pub open spec fn field_end(line_len: int) -> int {
    line_len - 8
}

/// `line` with the ASCII form of `digits` written so that the last digit stands at
/// index `end`; a digit that lands before the field overwrites the prefix.
pub open spec fn stamp_digits(line: Seq<u8>, end: int, digits: Seq<u64>) -> Seq<u8> {
    Seq::new(
        line.len(),
        |j: int|
            if end - digits.len() < j <= end {
                (digits[digits.len() - 1 - (end - j)] + ascii_zero()) as u8
            } else {
                line[j]
            },
    )
}

/// The report line for a size, given the prefix of its kind.
pub open spec fn report_line(prefix: Seq<u8>, size: u64) -> Seq<u8> {
    let template = line_template(prefix);
    stamp_digits(template, field_end(template.len() as int), decimal_digits(size as nat))
}

/// The numbers that the ASCII digits of `bytes` stand for.
pub open spec fn ascii_digit_values(bytes: Seq<u8>) -> Seq<u64> {
    bytes.map_values(|b: u8| (b - ascii_zero()) as u64)
}

/// Every byte of `bytes` is an ASCII decimal digit.
pub open spec fn all_ascii_digits(bytes: Seq<u8>) -> bool {
    forall|i: int| 0 <= i < bytes.len() ==> 48 <= #[trigger] bytes[i] <= 57
}

/// Writes the decimal digits of `size` into `line`, most significant first, so that the
/// last digit stands at index `end`.
fn stamp<const N: usize>(line: &mut [u8; N], end: usize, size: u64)
    requires
        19 <= end < N,
    ensures
        final(line)@ == stamp_digits(old(line)@, end as int, decimal_digits(size as nat)),
{
    let ghost template = line@;
    let ghost all = decimal_digits(size as nat);
    proof {
        lemma_decimal_digits_canonical(size as nat);
    }
    let mut digits = digits_iterator(size);
    let count = digits.len();
    let first = end + 1 - count;
    let mut i: usize = 0;
    while i < count
        invariant
            digits.wf(),
            all == decimal_digits(size as nat),
            forall|t: int| 0 <= t < all.len() ==> #[trigger] all[t] < 10,
            count == all.len(),
            count <= 20,
            19 <= end < N,
            first == end + 1 - count,
            i <= count,
            digits.remaining() == all.skip(i as int),
            line@.len() == template.len(),
            template.len() == N,
            forall|j: int|
                0 <= j < N ==> #[trigger] line@[j] == (if first <= j < first + i {
                    (all[j - first] + ascii_zero()) as u8
                } else {
                    template[j]
                }),
        decreases count - i,
    {
        let next = digits.next_digit();
        proof {
            assert(all.skip(i as int)[0] == all[i as int]);
            assert(all.skip(i as int).drop_first() =~= all.skip(i + 1));
        }
        match next {
            Some(digit) => {
                line[first + i] = digit as u8 + 48u8;
            },
            None => {},
        }
        i = i + 1;
    }
    assert(line@ =~= stamp_digits(template, end as int, all));
}

impl MyAllocator {
    /// The line reported when `size` bytes are allocated.
    pub fn alloc_message(&self, size: u64) -> (line: [u8; 32])
        ensures
            line@ == report_line(allocating_prefix(), size),
    {
        let mut line: [u8; 32] = [
            97u8, 108u8, 108u8, 111u8, 99u8, 97u8, 116u8, 105u8, 110u8, 103u8, 32u8,
            48u8, 48u8, 48u8, 48u8, 48u8, 48u8, 48u8, 48u8, 48u8, 48u8, 48u8, 48u8, 48u8, 48u8,
            32u8, 98u8, 121u8, 116u8, 101u8, 115u8, 10u8,
        ];
        assert(line@ =~= line_template(allocating_prefix()));
        stamp(&mut line, 24, size);
        line
    }

    /// The line reported when `size` bytes are released.
    pub fn dealloc_message(&self, size: u64) -> (line: [u8; 34])
        ensures
            line@ == report_line(deallocating_prefix(), size),
    {
        let mut line: [u8; 34] = [
            100u8, 101u8, 97u8, 108u8, 108u8, 111u8, 99u8, 97u8, 116u8, 105u8, 110u8, 103u8, 32u8,
            48u8, 48u8, 48u8, 48u8, 48u8, 48u8, 48u8, 48u8, 48u8, 48u8, 48u8, 48u8, 48u8, 48u8,
            32u8, 98u8, 121u8, 116u8, 101u8, 115u8, 10u8,
        ];
        assert(line@ =~= line_template(deallocating_prefix()));
        stamp(&mut line, 26, size);
        line
    }
}

/// A report line is the template of its kind with the size written into the field; when
/// the size has at most fourteen digits, the field holds only ASCII digits, they read as
/// the size in decimal, and the prefix and suffix are left as they are.
pub proof fn lemma_report_line_reads_size(prefix: Seq<u8>, size: u64)
    requires
        size < exp10(FIELD_WIDTH as nat),
    ensures
        ({
            let line = report_line(prefix, size);
            let start = prefix.len() as int;
            let field = line.subrange(start, start + FIELD_WIDTH as int);
            &&& line.len() == prefix.len() + FIELD_WIDTH + 7
            &&& line.subrange(0, start) == prefix
            &&& line.subrange(start + FIELD_WIDTH as int, line.len() as int) == bytes_suffix()
            &&& all_ascii_digits(field)
            &&& decimal_value(ascii_digit_values(field)) == size
        }),
{
    let line = report_line(prefix, size);
    let start = prefix.len() as int;
    let template = line_template(prefix);
    let digits = decimal_digits(size as nat);
    let k = digits.len();
    lemma_digit_count_bound(size as nat, FIELD_WIDTH as nat);
    lemma_decimal_digits_canonical(size as nat);
    let field = line.subrange(start, start + FIELD_WIDTH as int);
    let values = zero_digits((FIELD_WIDTH - k) as nat) + digits;
    assert forall|j: int| 0 <= j < FIELD_WIDTH implies #[trigger] field[j] == (values[j] + ascii_zero()) as u8 by {
        assert(field[j] == line[start + j]);
        assert(template[start + j] == ascii_zero());
        if j < FIELD_WIDTH - k {
            assert(values[j] == 0);
        } else {
            assert(values[j] == digits[j - (FIELD_WIDTH - k)]);
            assert(digits[j - (FIELD_WIDTH - k)] < 10);
        }
    }
    assert forall|j: int| 0 <= j < FIELD_WIDTH implies 48 <= #[trigger] field[j] <= 57 by {
        if j >= FIELD_WIDTH - k {
            assert(digits[j - (FIELD_WIDTH - k)] < 10);
        }
        assert(field[j] == (values[j] + ascii_zero()) as u8);
    }
    assert(ascii_digit_values(field) =~= values);
    lemma_leading_zeros_value((FIELD_WIDTH - k) as nat, digits);
    assert(line.subrange(0, start) =~= prefix);
    assert(line.subrange(start + FIELD_WIDTH as int, line.len() as int) =~= bytes_suffix());
}

} // verus!
