use self_stream::digits;

fn digits_iterator(n: u64) -> Vec<u64> {
    let mut it = digits::digits_iterator(n);
    let count = it.len();
    let mut out = Vec::new();
    while let Some(d) = it.next_digit() {
        out.push(d);
    }
    assert_eq!(out.len(), count);
    assert_eq!(it.next_digit(), None);
    out
}

fn expected(n: u64) -> Vec<u64> {
    if n == 0 {
        return Vec::new();
    }
    n.to_string().bytes().map(|b| (b - b'0') as u64).collect()
}

#[test]
fn zero_has_no_digits() {
    assert_eq!(digits_iterator(0), Vec::<u64>::new());
}

#[test]
fn single_digits() {
    for n in 1..10u64 {
        assert_eq!(digits_iterator(n), vec![n]);
    }
}

#[test]
fn digits_most_significant_first() {
    assert_eq!(digits_iterator(120), vec![1, 2, 0]);
    assert_eq!(digits_iterator(4096), vec![4, 0, 9, 6]);
    assert_eq!(digits_iterator(1000), vec![1, 0, 0, 0]);
}

#[test]
fn largest_values() {
    assert_eq!(
        digits_iterator(u64::MAX),
        vec![1, 8, 4, 4, 6, 7, 4, 4, 0, 7, 3, 7, 0, 9, 5, 5, 1, 6, 1, 5]
    );
    let mut ten_to_19 = vec![1];
    ten_to_19.extend(std::iter::repeat(0).take(19));
    assert_eq!(digits_iterator(10_000_000_000_000_000_000), ten_to_19);
    assert_eq!(digits_iterator(9_999_999_999_999_999_999), vec![9; 19]);
}

#[test]
fn powers_of_two_and_ten_and_their_neighbours() {
    let mut values = Vec::new();
    for k in 0..64u32 {
        let p = 1u64 << k;
        values.push(p);
        values.push(p - 1);
        values.push(p.saturating_add(1));
    }
    for k in 0..20u32 {
        let p = 10u64.pow(k);
        values.push(p);
        values.push(p - 1);
        values.push(p + 1);
    }
    for n in values {
        assert_eq!(digits_iterator(n), expected(n), "digits of {}", n);
    }
}

#[test]
fn digits_read_back_as_the_number() {
    let mut n: u64 = 1;
    while n < u64::MAX / 7 {
        let digits = digits_iterator(n);
        assert!(digits[0] != 0);
        let value = digits.iter().fold(0u64, |acc, d| acc * 10 + d);
        assert_eq!(value, n);
        n = n * 7 + 3;
    }
}

#[test]
fn digits_come_one_at_a_time() {
    let mut it = digits::digits_iterator(305);
    assert_eq!(it.len(), 3);
    assert_eq!(it.next_digit(), Some(3));
    assert_eq!(it.len(), 2);
    assert_eq!(it.next_digit(), Some(0));
    assert_eq!(it.next_digit(), Some(5));
    assert_eq!(it.len(), 0);
    assert_eq!(it.next_digit(), None);
    assert_eq!(it.next_digit(), None);
}
