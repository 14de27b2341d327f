use self_stream::alloc_log::MyAllocator;

fn text<const N: usize>(line: [u8; N]) -> String {
    String::from_utf8(line.to_vec()).unwrap()
}

#[test]
fn allocation_line_holds_the_size() {
    let line = text(MyAllocator.alloc_message(12));
    assert_eq!(line, "allocating 00000000000012 bytes\n");
    assert_eq!(line.len(), 32);
}

#[test]
fn deallocation_line_holds_the_size() {
    let line = text(MyAllocator.dealloc_message(4096));
    assert_eq!(line, "deallocating 00000000004096 bytes\n");
    assert_eq!(line.len(), 34);
}

#[test]
fn zero_size_leaves_the_field_zero() {
    assert_eq!(text(MyAllocator.alloc_message(0)), "allocating 00000000000000 bytes\n");
    assert_eq!(text(MyAllocator.dealloc_message(0)), "deallocating 00000000000000 bytes\n");
}

#[test]
fn fourteen_digits_fill_the_field() {
    assert_eq!(
        text(MyAllocator.alloc_message(99_999_999_999_999)),
        "allocating 99999999999999 bytes\n"
    );
}

#[test]
fn longer_sizes_run_into_the_prefix() {
    assert_eq!(
        text(MyAllocator.alloc_message(100_000_000_000_000)),
        "allocating100000000000000 bytes\n"
    );
    assert_eq!(
        text(MyAllocator.alloc_message(u64::MAX)),
        "alloc18446744073709551615 bytes\n"
    );
    assert_eq!(
        text(MyAllocator.dealloc_message(u64::MAX)),
        "dealloc18446744073709551615 bytes\n"
    );
}

#[test]
fn second_words_sum_to_the_bytes_allocated() {
    let sizes = [1u64, 8, 24, 1024, 131072, 7];
    let mut sum = 0u64;
    for size in sizes {
        let line = text(MyAllocator.alloc_message(size));
        assert!(line.starts_with("allocating "));
        sum += line.split_whitespace().nth(1).unwrap().parse::<u64>().unwrap();
    }
    assert_eq!(sum, sizes.iter().sum::<u64>());
}
