use linecount::error::CountError;
use linecount::parallel::{count_chunk, count_parallel};
use linecount::plan::{plan, ChunkDescriptor};
use linecount::reduce::total_count;
use linecount::scan::count_bytes;

fn naive(bytes: &[u8], delimiter: u8) -> u64 {
    bytes.iter().filter(|&&b| b == delimiter).count() as u64
}

/// Bytes without any pattern that a chunk size could line up with.
fn sample(length: usize) -> Vec<u8> {
    let mut state: u32 = 12345;
    let mut bytes = Vec::with_capacity(length);
    for _ in 0..length {
        state = state.wrapping_mul(1103515245).wrapping_add(12345);
        let pick = (state >> 16) % 5;
        bytes.push(if pick == 0 { b'\n' } else { b'a' + pick as u8 });
    }
    bytes
}

#[test]
fn count_bytes_counts_the_delimiter() {
    assert_eq!(count_bytes(b"", b'\n'), 0);
    assert_eq!(count_bytes(b"a\nb\nc\n", b'\n'), 3);
    assert_eq!(count_bytes(b"\n\n\n\n", b'\n'), 4);
    assert_eq!(count_bytes(b"no line end", b'\n'), 0);
    assert_eq!(count_bytes(b"Hello, this is the text!", b' '), 4);
}

#[test]
fn count_bytes_agrees_with_a_plain_scan_on_long_input() {
    for length in [0usize, 1, 7, 8, 15, 16, 31, 32, 33, 100, 1000, 4097] {
        let bytes = sample(length);
        assert_eq!(count_bytes(&bytes, b'\n'), naive(&bytes, b'\n'));
        assert_eq!(count_bytes(&bytes, b'b'), naive(&bytes, b'b'));
    }
}

#[test]
fn count_chunk_counts_only_its_own_bytes() {
    let data = b"..\n..\n...\n";
    let first = ChunkDescriptor { start_offset: 0, length: 4 };
    let second = ChunkDescriptor { start_offset: 4, length: 4 };
    let last = ChunkDescriptor { start_offset: 8, length: 2 };
    assert_eq!(count_chunk(data, &first, b'\n'), 1);
    assert_eq!(count_chunk(data, &second, b'\n'), 1);
    assert_eq!(count_chunk(data, &last, b'\n'), 1);
    let nothing = ChunkDescriptor { start_offset: 10, length: 0 };
    assert_eq!(count_chunk(data, &nothing, b'\n'), 0);
}

#[test]
fn parallel_count_refuses_zero_chunk_size() {
    assert_eq!(count_parallel(b"a\nb\n", 0, b'\n'), Err(CountError::InvalidConfig));
    assert_eq!(count_parallel(b"", 0, b'\n'), Err(CountError::InvalidConfig));
}

#[test]
fn parallel_count_of_empty_input_is_zero() {
    assert_eq!(count_parallel(b"", 1, b'\n'), Ok(0));
    assert_eq!(count_parallel(b"", 8388608, b'\n'), Ok(0));
}

#[test]
fn parallel_count_of_three_lines() {
    assert_eq!(count_parallel(b"a\nb\nc\n", 8388608, b'\n'), Ok(3));
    assert_eq!(count_parallel(b"a\nb\nc\n", 4, b'\n'), Ok(3));
}

#[test]
fn parallel_count_does_not_depend_on_the_chunk_size() {
    let data = sample(257);
    let expected = naive(&data, b'\n');
    let length = data.len() as u64;
    for chunk_size in [1, 2, 3, 7, 64, 100, length - 1, length, length + 1, u64::MAX] {
        assert_eq!(count_parallel(&data, chunk_size, b'\n'), Ok(expected));
    }
}

#[test]
fn parallel_count_of_a_length_that_is_no_multiple_of_the_chunk_size() {
    // ten bytes, line ends at the offsets 2, 5 and 9
    let data = b"ab\ncd\nefg\n";
    assert_eq!(data.len(), 10);
    let chunks = plan(10, 4).unwrap();
    assert_eq!(chunks.len(), 3);
    assert_eq!(chunks[2], ChunkDescriptor { start_offset: 8, length: 2 });
    let partials: Vec<u64> = chunks.iter().map(|c| count_chunk(data, c, b'\n')).collect();
    assert_eq!(partials, vec![1, 1, 1]);
    assert_eq!(count_parallel(data, 4, b'\n'), Ok(3));
}

#[test]
fn parallel_count_of_another_delimiter() {
    assert_eq!(count_parallel(b"a,b,,c", 2, b','), Ok(3));
    assert_eq!(count_parallel(b"a,b,,c", 2, b'\n'), Ok(0));
}

#[test]
fn parallel_count_is_the_sum_of_the_partial_counts() {
    let data = sample(1000);
    for chunk_size in [1u64, 13, 128, 999, 1000, 1001] {
        let chunks = plan(data.len() as u64, chunk_size).unwrap();
        let partials: Vec<Result<u64, CountError>> =
            chunks.iter().map(|c| Ok(count_chunk(&data, c, b'\n'))).collect();
        assert_eq!(total_count(&partials), Ok(naive(&data, b'\n')));
        assert_eq!(total_count(&partials), count_parallel(&data, chunk_size, b'\n'));
    }
}

#[test]
fn total_count_adds_the_partial_counts() {
    assert_eq!(total_count(&vec![]), Ok(0));
    assert_eq!(total_count(&vec![Ok(5)]), Ok(5));
    assert_eq!(total_count(&vec![Ok(1), Ok(0), Ok(2)]), Ok(3));
    assert_eq!(total_count(&vec![Ok(u64::MAX - 1), Ok(1)]), Ok(u64::MAX));
}

#[test]
fn total_count_fails_with_the_first_failure() {
    assert_eq!(total_count(&vec![Err(CountError::IoError)]), Err(CountError::IoError));
    assert_eq!(
        total_count(&vec![Ok(1), Err(CountError::IoError), Ok(2)]),
        Err(CountError::IoError)
    );
    assert_eq!(
        total_count(&vec![Ok(1), Err(CountError::IoError), Err(CountError::InvalidConfig)]),
        Err(CountError::IoError)
    );
    assert_eq!(
        total_count(&vec![Err(CountError::InvalidConfig), Err(CountError::IoError)]),
        Err(CountError::InvalidConfig)
    );
}

#[test]
fn total_count_of_a_failure_does_not_need_the_sum_to_fit() {
    assert_eq!(
        total_count(&vec![Ok(u64::MAX), Ok(u64::MAX), Err(CountError::IoError)]),
        Err(CountError::IoError)
    );
}
