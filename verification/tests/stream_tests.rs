use linecount::fill::{ChunkFill, FillStep};
use linecount::error::CountError;
use linecount::plan::{plan, ChunkDescriptor};
use linecount::scan::count_bytes;
use linecount::stream::{StreamCounter, StreamStep};

/// A source that hands out at most `limit` bytes at a call, however large the
/// buffer is.
struct ShortReader<'a> {
    data: &'a [u8],
    position: usize,
    limit: usize,
}

impl<'a> ShortReader<'a> {
    fn new(data: &'a [u8], limit: usize) -> Self {
        ShortReader { data, position: 0, limit }
    }

    fn seek(&mut self, offset: u64) {
        self.position = (offset as usize).min(self.data.len());
    }

    fn read(&mut self, buffer: &mut [u8]) -> usize {
        let left = self.data.len() - self.position;
        let n = left.min(buffer.len()).min(self.limit);
        buffer[..n].copy_from_slice(&self.data[self.position..self.position + n]);
        self.position += n;
        n
    }
}

fn count_stream(reader: &mut ShortReader, buffer_len: usize, delimiter: u8) -> u64 {
    let mut counter = StreamCounter::new(delimiter);
    let mut buffer = vec![0u8; buffer_len];
    loop {
        let n = reader.read(&mut buffer);
        if counter.feed(&buffer[..n]) == StreamStep::Finished {
            break;
        }
    }
    assert!(counter.is_finished());
    counter.total()
}

/// Reads one chunk as the steps say and returns the sizes of the reads that
/// were asked for, with the count of the chunk.
fn read_chunk(reader: &mut ShortReader, chunk: &ChunkDescriptor, delimiter: u8) -> (Vec<usize>, u64) {
    let mut fill = ChunkFill::for_chunk(chunk).unwrap();
    let mut buffer = vec![0u8; chunk.length as usize];
    let mut asked = Vec::new();
    reader.seek(chunk.start_offset);
    loop {
        match fill.next_step() {
            FillStep::Read { from, to } => {
                asked.push(to - from);
                let n = reader.read(&mut buffer[from..to]);
                fill.record(n);
            }
            FillStep::Done { filled } => return (asked, count_bytes(&buffer[..filled], delimiter)),
        }
    }
}

fn naive(bytes: &[u8], delimiter: u8) -> u64 {
    bytes.iter().filter(|&&b| b == delimiter).count() as u64
}

#[test]
fn new_counter_has_counted_nothing() {
    let counter = StreamCounter::new(b'\n');
    assert_eq!(counter.total(), 0);
    assert!(!counter.is_finished());
}

#[test]
fn empty_stream_counts_zero() {
    let mut counter = StreamCounter::new(b'\n');
    assert_eq!(counter.feed(b""), StreamStep::Finished);
    assert!(counter.is_finished());
    assert_eq!(counter.total(), 0);
}

#[test]
fn stream_of_three_lines() {
    let mut counter = StreamCounter::new(b'\n');
    assert_eq!(counter.feed(b"a\nb\nc\n"), StreamStep::ReadMore);
    assert_eq!(counter.total(), 3);
    assert_eq!(counter.feed(b""), StreamStep::Finished);
    assert_eq!(counter.total(), 3);
}

#[test]
fn counts_add_up_over_the_reads() {
    let mut counter = StreamCounter::new(b'\n');
    assert_eq!(counter.feed(b"a\n"), StreamStep::ReadMore);
    assert_eq!(counter.total(), 1);
    assert_eq!(counter.feed(b"b"), StreamStep::ReadMore);
    assert_eq!(counter.total(), 1);
    assert_eq!(counter.feed(b"\n\n"), StreamStep::ReadMore);
    assert_eq!(counter.total(), 3);
}

#[test]
fn reads_after_the_end_are_left_aside() {
    let mut counter = StreamCounter::new(b'\n');
    counter.feed(b"\n");
    assert_eq!(counter.feed(b""), StreamStep::Finished);
    assert_eq!(counter.feed(b"\n\n\n"), StreamStep::Finished);
    assert_eq!(counter.total(), 1);
    assert!(counter.is_finished());
}

#[test]
fn stream_counts_the_chosen_delimiter() {
    let mut counter = StreamCounter::new(b';');
    counter.feed(b"a;b\n;");
    assert_eq!(counter.total(), 2);
}

#[test]
fn short_reads_give_the_same_count() {
    let data = b"one\ntwo\n\nthree\nfour without end";
    let expected = naive(data, b'\n');
    assert_eq!(expected, 4);
    for limit in [1usize, 2, 3, 5, 1000] {
        for buffer_len in [1usize, 4, 7, 64] {
            let mut reader = ShortReader::new(data, limit);
            assert_eq!(count_stream(&mut reader, buffer_len, b'\n'), expected);
        }
    }
}

#[test]
fn stream_and_bytes_agree() {
    let data = b"a\nb\nc\n";
    let mut reader = ShortReader::new(data, 4);
    assert_eq!(count_stream(&mut reader, 4, b'\n'), count_bytes(data, b'\n'));
}

#[test]
fn fill_asks_for_the_whole_chunk_first() {
    let fill = ChunkFill::new(4);
    assert_eq!(fill.next_step(), FillStep::Read { from: 0, to: 4 });
}

#[test]
fn fill_of_an_empty_chunk_is_done_at_once() {
    let fill = ChunkFill::new(0);
    assert_eq!(fill.next_step(), FillStep::Done { filled: 0 });
}

#[test]
fn fill_asks_again_after_a_short_read() {
    let mut fill = ChunkFill::new(10);
    fill.record(3);
    assert_eq!(fill.next_step(), FillStep::Read { from: 3, to: 10 });
    fill.record(6);
    assert_eq!(fill.next_step(), FillStep::Read { from: 9, to: 10 });
    fill.record(1);
    assert_eq!(fill.next_step(), FillStep::Done { filled: 10 });
}

#[test]
fn fill_stops_where_the_input_ends() {
    let mut fill = ChunkFill::new(10);
    fill.record(4);
    fill.record(0);
    assert_eq!(fill.next_step(), FillStep::Done { filled: 4 });
    fill.record(0);
    assert_eq!(fill.next_step(), FillStep::Done { filled: 4 });
}

#[test]
fn fill_for_chunk_has_the_length_of_the_chunk() {
    let chunk = ChunkDescriptor { start_offset: 8, length: 2 };
    let fill = ChunkFill::for_chunk(&chunk).unwrap();
    assert_eq!(fill.next_step(), FillStep::Read { from: 0, to: 2 });
}

#[test]
fn fill_for_chunk_refuses_what_no_buffer_can_hold() {
    let chunk = ChunkDescriptor { start_offset: 0, length: u64::MAX };
    let result = ChunkFill::for_chunk(&chunk);
    if usize::BITS < 64 {
        assert!(matches!(result, Err(CountError::InvalidConfig)));
    } else {
        assert!(result.is_ok());
    }
}

#[test]
fn last_chunk_of_ten_bytes_is_read_with_two_bytes() {
    let data = b"ab\ncd\nefg\n";
    let chunks = plan(data.len() as u64, 4).unwrap();
    let mut reader = ShortReader::new(data, 1000);
    let mut sizes = Vec::new();
    let mut total = 0;
    for chunk in &chunks {
        let (asked, count) = read_chunk(&mut reader, chunk, b'\n');
        sizes.push(asked);
        total += count;
    }
    assert_eq!(sizes, vec![vec![4], vec![4], vec![2]]);
    assert_eq!(total, 3);
}

#[test]
fn chunks_read_with_short_reads_give_the_same_count() {
    let data = b"one\ntwo\n\nthree\nfour without end\n";
    let expected = naive(data, b'\n');
    for limit in [1usize, 2, 3, 1000] {
        for chunk_size in [1u64, 4, 5, 31, 32, 33] {
            let chunks = plan(data.len() as u64, chunk_size).unwrap();
            let mut reader = ShortReader::new(data, limit);
            let mut total = 0;
            for chunk in &chunks {
                let (asked, count) = read_chunk(&mut reader, chunk, b'\n');
                assert!(asked.iter().all(|&n| n >= 1 && n as u64 <= chunk.length));
                total += count;
            }
            assert_eq!(total, expected);
        }
    }
}

#[test]
fn chunk_behind_the_end_of_the_input_counts_what_is_there() {
    let data = b"a\nb\n";
    let mut reader = ShortReader::new(data, 1000);
    let chunk = ChunkDescriptor { start_offset: 2, length: 8 };
    let (asked, count) = read_chunk(&mut reader, &chunk, b'\n');
    assert_eq!(asked, vec![8, 6]);
    assert_eq!(count, 1);
}
