use audio_hub::channel::{DeliveryChannel, EndMarker, Offer, Taken};
use audio_hub::chunk::{Chunk, ONE_MB};
use audio_hub::reader::{ChunkedReader, Produced};
use audio_hub::session::{Session, Step};
use audio_hub::source::{absorb, ByteSource, Fill, MemorySource, ReadOutcome};
use std::cell::Cell;
use std::rc::Rc;

fn bytes(n: usize) -> Vec<u8> {
    (0..n).map(|i| (i % 251) as u8).collect()
}

/// Drives a session to its end, taking every chunk as it comes.
fn run_to_end<T: ByteSource>(session: &mut Session<T>, channel: &mut DeliveryChannel) -> (Vec<Chunk>, EndMarker) {
    let mut chunks = Vec::new();
    loop {
        if session.is_producing() {
            session.step(channel);
        }
        match channel.take() {
            Taken::Chunk(c) => chunks.push(c),
            Taken::End(m) => return (chunks, m),
            Taken::Empty => assert!(session.is_producing()),
        }
    }
}

fn read_all<T: ByteSource>(mut reader: ChunkedReader<T>) -> (Vec<Chunk>, bool) {
    let mut chunks = Vec::new();
    loop {
        match reader.next() {
            Produced::Chunk(c) => chunks.push(c),
            Produced::Done => return (chunks, true),
            Produced::Failed(_) => return (chunks, false),
        }
    }
}

/// A source that hands out its bytes a few at a time, counts its reads, and
/// fails once `fail_after` bytes are out, if that is set.
struct TestSource {
    data: Vec<u8>,
    pos: usize,
    step: usize,
    fail_after: Option<usize>,
    reads: Rc<Cell<usize>>,
}

impl TestSource {
    fn new(data: Vec<u8>, step: usize, fail_after: Option<usize>) -> (TestSource, Rc<Cell<usize>>) {
        let reads = Rc::new(Cell::new(0));
        (TestSource { data, pos: 0, step, fail_after, reads: reads.clone() }, reads)
    }
}

impl ByteSource for TestSource {
    fn read_bytes(&mut self, max: usize) -> ReadOutcome {
        self.reads.set(self.reads.get() + 1);
        if let Some(limit) = self.fail_after {
            if self.pos >= limit {
                return ReadOutcome::Failed(String::from("disk error"));
            }
        }
        let n = max.min(self.step).min(self.data.len() - self.pos);
        let out = self.data[self.pos..self.pos + n].to_vec();
        self.pos += n;
        ReadOutcome::Bytes(out)
    }
}

#[test]
fn should_stream_file() {
    let expected = bytes(3 * 1000 + 17);
    let (mut session, mut channel) = Session::start(MemorySource::new(expected.clone()), 1000, 4);
    let (chunks, end) = run_to_end(&mut session, &mut channel);
    let mut actual = Vec::new();
    for mut c in chunks {
        actual.append(&mut c.payload);
    }
    assert_eq!(actual, expected);
    assert!(matches!(end, EndMarker::Done));
}

#[test]
fn new_reader_uses_one_mebibyte_chunks() {
    let reader = ChunkedReader::new(MemorySource::new(vec![1, 2, 3]));
    assert_eq!(reader.chunk_size(), ONE_MB);
    assert_eq!(reader.chunk_size(), 1048576);
    let (chunks, clean) = read_all(reader);
    assert!(clean);
    assert_eq!(chunks.len(), 1);
    assert_eq!(chunks[0].payload, vec![1, 2, 3]);
}

#[test]
fn chunk_count_and_last_length() {
    for (len, size, count, last) in [(10usize, 4usize, 3usize, 2usize), (8, 4, 2, 4), (1, 4, 1, 1), (4, 1, 4, 1), (9, 3, 3, 3)] {
        let data = bytes(len);
        let (chunks, clean) = read_all(ChunkedReader::with_chunk_size(MemorySource::new(data.clone()), size));
        assert!(clean);
        assert_eq!(chunks.len(), count);
        assert_eq!(chunks.last().unwrap().payload.len(), last);
        let mut joined = Vec::new();
        for (i, c) in chunks.iter().enumerate() {
            assert_eq!(c.sequence_number, i as u64);
            if i + 1 < chunks.len() {
                assert_eq!(c.payload.len(), size);
            }
            joined.extend_from_slice(&c.payload);
        }
        assert_eq!(joined, data);
    }
}

#[test]
fn empty_source_yields_no_chunk() {
    let (chunks, clean) = read_all(ChunkedReader::with_chunk_size(MemorySource::new(Vec::new()), 4));
    assert!(clean);
    assert!(chunks.is_empty());
}

#[test]
fn short_reads_still_fill_chunks() {
    let data = bytes(23);
    let (source, reads) = TestSource::new(data.clone(), 3, None);
    let (chunks, clean) = read_all(ChunkedReader::with_chunk_size(source, 10));
    assert!(clean);
    let sizes: Vec<usize> = chunks.iter().map(|c| c.payload.len()).collect();
    assert_eq!(sizes, vec![10, 10, 3]);
    assert!(reads.get() > 3);
}

#[test]
fn two_and_a_half_mebibytes_make_three_chunks() {
    let data = bytes(2 * ONE_MB + ONE_MB / 2);
    let (mut session, mut channel) = Session::start(MemorySource::new(data.clone()), ONE_MB, 128);
    let (chunks, end) = run_to_end(&mut session, &mut channel);
    let sizes: Vec<usize> = chunks.iter().map(|c| c.payload.len()).collect();
    assert_eq!(sizes, vec![1048576, 1048576, 524288]);
    let numbers: Vec<u64> = chunks.iter().map(|c| c.sequence_number).collect();
    assert_eq!(numbers, vec![0, 1, 2]);
    assert!(matches!(end, EndMarker::Done));
    assert!(!session.is_producing());
}

#[test]
fn producer_blocks_at_capacity_until_a_take() {
    let (mut session, mut channel) = Session::start(MemorySource::new(bytes(10)), 1, 2);
    assert!(matches!(session.step(&mut channel), Step::Progressed));
    assert!(matches!(session.step(&mut channel), Step::Progressed));
    assert!(matches!(session.step(&mut channel), Step::Blocked));
    assert!(matches!(session.step(&mut channel), Step::Blocked));
    assert_eq!(channel.len(), 2);
    match channel.take() {
        Taken::Chunk(c) => assert_eq!(c.sequence_number, 0),
        _ => panic!("expected chunk 0"),
    }
    assert!(matches!(session.step(&mut channel), Step::Progressed));
    assert_eq!(channel.len(), 2);
    assert!(matches!(session.step(&mut channel), Step::Blocked));
}

#[test]
fn buffer_never_exceeds_capacity() {
    for capacity in 1..5usize {
        let (mut session, mut channel) = Session::start(MemorySource::new(bytes(40)), 3, capacity);
        let mut round = 0;
        while session.is_producing() {
            session.step(&mut channel);
            assert!(channel.len() <= capacity);
            if round % 3 == 0 {
                channel.take();
            }
            round += 1;
        }
        assert!(channel.len() <= capacity);
    }
}

#[test]
fn cancellation_stops_reads_and_releases() {
    let (source, reads) = TestSource::new(bytes(100), 100, None);
    let (mut session, mut channel) = Session::start(source, 10, 8);
    for _ in 0..3 {
        assert!(matches!(session.step(&mut channel), Step::Progressed));
    }
    for k in 0..2u64 {
        match channel.take() {
            Taken::Chunk(c) => assert_eq!(c.sequence_number, k),
            _ => panic!("expected a chunk"),
        }
    }
    channel.cancel();
    let before = reads.get();
    assert!(matches!(session.step(&mut channel), Step::Finished));
    assert_eq!(reads.get(), before);
    assert!(!session.is_producing());
}

#[test]
fn cancellation_refuses_a_held_chunk() {
    let (mut session, mut channel) = Session::start(MemorySource::new(bytes(10)), 1, 1);
    assert!(matches!(session.step(&mut channel), Step::Progressed));
    assert!(matches!(session.step(&mut channel), Step::Blocked));
    channel.cancel();
    assert!(matches!(session.step(&mut channel), Step::Finished));
    assert!(channel.is_cancelled());
}

#[test]
fn read_failure_after_chunks_is_reported_after_them() {
    let (source, _) = TestSource::new(bytes(100), 4, Some(25));
    let (mut session, mut channel) = Session::start(source, 10, 8);
    let (chunks, end) = run_to_end(&mut session, &mut channel);
    assert_eq!(chunks.len(), 2);
    assert_eq!(chunks[0].sequence_number, 0);
    assert_eq!(chunks[1].sequence_number, 1);
    match end {
        EndMarker::Failed(cause) => assert_eq!(cause, "disk error"),
        EndMarker::Done => panic!("a failed read must not end cleanly"),
    }
    assert!(matches!(channel.take(), Taken::End(EndMarker::Failed(_))));
}

#[test]
fn read_failure_before_any_chunk() {
    let (source, _) = TestSource::new(bytes(100), 4, Some(0));
    let (mut session, mut channel) = Session::start(source, 10, 8);
    let (chunks, end) = run_to_end(&mut session, &mut channel);
    assert!(chunks.is_empty());
    assert!(matches!(end, EndMarker::Failed(_)));
}

#[test]
fn channel_offer_take_close() {
    let mut channel = DeliveryChannel::new(1);
    assert_eq!(channel.capacity(), 1);
    assert!(matches!(channel.take(), Taken::Empty));
    let first = Chunk { sequence_number: 0, payload: vec![7] };
    assert!(matches!(channel.offer(first), Offer::Accepted));
    match channel.offer(Chunk { sequence_number: 1, payload: vec![8] }) {
        Offer::Full(c) => assert_eq!(c.payload, vec![8]),
        _ => panic!("expected full"),
    }
    channel.close(EndMarker::Done);
    channel.close(EndMarker::Failed(String::from("late")));
    assert!(channel.is_closed());
    match channel.take() {
        Taken::Chunk(c) => assert_eq!(c.payload, vec![7]),
        _ => panic!("expected the buffered chunk first"),
    }
    assert!(matches!(channel.take(), Taken::End(EndMarker::Done)));
}

#[test]
fn offer_after_cancel_is_closed() {
    let mut channel = DeliveryChannel::new(2);
    channel.cancel();
    channel.cancel();
    match channel.offer(Chunk { sequence_number: 0, payload: vec![1] }) {
        Offer::Closed(c) => assert_eq!(c.sequence_number, 0),
        _ => panic!("expected closed"),
    }
    assert_eq!(channel.len(), 0);
}

#[test]
fn absorb_appends_ends_and_fails() {
    let mut pending = vec![1u8];
    assert!(matches!(absorb(&mut pending, ReadOutcome::Bytes(vec![2, 3])), Fill::More));
    assert_eq!(pending, vec![1, 2, 3]);
    assert!(matches!(absorb(&mut pending, ReadOutcome::Bytes(Vec::new())), Fill::Exhausted));
    assert_eq!(pending, vec![1, 2, 3]);
    match absorb(&mut pending, ReadOutcome::Failed(String::from("gone"))) {
        Fill::Failed(cause) => assert_eq!(cause, "gone"),
        _ => panic!("expected a failure"),
    }
    assert_eq!(pending, vec![1, 2, 3]);
}

#[test]
fn reader_reports_failed_read_not_clean_end() {
    let (source, _) = TestSource::new(bytes(30), 30, Some(10));
    let mut reader = ChunkedReader::with_chunk_size(source, 10);
    assert!(matches!(reader.next(), Produced::Chunk(_)));
    match reader.next() {
        Produced::Failed(cause) => assert_eq!(cause, "disk error"),
        _ => panic!("a failed read must be reported as a failure"),
    }
    assert!(reader.is_finished());
}
