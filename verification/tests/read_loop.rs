use hring::{
    advance, advance_with, after_read, outcome_of, read_and_parse, MemoryStream, ParseFailure,
    ParseOutcome, Progress, ReadError, ReadStatus, ReceiveBuffer, SemanticError,
};
use nom::error::ErrorKind;
use nom::IResult;

/// One length byte, then that many bytes of body.
fn frame(input: &[u8]) -> IResult<&[u8], Vec<u8>> {
    nom::combinator::map(
        nom::multi::length_data(nom::number::streaming::u8),
        |body: &[u8]| body.to_vec(),
    )(input)
}

/// The word `ping`, then a line feed.
fn ping(input: &[u8]) -> IResult<&[u8], u32> {
    nom::combinator::map(nom::bytes::streaming::tag("ping\n".as_bytes()), |_| 7u32)(input)
}

/// As `ping`, but a mismatch is unrecoverable.
fn strict_ping(input: &[u8]) -> IResult<&[u8], u32> {
    nom::combinator::cut(ping)(input)
}

fn never(_input: &[u8]) -> IResult<&[u8], ()> {
    Err(nom::Err::Incomplete(nom::Needed::Unknown))
}

fn buffer_with(bytes: &[u8], free: usize) -> ReceiveBuffer {
    let mut buf = ReceiveBuffer::with_capacity(bytes.len() + free);
    assert!(buf.put(bytes));
    buf
}

fn drain(stream: &mut MemoryStream) -> Vec<u8> {
    let mut all = Vec::new();
    while stream.segments_left() > 0 {
        all.extend(stream.read(usize::MAX));
    }
    all
}

fn split(bytes: &[u8], sizes: &[usize]) -> Vec<Vec<u8>> {
    let mut segments = Vec::new();
    let mut at = 0;
    for &size in sizes {
        segments.push(bytes[at..at + size].to_vec());
        at += size;
    }
    segments.push(bytes[at..].to_vec());
    segments
}

#[test]
fn message_comes_out_whatever_the_chunking() {
    let bytes: Vec<u8> = vec![5, b'h', b'e', b'l', b'l', b'o', 9, 8, 7];
    let chunkings: Vec<Vec<usize>> = vec![
        vec![],
        vec![1],
        vec![1, 1, 1, 1, 1, 1, 1, 1],
        vec![3, 3],
        vec![6],
        vec![5, 2],
        vec![2, 5],
    ];
    for sizes in chunkings {
        let mut stream = MemoryStream::new(split(&bytes, &sizes));
        let result = read_and_parse(frame, &mut stream, ReceiveBuffer::new(), 64);
        let (buf, value) = result.unwrap().unwrap();
        assert_eq!(value, b"hello".to_vec());
        let mut behind = buf.filled().to_vec();
        behind.extend(drain(&mut stream));
        assert_eq!(behind, vec![9, 8, 7]);
    }
}

#[test]
fn whole_delivery_leaves_the_rest_in_the_buffer() {
    let bytes: Vec<u8> = vec![2, 1, 2, 3, 4, 5];
    let mut stream = MemoryStream::new(vec![bytes]);
    let (buf, value) = read_and_parse(frame, &mut stream, ReceiveBuffer::new(), 64)
        .unwrap()
        .unwrap();
    assert_eq!(value, vec![1, 2]);
    assert_eq!(buf.filled(), &[3, 4, 5]);
    assert_eq!(stream.segments_left(), 0);
    assert_eq!(stream.read_count(), 1);
}

#[test]
fn leftover_bytes_join_what_is_read() {
    let buf = buffer_with(&[4, 1], 16);
    let mut stream = MemoryStream::new(vec![vec![2], vec![3, 4, 5]]);
    let (buf, value) = read_and_parse(frame, &mut stream, buf, 64).unwrap().unwrap();
    assert_eq!(value, vec![1, 2, 3, 4]);
    assert_eq!(buf.filled(), &[5]);
    assert_eq!(stream.read_count(), 2);
}

#[test]
fn reads_are_bounded_by_the_free_capacity() {
    // No room at first: the two buffered bytes double to a capacity of
    // four, so the reads take one byte, one byte and, after growing to
    // eight, the last two.
    let buf = buffer_with(&[4, 1], 0);
    let mut stream = MemoryStream::new(vec![vec![2], vec![3, 4, 5]]);
    let (buf, value) = read_and_parse(frame, &mut stream, buf, 64).unwrap().unwrap();
    assert_eq!(value, vec![1, 2, 3, 4]);
    assert_eq!(buf.filled(), &[5]);
    assert_eq!(stream.read_count(), 3);
    assert_eq!(buf.cap(), 2);
}

#[test]
fn reading_stops_with_the_message() {
    let mut stream = MemoryStream::new(vec![vec![1, 9], vec![1, 8]]);
    let (buf, value) = read_and_parse(frame, &mut stream, ReceiveBuffer::new(), 64)
        .unwrap()
        .unwrap();
    assert_eq!(value, vec![9]);
    assert!(buf.is_empty());
    assert_eq!(stream.read_count(), 1);
    assert_eq!(stream.segments_left(), 1);
}

#[test]
fn pipelined_messages_need_one_read() {
    let mut stream = MemoryStream::new(vec![vec![2, 10, 11, 3, 20, 21, 22], vec![1, 30]]);
    let (buf, first) = read_and_parse(frame, &mut stream, ReceiveBuffer::new(), 64)
        .unwrap()
        .unwrap();
    assert_eq!(first, vec![10, 11]);
    assert_eq!(buf.filled(), &[3, 20, 21, 22]);
    assert_eq!(stream.read_count(), 1);

    let (buf, second) = read_and_parse(frame, &mut stream, buf, 64).unwrap().unwrap();
    assert_eq!(second, vec![20, 21, 22]);
    assert!(buf.is_empty());
    assert_eq!(stream.read_count(), 1);
    assert_eq!(stream.segments_left(), 1);

    let (buf, third) = read_and_parse(frame, &mut stream, buf, 64).unwrap().unwrap();
    assert_eq!(third, vec![30]);
    assert!(buf.is_empty());
    assert_eq!(stream.read_count(), 2);
}

#[test]
fn clean_end_of_stream_gives_none() {
    let mut stream = MemoryStream::new(Vec::new());
    let result = read_and_parse(frame, &mut stream, ReceiveBuffer::new(), 64);
    assert_eq!(result.map(|found| found.map(|(_, value)| value)), Ok(None));
    assert_eq!(stream.read_count(), 1);
}

#[test]
fn scripted_empty_read_gives_none() {
    let mut stream = MemoryStream::new(vec![vec![], vec![1, 5]]);
    let result = read_and_parse(frame, &mut stream, ReceiveBuffer::with_capacity(16), 64);
    assert!(matches!(result, Ok(None)));
    assert_eq!(stream.segments_left(), 1);
}

#[test]
fn end_of_stream_after_a_message_gives_none() {
    let mut stream = MemoryStream::new(vec![vec![1, 5]]);
    let (buf, value) = read_and_parse(frame, &mut stream, ReceiveBuffer::new(), 64)
        .unwrap()
        .unwrap();
    assert_eq!(value, vec![5]);
    let result = read_and_parse(frame, &mut stream, buf, 64);
    assert!(matches!(result, Ok(None)));
}

#[test]
fn end_of_stream_within_a_message_is_an_error() {
    let mut stream = MemoryStream::new(vec![vec![3, 1]]);
    let result = read_and_parse(frame, &mut stream, ReceiveBuffer::new(), 64);
    assert!(matches!(result, Err(ReadError::UnexpectedEof)));
    assert_eq!(stream.read_count(), 2);
}

#[test]
fn scripted_empty_read_within_a_message_is_an_error() {
    let buf = buffer_with(&[3, 1], 8);
    let mut stream = MemoryStream::new(vec![vec![], vec![2, 3]]);
    let result = read_and_parse(frame, &mut stream, buf, 64);
    assert!(matches!(result, Err(ReadError::UnexpectedEof)));
    assert_eq!(stream.read_count(), 1);
    assert_eq!(drain(&mut stream), vec![2, 3]);
}

#[test]
fn limit_cuts_off_a_grammar_that_never_ends() {
    let bytes: Vec<u8> = (0..20).collect();
    for sizes in [vec![], vec![3, 3, 3, 3], vec![8], vec![7, 1], vec![1; 19]] {
        let mut stream = MemoryStream::new(split(&bytes, &sizes));
        let result = read_and_parse(never, &mut stream, ReceiveBuffer::new(), 8);
        assert!(matches!(
            result,
            Err(ReadError::Semantic(SemanticError::BufferLimitReachedWhileParsing))
        ));
        assert_eq!(drain(&mut stream), bytes[8..].to_vec());
    }
}

#[test]
fn limit_is_reported_exactly_when_reached() {
    let mut stream = MemoryStream::new(vec![vec![1, 2, 3], vec![4, 5]]);
    let result = read_and_parse(never, &mut stream, ReceiveBuffer::new(), 5);
    assert!(matches!(
        result,
        Err(ReadError::Semantic(SemanticError::BufferLimitReachedWhileParsing))
    ));
    assert_eq!(stream.read_count(), 2);

    let mut stream = MemoryStream::new(vec![vec![1, 2, 3], vec![4, 5]]);
    let result = read_and_parse(never, &mut stream, ReceiveBuffer::new(), 6);
    assert!(matches!(result, Err(ReadError::UnexpectedEof)));
    assert_eq!(stream.read_count(), 3);
}

#[test]
fn below_the_limit_nothing_is_refused() {
    let mut stream = MemoryStream::new(vec![vec![1, 2], vec![3, 4, 5]]);
    let mut buf = ReceiveBuffer::new();
    for expected in [2usize, 5] {
        match advance(&never, &mut buf, 8) {
            Progress::NeedRead { limit } => {
                let n = buf.read_into(limit, &mut stream);
                assert_eq!(after_read(n, &buf), ReadStatus::More);
                assert_eq!(buf.len(), expected);
            }
            other => panic!("unexpected progress: {:?}", other),
        }
    }
    assert_eq!(advance(&never, &mut buf, 8), Progress::NeedRead { limit: 3 });
    assert_eq!(buf.filled(), &[1, 2, 3, 4, 5]);
}

#[test]
fn full_buffer_is_refused_without_a_read() {
    let buf = buffer_with(&[1, 2, 3, 4], 4);
    let mut stream = MemoryStream::new(vec![vec![5, 6]]);
    let result = read_and_parse(never, &mut stream, buf, 4);
    assert!(matches!(
        result,
        Err(ReadError::Semantic(SemanticError::BufferLimitReachedWhileParsing))
    ));
    assert_eq!(stream.read_count(), 0);
    assert_eq!(stream.segments_left(), 1);

    let buf = buffer_with(&[1, 2, 3, 4], 4);
    let result = read_and_parse(never, &mut stream, buf, 3);
    assert!(matches!(
        result,
        Err(ReadError::Semantic(SemanticError::BufferLimitReachedWhileParsing))
    ));
    assert_eq!(stream.read_count(), 0);
}

#[test]
fn zero_limit_refuses_an_empty_buffer() {
    let mut stream = MemoryStream::new(vec![vec![1]]);
    let result = read_and_parse(never, &mut stream, ReceiveBuffer::new(), 0);
    assert!(matches!(
        result,
        Err(ReadError::Semantic(SemanticError::BufferLimitReachedWhileParsing))
    ));
    assert_eq!(stream.read_count(), 0);
}

#[test]
fn message_longer_than_the_limit_is_refused() {
    let mut stream = MemoryStream::new(vec![vec![6, 1, 2, 3, 4, 5, 6]]);
    let result = read_and_parse(frame, &mut stream, ReceiveBuffer::new(), 4);
    assert!(matches!(
        result,
        Err(ReadError::Semantic(SemanticError::BufferLimitReachedWhileParsing))
    ));
    assert_eq!(drain(&mut stream), vec![4, 5, 6]);
}

#[test]
fn message_of_exactly_the_limit_is_parsed() {
    let mut stream = MemoryStream::new(vec![vec![3, 1, 2, 3, 9]]);
    let (buf, value) = read_and_parse(frame, &mut stream, ReceiveBuffer::new(), 4)
        .unwrap()
        .unwrap();
    assert_eq!(value, vec![1, 2, 3]);
    assert!(buf.is_empty());
    assert_eq!(drain(&mut stream), vec![9]);
}

#[test]
fn malformed_input_is_reported_with_its_place() {
    let mut stream = MemoryStream::new(vec![b"pi".to_vec(), b"ng!".to_vec()]);
    let result = read_and_parse(ping, &mut stream, ReceiveBuffer::new(), 64);
    assert_eq!(
        result.map(|found| found.map(|(_, value)| value)),
        Err(ReadError::Parsing(ParseFailure {
            input: b"ping!".to_vec(),
            code: ErrorKind::Tag,
            fatal: false,
        }))
    );
    assert_eq!(stream.read_count(), 2);
}

#[test]
fn unrecoverable_rejection_is_marked() {
    let mut stream = MemoryStream::new(vec![b"pong\n".to_vec()]);
    let result = read_and_parse(strict_ping, &mut stream, ReceiveBuffer::new(), 64);
    assert_eq!(
        result.map(|found| found.map(|(_, value)| value)),
        Err(ReadError::Parsing(ParseFailure {
            input: b"pong\n".to_vec(),
            code: ErrorKind::Tag,
            fatal: true,
        }))
    );
}

#[test]
fn malformed_input_is_not_retried() {
    let buf = buffer_with(b"pong", 8);
    let mut stream = MemoryStream::new(vec![b"\n".to_vec()]);
    let result = read_and_parse(ping, &mut stream, buf, 64);
    assert!(matches!(result, Err(ReadError::Parsing(_))));
    assert_eq!(stream.read_count(), 0);
    assert_eq!(stream.segments_left(), 1);
}

#[test]
fn ping_is_parsed_across_reads() {
    let mut stream = MemoryStream::new(vec![b"p".to_vec(), b"in".to_vec(), b"g\nping".to_vec()]);
    let (buf, value) = read_and_parse(ping, &mut stream, ReceiveBuffer::new(), 64)
        .unwrap()
        .unwrap();
    assert_eq!(value, 7);
    assert_eq!(buf.filled(), b"ping");
}

#[test]
fn advance_parses_and_trims() {
    let mut buf = buffer_with(&[2, 7, 8, 1], 5);
    assert_eq!(advance(&frame, &mut buf, 64), Progress::Parsed(vec![7, 8]));
    assert_eq!(buf.filled(), &[1]);
    assert_eq!(buf.cap(), 5);
}

#[test]
fn advance_asks_for_what_the_limit_allows() {
    let mut buf = buffer_with(&[9, 1, 2], 5);
    assert_eq!(advance(&frame, &mut buf, 10), Progress::NeedRead { limit: 7 });
    assert_eq!(buf.filled(), &[9, 1, 2]);
    assert_eq!(buf.cap(), 5);
}

#[test]
fn advance_grows_a_buffer_without_room() {
    let mut buf = ReceiveBuffer::new();
    assert_eq!(advance(&frame, &mut buf, 10), Progress::NeedRead { limit: 10 });
    assert_eq!(buf.cap(), 4096);

    let mut buf = buffer_with(&[9, 1, 2], 0);
    assert_eq!(advance(&frame, &mut buf, 10), Progress::NeedRead { limit: 7 });
    assert_eq!(buf.cap(), 3);
    assert_eq!(buf.filled(), &[9, 1, 2]);
}

#[test]
fn advance_does_not_grow_a_buffer_at_its_limit() {
    let mut buf = buffer_with(&[9, 1, 2], 0);
    assert_eq!(
        advance(&frame, &mut buf, 3),
        Progress::Failed(ReadError::Semantic(
            SemanticError::BufferLimitReachedWhileParsing
        ))
    );
    assert_eq!(buf.cap(), 0);
    assert_eq!(buf.filled(), &[9, 1, 2]);
}

#[test]
fn advance_with_follows_the_outcome() {
    let mut buf = buffer_with(&[1, 2, 3, 4], 2);
    let done: ParseOutcome<u8> = ParseOutcome::Done { rest_len: 1, value: 42 };
    assert_eq!(advance_with(done, &mut buf, 16), Progress::Parsed(42));
    assert_eq!(buf.filled(), &[4]);

    let incomplete: ParseOutcome<u8> = ParseOutcome::Incomplete;
    assert_eq!(advance_with(incomplete, &mut buf, 16), Progress::NeedRead { limit: 15 });

    let failure = ParseFailure { input: vec![4], code: ErrorKind::Digit, fatal: false };
    let malformed: ParseOutcome<u8> = ParseOutcome::Malformed(failure);
    assert_eq!(
        advance_with(malformed, &mut buf, 16),
        Progress::Failed(ReadError::Parsing(ParseFailure {
            input: vec![4],
            code: ErrorKind::Digit,
            fatal: false,
        }))
    );
    assert_eq!(buf.filled(), &[4]);
}

#[test]
fn after_read_tells_the_three_cases() {
    let empty = ReceiveBuffer::new();
    let partial = buffer_with(&[1], 0);
    assert_eq!(after_read(0, &empty), ReadStatus::EndOfStream);
    assert_eq!(after_read(0, &partial), ReadStatus::UnexpectedEof);
    assert_eq!(after_read(1, &partial), ReadStatus::More);
    assert_eq!(after_read(3, &partial), ReadStatus::More);
}

#[test]
fn outcome_of_keeps_the_length_of_the_rest() {
    let input: &[u8] = &[1, 2, 3, 4, 5];
    let result: IResult<&[u8], u8> = Ok((&input[3..], 9));
    assert_eq!(outcome_of(result), ParseOutcome::Done { rest_len: 2, value: 9 });
}

#[test]
fn outcome_of_tells_errors_apart() {
    let input: &[u8] = &[1, 2, 3];
    let incomplete: IResult<&[u8], u8> = Err(nom::Err::Incomplete(nom::Needed::new(4)));
    assert_eq!(outcome_of(incomplete), ParseOutcome::Incomplete);

    let error: IResult<&[u8], u8> =
        Err(nom::Err::Error(nom::error::Error::new(&input[1..], ErrorKind::Alt)));
    assert_eq!(
        outcome_of(error),
        ParseOutcome::Malformed(ParseFailure { input: vec![2, 3], code: ErrorKind::Alt, fatal: false })
    );

    let failure: IResult<&[u8], u8> =
        Err(nom::Err::Failure(nom::error::Error::new(&input[2..], ErrorKind::Eof)));
    assert_eq!(
        outcome_of(failure),
        ParseOutcome::Malformed(ParseFailure { input: vec![3], code: ErrorKind::Eof, fatal: true })
    );
}
