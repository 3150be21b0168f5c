use hring::{
    begin_write, finish_write, write_all_list, MemorySink, PieceList, WriteError,
};

fn list_of(lengths: &[usize]) -> PieceList {
    let mut list = PieceList::new();
    let mut next = 0u8;
    for &len in lengths {
        let mut piece = Vec::new();
        for _ in 0..len {
            piece.push(next);
            next += 1;
        }
        assert_eq!(list.push_back(piece), Ok(()));
    }
    list
}

#[test]
fn list_counts_bytes_and_fragments() {
    let list = list_of(&[10, 0, 5]);
    assert_eq!(list.len(), 15);
    assert_eq!(list.num_pieces(), 3);
    assert!(!list.is_empty());
}

#[test]
fn full_write_hands_back_an_empty_list() {
    let list = list_of(&[10, 0, 5]);
    let mut sink = MemorySink::with_room(usize::MAX);
    let list = write_all_list(&mut sink, list).unwrap();
    assert_eq!(list.len(), 0);
    assert_eq!(list.num_pieces(), 0);
    assert!(list.is_empty());
    let expected: Vec<u8> = (0..15).collect();
    assert_eq!(sink.written(), expected.as_slice());
    assert_eq!(sink.write_count(), 1);
}

#[test]
fn returned_list_serves_the_next_response() {
    let mut sink = MemorySink::with_room(100);
    let mut list = write_all_list(&mut sink, list_of(&[2, 3])).unwrap();
    assert_eq!(list.push_back(vec![9, 9]), Ok(()));
    assert_eq!(list.len(), 2);
    let list = write_all_list(&mut sink, list).unwrap();
    assert!(list.is_empty());
    assert_eq!(sink.written(), &[0, 1, 2, 3, 4, 9, 9]);
    assert_eq!(sink.write_count(), 2);
}

#[test]
fn exact_room_is_a_full_write() {
    let mut sink = MemorySink::with_room(15);
    let list = write_all_list(&mut sink, list_of(&[10, 0, 5])).unwrap();
    assert!(list.is_empty());
    assert_eq!(sink.written().len(), 15);
}

#[test]
fn short_write_is_an_error() {
    let mut sink = MemorySink::with_room(12);
    let result = write_all_list(&mut sink, list_of(&[10, 0, 5]));
    assert_eq!(
        result.map(|list| list.len()),
        Err(WriteError::ShortWrite { written: 12, expected: 15 })
    );
    let expected: Vec<u8> = (0..12).collect();
    assert_eq!(sink.written(), expected.as_slice());
    assert_eq!(sink.write_count(), 1);
}

#[test]
fn sink_without_room_takes_nothing() {
    let mut sink = MemorySink::with_room(0);
    let result = write_all_list(&mut sink, list_of(&[1]));
    assert_eq!(
        result.map(|list| list.len()),
        Err(WriteError::ShortWrite { written: 0, expected: 1 })
    );
    assert_eq!(sink.written(), &[] as &[u8]);
}

#[test]
fn empty_list_is_written_in_one_write() {
    let mut sink = MemorySink::with_room(0);
    let list = write_all_list(&mut sink, PieceList::new()).unwrap();
    assert!(list.is_empty());
    assert_eq!(sink.write_count(), 1);
}

#[test]
fn writev_reports_what_was_taken() {
    let mut sink = MemorySink::with_room(4);
    let (n, pieces) = sink.writev(vec![vec![1, 2, 3], vec![4, 5, 6]]);
    assert_eq!(n, 4);
    assert_eq!(pieces, vec![vec![1, 2, 3], vec![4, 5, 6]]);
    assert_eq!(sink.written(), &[1, 2, 3, 4]);
    let (n, _) = sink.writev(vec![vec![7]]);
    assert_eq!(n, 0);
    assert_eq!(sink.written(), &[1, 2, 3, 4]);
    assert_eq!(sink.write_count(), 2);
}

#[test]
fn begin_write_counts_up_front() {
    let pending = begin_write(list_of(&[10, 0, 5]));
    assert_eq!(pending.len, 15);
    assert_eq!(pending.num_chunks, 3);
    assert_eq!(pending.pieces.len(), 3);
    assert_eq!(pending.pieces[0], (0..10).collect::<Vec<u8>>());
    assert_eq!(pending.pieces[1], Vec::<u8>::new());
    assert_eq!(pending.pieces[2], (10..15).collect::<Vec<u8>>());
}

#[test]
fn finish_write_settles_by_the_count() {
    let drained = vec![vec![1, 2], vec![3]];
    let list = finish_write(3, 3, drained).unwrap();
    assert!(list.is_empty());
    assert_eq!(list.len(), 0);

    let list = finish_write(5, 3, vec![vec![1]]).unwrap();
    assert!(list.is_empty());

    let result = finish_write(2, 3, vec![vec![1, 2], vec![3]]);
    assert_eq!(
        result.map(|list| list.len()),
        Err(WriteError::ShortWrite { written: 2, expected: 3 })
    );
}

#[test]
fn piece_list_grows_and_clears() {
    let mut list = PieceList::new();
    assert!(list.is_empty());
    assert_eq!(list.len(), 0);
    assert_eq!(list.push_back(vec![1, 2, 3]), Ok(()));
    assert_eq!(list.push_back(Vec::new()), Ok(()));
    assert_eq!(list.len(), 3);
    assert_eq!(list.num_pieces(), 2);
    list.clear();
    assert!(list.is_empty());
    assert_eq!(list.len(), 0);
    assert_eq!(list.num_pieces(), 0);
}

#[test]
fn piece_list_round_trips_through_a_vector() {
    let pieces = vec![vec![1u8, 2], vec![], vec![3]];
    let list = PieceList::from_vec(pieces.clone()).unwrap();
    assert_eq!(list.len(), 3);
    assert_eq!(list.num_pieces(), 3);
    assert_eq!(list.into_vec(), pieces);
}
