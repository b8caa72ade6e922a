use chunk_ipfss::chunking::FileHandler;

fn chunks_for(file_size: u64) -> Vec<usize> {
    let mut handler = FileHandler::new(file_size);
    handler.process_chunks();
    handler.get_chunk().clone()
}

#[test]
fn even_size_gives_ten_equal_chunks() {
    let chunks = chunks_for(100);
    assert_eq!(chunks, vec![10usize; 10]);
}

#[test]
fn remainder_becomes_an_extra_chunk() {
    let chunks = chunks_for(103);
    let mut expected = vec![10usize; 10];
    expected.push(3);
    assert_eq!(chunks, expected);
}

#[test]
fn small_size_lands_in_the_remainder_chunk() {
    let chunks = chunks_for(7);
    let mut expected = vec![0usize; 10];
    expected.push(7);
    assert_eq!(chunks, expected);
}

#[test]
fn zero_size_gives_ten_empty_chunks() {
    let chunks = chunks_for(0);
    assert_eq!(chunks, vec![0usize; 10]);
}

#[test]
fn partition_covers_the_file_exactly() {
    for size in [0u64, 1, 9, 10, 11, 99, 100, 101, 1024, 65537] {
        let chunks = chunks_for(size);
        let total: u64 = chunks.iter().map(|c| *c as u64).sum();
        assert_eq!(total, size);
    }
}

#[test]
fn new_handler_has_no_chunks() {
    let handler = FileHandler::new(42);
    assert!(handler.get_chunk().is_empty());
}
