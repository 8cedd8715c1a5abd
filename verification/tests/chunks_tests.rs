use pentaract::chunks::{assemble_by_index, join_chunks, split_into_chunks};

fn round_trip(data: &[u8], size: usize) {
    let owned: Vec<u8> = data.to_vec();
    let chunks = split_into_chunks(&owned, size);
    for c in &chunks {
        assert!(!c.is_empty());
        assert!(c.len() <= size);
    }
    let joined = join_chunks(&chunks);
    assert_eq!(joined, owned);
}

#[test]
fn split_join_round_trip_size_one() {
    round_trip(b"the quick brown fox", 1);
}

#[test]
fn split_join_round_trip_typical_chunk_size() {
    let data: Vec<u8> = (0..10_000u32).map(|x| (x % 251) as u8).collect();
    round_trip(&data, 4096);
}

#[test]
fn split_join_round_trip_whole_length() {
    let data = b"whole file in one chunk";
    round_trip(data, data.len());
}

#[test]
fn split_empty_data_yields_no_chunks() {
    let chunks = split_into_chunks(&Vec::new(), 7);
    assert!(chunks.is_empty());
    assert_eq!(join_chunks(&chunks), Vec::<u8>::new());
}

#[test]
fn split_sizes_are_exact_up_to_the_last() {
    let data: Vec<u8> = (0..10u8).collect();
    let chunks = split_into_chunks(&data, 4);
    assert_eq!(chunks.len(), 3);
    assert_eq!(chunks[0], vec![0, 1, 2, 3]);
    assert_eq!(chunks[1], vec![4, 5, 6, 7]);
    assert_eq!(chunks[2], vec![8, 9]);
}

#[test]
fn assembly_is_independent_of_completion_order() {
    let in_order = vec![
        (0usize, b"aa".to_vec()),
        (1usize, b"bb".to_vec()),
        (2usize, b"cc".to_vec()),
    ];
    let out_of_order = vec![
        (2usize, b"cc".to_vec()),
        (0usize, b"aa".to_vec()),
        (1usize, b"bb".to_vec()),
    ];
    let r1 = assemble_by_index(&in_order, 3).unwrap();
    let r2 = assemble_by_index(&out_of_order, 3).unwrap();
    assert_eq!(r1, r2);
    assert_eq!(r1, b"aabbcc".to_vec());
}

#[test]
fn assembly_rejects_incomplete_or_duplicated_parts() {
    let missing = vec![(0usize, b"aa".to_vec()), (2usize, b"cc".to_vec())];
    assert!(assemble_by_index(&missing, 3).is_none());

    let duplicated = vec![
        (0usize, b"aa".to_vec()),
        (0usize, b"xx".to_vec()),
        (1usize, b"bb".to_vec()),
    ];
    assert!(assemble_by_index(&duplicated, 3).is_none());

    let out_of_range = vec![(0usize, b"aa".to_vec()), (5usize, b"bb".to_vec())];
    assert!(assemble_by_index(&out_of_range, 2).is_none());

    let wrong_count = vec![(0usize, b"aa".to_vec())];
    assert!(assemble_by_index(&wrong_count, 2).is_none());
}

#[test]
fn assembly_of_zero_chunks_is_empty() {
    assert_eq!(assemble_by_index(&Vec::new(), 0).unwrap(), Vec::<u8>::new());
}
