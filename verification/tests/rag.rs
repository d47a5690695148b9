use unleashed_agent::rag::{
    best_hits, check_embeddings_status, chunk_text, comparable_rows, default_top_k, embed_batches,
    embeddings_api_base, embeddings_url, is_indexed_file, is_whole_row, order_embeddings,
    path_not_found, rag_db_path, try_chunk_text, EmbeddingsError, FileWalk, TextIngest,
    DEFAULT_CHUNK_OVERLAP, DEFAULT_CHUNK_SIZE,
};

#[test]
fn test_chunk_text_overlap() {
    let text = "alpha beta gamma delta epsilon zeta eta theta iota kappa";
    let chunks = chunk_text(text, 20, 5);
    assert!(!chunks.is_empty());
    assert!(chunks.len() > 1);
}

#[test]
fn test_embeddings_api_base() {
    assert_eq!(
        embeddings_api_base("http://localhost:1234/api/v0"),
        "http://localhost:1234/v1"
    );
}

#[test]
fn chunks_are_bounded_and_not_empty() {
    let text = "alpha beta gamma delta epsilon zeta eta theta iota kappa";
    let chunks = chunk_text(text, 20, 5);
    assert_eq!(chunks[0], "alpha beta gamma");
    for chunk in &chunks {
        assert!(!chunk.is_empty() && chunk.len() <= 20);
    }
    assert!(chunk_text("   ", 20, 5).is_empty());
    assert_eq!(chunk_text(" a b ", 0, 0), vec!["a b".to_string()]);
}

#[test]
fn a_cut_inside_a_character_is_refused() {
    assert_eq!(try_chunk_text("ééééé", 3, 0), None);
    assert_eq!(
        try_chunk_text("ééé", 4, 0),
        Some(vec!["éé".to_string(), "é".to_string()])
    );
}

#[test]
fn ascii_texts_and_short_texts_can_be_cut() {
    let text = "x".repeat(5_000);
    let chunks = try_chunk_text(&text, DEFAULT_CHUNK_SIZE, DEFAULT_CHUNK_OVERLAP).unwrap();
    assert_eq!(chunks.len(), 6);
    assert_eq!(chunks[0].len(), 1_000);
    assert_eq!(try_chunk_text(" éé ", 4, 1), Some(vec!["éé".to_string()]));
}

#[test]
fn other_bases_get_a_version() {
    assert_eq!(embeddings_api_base("http://h:1/v1"), "http://h:1/v1");
    assert_eq!(embeddings_api_base("http://h:1/"), "http://h:1/v1");
    assert_eq!(embeddings_url("http://h:1/v1/"), "http://h:1/v1/embeddings");
}

#[test]
fn batches_hold_sixty_four_chunks() {
    assert_eq!(embed_batches(0), Vec::<(usize, usize)>::new());
    assert_eq!(embed_batches(130), vec![(0, 64), (64, 128), (128, 130)]);
}

#[test]
fn vectors_are_put_in_order() {
    let items = vec![(1, vec![7u8]), (0, vec![5, 6])];
    assert_eq!(order_embeddings(items, 2), Ok(vec![vec![5, 6], vec![7]]));
    assert_eq!(order_embeddings(vec![(2, vec![1u8])], 2), Err(EmbeddingsError::IndexOutOfRange));
    assert_eq!(order_embeddings(vec![(0, vec![1u8])], 2), Err(EmbeddingsError::MissingVector));
    assert_eq!(
        EmbeddingsError::MissingVector.message(),
        "embeddings response missing one or more vectors"
    );
}

#[test]
fn the_index_lies_in_the_state_directory() {
    assert_eq!(rag_db_path("/work"), "/work/.local_agent/rag.db");
    assert_eq!(default_top_k(), 5);
}

#[test]
fn only_known_endings_are_indexed() {
    assert!(is_indexed_file("/work/src/lib.rs"));
    assert!(is_indexed_file("/work/notes.draft.md"));
    assert!(!is_indexed_file("/work/LIB.RS"));
    assert!(!is_indexed_file("/work/.md"));
    assert!(!is_indexed_file("/work/Makefile"));
    assert!(!is_indexed_file("/work.rs/Makefile"));
    assert!(!is_indexed_file("/"));
}

#[test]
fn a_walk_reads_every_directory_and_sorts_by_name() {
    let mut walk = FileWalk::new("/w");
    assert_eq!(walk.next_directory(), Some("/w".to_string()));
    walk.visit("/w/a-b.rs".to_string(), false);
    walk.visit("/w/a".to_string(), true);
    walk.visit("/w/x.bin".to_string(), false);
    assert_eq!(walk.next_directory(), Some("/w/a".to_string()));
    walk.visit("/w/a/z.rs".to_string(), false);
    assert_eq!(walk.next_directory(), None);
    assert_eq!(walk.finish(), vec!["/w/a/z.rs".to_string(), "/w/a-b.rs".to_string()]);
    assert_eq!(path_not_found("/w/q"), "Path not found: /w/q");
}

#[test]
fn a_refused_request_is_quoted() {
    assert_eq!(check_embeddings_status(200, b"ok"), Ok(()));
    assert_eq!(
        check_embeddings_status(404, b"no \xff model"),
        Err("embeddings request failed with status 404: no \u{fffd} model".to_string())
    );
}

#[test]
fn rows_of_another_length_are_left_out() {
    assert!(is_whole_row(3, 3));
    assert!(!is_whole_row(-1, 3));
    assert_eq!(comparable_rows(&vec![3, 2, 3], 3), vec![0, 2]);
}

#[test]
fn the_best_hits_come_first() {
    let scores: Vec<u32> = [0.5f32, -0.25, 0.9, 0.5, -0.0, 0.0]
        .iter()
        .map(|score| score.to_bits())
        .collect();
    assert_eq!(best_hits(&scores, 4), vec![2, 0, 3, 4]);
    assert_eq!(best_hits(&scores, 9), vec![2, 0, 3, 4, 5, 1]);
}

#[test]
fn texts_are_stored_a_batch_at_a_time() {
    let text = "a line of words that fills the chunks of a long text\n".repeat(2000);
    let chunks = chunk_text(&text, DEFAULT_CHUNK_SIZE, DEFAULT_CHUNK_OVERLAP);
    assert!(chunks.len() > 64 && chunks.len() < 200);
    let mut ingest = TextIngest::start(&text).unwrap();
    let mut stored: Vec<(i32, String, i32, Vec<u8>)> = Vec::new();
    let mut sizes: Vec<usize> = Vec::new();
    while let Some(batch) = ingest.batch() {
        sizes.push(batch.len());
        let vectors: Vec<Vec<u8>> = batch.iter().map(|chunk| vec![chunk.len() as u8, 7]).collect();
        for row in ingest.store(vectors) {
            stored.push((row.chunk_index, row.text, row.dim, row.embedding));
        }
    }
    assert_eq!(sizes[0], 64);
    assert_eq!(sizes.iter().sum::<usize>(), chunks.len());
    let expected: Vec<(i32, String, i32, Vec<u8>)> = chunks
        .iter()
        .enumerate()
        .map(|(i, chunk)| (i as i32, chunk.clone(), 2, vec![chunk.len() as u8, 7]))
        .collect();
    assert_eq!(stored, expected);
}

#[test]
fn nothing_is_stored_of_an_empty_text() {
    assert!(TextIngest::start(" \n ").is_none());
}

#[test]
fn no_word_is_lost_between_chunks() {
    let text = "alpha beta gamma delta epsilon zeta eta theta iota kappa lambda mu";
    let chunks = chunk_text(text, 24, 6);
    assert!(chunks.iter().all(|chunk| text.contains(chunk.as_str())));
    for word in text.split(' ') {
        assert!(chunks.iter().any(|chunk| chunk.contains(word)), "{word} is lost");
    }
}
