use ragnotes::codec::{embedding_to_text, text_to_embedding};
use ragnotes::note::{notes_from_rows, NoteWithEmbedding};
use ragnotes::prompt::{build_context, greet};
use ragnotes::rank::rank;
use ragnotes::vector::{check_embedding, cosine_similarity, dot, isqrt};
use ragnotes::{MAX_COORD, SCALE};

fn entry(id: i64, title: &str, content: &str, embedding: Vec<i64>) -> NoteWithEmbedding {
    NoteWithEmbedding { id, title: title.to_string(), content: content.to_string(), embedding }
}

#[test]
fn dot_product_concrete() {
    let a = vec![1, 2, 3];
    let b = vec![4, 5, 6];
    assert_eq!(dot(&a, &b), 32);
}

#[test]
fn isqrt_concrete() {
    assert_eq!(isqrt(0), 0);
    assert_eq!(isqrt(1), 1);
    assert_eq!(isqrt(99), 9);
    assert_eq!(isqrt(100), 10);
    assert_eq!(isqrt(1_000_000_000_000), 1_000_000);
}

#[test]
fn cosine_symmetric_concrete() {
    let a = vec![1_000_000, 0, 250_000];
    let b = vec![300_000, 400_000, -100_000];
    assert_eq!(cosine_similarity(&a, &b), cosine_similarity(&b, &a));
    let c = vec![0, 0, 0];
    assert_eq!(cosine_similarity(&a, &c), cosine_similarity(&c, &a));
}

#[test]
fn cosine_self_is_unit() {
    let a = vec![1_000_000, 0, 0];
    assert_eq!(cosine_similarity(&a, &a), SCALE as i128);
    let b = vec![2_000_000, 1_000_000];
    let s = cosine_similarity(&b, &b);
    assert!(s >= SCALE as i128);
    assert!(s <= SCALE as i128 + 2);
}

#[test]
fn cosine_opposite_is_minus_unit() {
    let a = vec![1_000_000, 0];
    let b = vec![-1_000_000, 0];
    assert_eq!(cosine_similarity(&a, &b), -(SCALE as i128));
    let c = vec![700_000, 300_000];
    let d = vec![-700_000, -300_000];
    let s = cosine_similarity(&c, &d);
    assert!(s <= -(SCALE as i128) + 4);
    assert!(s >= -(SCALE as i128) - 4);
}

#[test]
fn cosine_zero_norm_scores_zero() {
    let z = vec![0, 0];
    let a = vec![1_000_000, 0];
    assert_eq!(cosine_similarity(&z, &a), 0);
    assert_eq!(cosine_similarity(&a, &z), 0);
}

#[test]
fn embedding_round_trip() {
    let e = vec![1_000_000i64, 0, -500_000, MAX_COORD, -MAX_COORD, 7];
    let text = embedding_to_text(&e);
    assert_eq!(text_to_embedding(text.as_str()), Some(e));
}

#[test]
fn embedding_round_trip_empty() {
    let e: Vec<i64> = vec![];
    let text = embedding_to_text(&e);
    assert_eq!(text, "");
    assert_eq!(text_to_embedding(""), Some(vec![]));
}

#[test]
fn encode_is_fixed_width() {
    let text = embedding_to_text(&vec![1_500_000, -42]);
    assert_eq!(text, "+0001500000-0000000042");
}

#[test]
fn decode_rejects_garbage() {
    assert_eq!(text_to_embedding("not an embedding"), None);
    assert_eq!(text_to_embedding("+00015000"), None);
    assert_eq!(text_to_embedding("-0000000000"), None);
    assert_eq!(text_to_embedding("+000000000a"), None);
}

#[test]
fn check_embedding_bounds() {
    assert!(check_embedding(&vec![MAX_COORD, -MAX_COORD, 0]));
    assert!(!check_embedding(&vec![MAX_COORD + 1]));
}

#[test]
fn rank_equal_scores_keep_input_order() {
    let entries = vec![
        entry(10, "a", "x", vec![1_000_000, 0]),
        entry(20, "b", "y", vec![1_000_000, 0]),
        entry(30, "c", "z", vec![1_000_000, 0]),
    ];
    let q = vec![0, 1_000_000];
    let ranked = rank(&q, &entries, 10).unwrap();
    assert_eq!(ranked.len(), 3);
    assert_eq!(ranked[0].id, 10);
    assert_eq!(ranked[1].id, 20);
    assert_eq!(ranked[2].id, 30);
    assert_eq!(ranked[0].score, ranked[1].score);
    assert_eq!(ranked[1].score, ranked[2].score);
}

#[test]
fn rank_returns_min_of_k_and_total() {
    let entries = vec![
        entry(1, "a", "x", vec![1_000_000]),
        entry(2, "b", "y", vec![500_000]),
        entry(3, "c", "z", vec![250_000]),
    ];
    let q = vec![1_000_000];
    assert_eq!(rank(&q, &entries, 2).unwrap().len(), 2);
    assert_eq!(rank(&q, &entries, 3).unwrap().len(), 3);
    assert_eq!(rank(&q, &entries, 10).unwrap().len(), 3);
    assert_eq!(rank(&q, &entries, 0).unwrap().len(), 0);
}

#[test]
fn rank_empty_entries_gives_empty_context() {
    let entries: Vec<NoteWithEmbedding> = vec![];
    let q = vec![1_000_000, 0];
    let ranked = rank(&q, &entries, 10).unwrap();
    assert_eq!(ranked.len(), 0);
    let context = build_context(&ranked);
    assert_eq!(context, "");
}

#[test]
fn rank_rejects_dimension_mismatch() {
    let entries = vec![entry(1, "a", "x", vec![1_000_000, 0, 0])];
    let q = vec![1_000_000, 0];
    assert!(rank(&q, &entries, 10).is_err());
}

#[test]
fn context_template_is_exact() {
    let entries = vec![entry(1, "Trip", "Paris in June", vec![1_000_000])];
    let q = vec![1_000_000];
    let ranked = rank(&q, &entries, 10).unwrap();
    let context = build_context(&ranked);
    assert_eq!(context, "Title: Trip \n\n Content: Paris in June\n");
}

#[test]
fn greet_formats_name() {
    assert_eq!(greet("World"), "Hello, World! You've been greeted from Rust!");
}

#[test]
fn notes_from_rows_keeps_order() {
    let rows = vec![
        (7i64, "first".to_string(), "one".to_string()),
        (3i64, "second".to_string(), "two".to_string()),
    ];
    let notes = notes_from_rows(rows);
    assert_eq!(notes.len(), 2);
    assert_eq!(notes[0].id, 7);
    assert_eq!(notes[0].title, "first");
    assert_eq!(notes[1].id, 3);
    assert_eq!(notes[1].content, "two");
}
