use ragnotes::codec::embedding_to_text;
use ragnotes::errors::RagError;
use ragnotes::pipeline::{
    answer_start, answer_step, delete_outcome, entries_from_rows, ingest_start, ingest_step,
    AnswerAction, AnswerEvent, AnswerState, IngestAction, IngestEvent, IngestState, StoreRow,
};

const INSTRUCTIONS: &str = "You are an expert at reading comprehension.
        Only answer the question and ignore all information unrelated to the question.
        Answer short and concisely, skipping over unecessary information.
        However, be aware that the information could be in multiple notes.
        Put in all information you can find in the notes. Use cold and professional tone.
        If the information is not present in the context, say 'There is no information on this in the notes'.
        Using the following context, answer the question.";

fn expected_prompt(context: &str, question: &str) -> String {
    format!(
        "{} \n\n Context:\n {} \n\n\n Question:\n {}",
        INSTRUCTIONS, context, question
    )
}

fn row(id: i64, title: &str, content: &str, embedding: Vec<i64>) -> StoreRow {
    (id, title.to_string(), content.to_string(), embedding_to_text(&embedding))
}

#[test]
fn ingest_then_query_ranks_the_note_first() {
    // ingest a note whose embedding matches the later query exactly
    let (state, action) = ingest_start(
        "Trip".to_string(),
        "Paris in June".to_string(),
        "Trip Paris in June".to_string(),
    );
    match &action {
        IngestAction::Embed { text } => assert_eq!(text, "Trip Paris in June"),
        _ => panic!("expected an embed action"),
    }
    let (state, action) = ingest_step(state, IngestEvent::EmbedOk { vector: vec![1_000_000, 0, 0] });
    let encoded = match action {
        IngestAction::Save { title, content, encoded } => {
            assert_eq!(title, "Trip");
            assert_eq!(content, "Paris in June");
            encoded
        },
        _ => panic!("expected a save action"),
    };
    let (state, _) = ingest_step(state, IngestEvent::SaveOk { id: 1 });
    match state {
        IngestState::Done { note } => {
            assert_eq!(note.id, 1);
            assert_eq!(note.title, "Trip");
            assert_eq!(note.content, "Paris in June");
        },
        _ => panic!("expected the flow to finish"),
    }

    // the store now holds that one row; answer a question whose
    // embedding is the same vector
    let rows = vec![(1i64, "Trip".to_string(), "Paris in June".to_string(), encoded)];
    let entries = entries_from_rows(&rows).unwrap();
    let ranked = ragnotes::rank::rank(&vec![1_000_000, 0, 0], &entries, 10).unwrap();
    assert_eq!(ranked.len(), 1);
    assert_eq!(ranked[0].id, 1);
    assert_eq!(ranked[0].score, ragnotes::SCALE as i128);

    let (state, _) = answer_start("Where to in June?".to_string());
    let (state, action) = answer_step(state, AnswerEvent::EmbedOk { vector: vec![1_000_000, 0, 0] });
    assert!(matches!(action, AnswerAction::FetchEntries));
    let (state, action) = answer_step(state, AnswerEvent::FetchOk { rows });
    match &action {
        AnswerAction::Generate { prompt } => {
            let context = "Title: Trip \n\n Content: Paris in June\n";
            assert_eq!(prompt, &expected_prompt(context, "Where to in June?"));
        },
        _ => panic!("expected a generate action"),
    }
    let (state, _) = answer_step(state, AnswerEvent::GenerateOk { text: "Paris.".to_string() });
    match state {
        AnswerState::Done { answer } => assert_eq!(answer, "Paris."),
        _ => panic!("expected the flow to finish"),
    }
}

#[test]
fn closer_embedding_ranks_above() {
    let rows = vec![
        row(1, "first", "one", vec![1_000_000, 0]),
        row(2, "second", "two", vec![0, 1_000_000]),
    ];
    let entries = entries_from_rows(&rows).unwrap();
    let ranked = ragnotes::rank::rank(&vec![900_000, 100_000], &entries, 10).unwrap();
    assert_eq!(ranked.len(), 2);
    assert_eq!(ranked[0].id, 1);
    assert_eq!(ranked[1].id, 2);
    assert!(ranked[0].score > ranked[1].score);
}

#[test]
fn deleting_nonexistent_id_succeeds() {
    // the store reports that the delete statement ran, though it
    // removed no row
    let outcome = delete_outcome(true, String::new());
    assert!(outcome.is_ok());
    let failed = delete_outcome(false, "disk unavailable".to_string());
    match failed {
        Err(e) => {
            assert!(matches!(e, RagError::Storage(_)));
            assert_eq!(e.message(), "disk unavailable");
        },
        Ok(()) => panic!("a failed delete must surface its error"),
    }
}

#[test]
fn empty_store_still_asks_the_completion_service() {
    let (state, _) = answer_start("Anything?".to_string());
    let (state, action) = answer_step(state, AnswerEvent::EmbedOk { vector: vec![1_000_000] });
    assert!(matches!(action, AnswerAction::FetchEntries));
    let (state, action) = answer_step(state, AnswerEvent::FetchOk { rows: vec![] });
    assert!(matches!(state, AnswerState::AwaitingCompletion { .. }));
    match &action {
        AnswerAction::Generate { prompt } => {
            assert_eq!(prompt, &expected_prompt("", "Anything?"));
        },
        _ => panic!("an empty store must still generate an answer"),
    }
}

#[test]
fn embed_failure_fails_with_provider_error() {
    let (state, _) = answer_start("q".to_string());
    let (state, action) = answer_step(
        state,
        AnswerEvent::EmbedFailed { detail: "service unreachable".to_string() },
    );
    assert!(matches!(action, AnswerAction::Stop));
    match state {
        AnswerState::Failed { error } => {
            assert!(matches!(error, RagError::Provider(_)));
            assert_eq!(error.message(), "service unreachable");
        },
        _ => panic!("an embed failure must fail the flow"),
    }
}

#[test]
fn fetch_failure_fails_with_storage_error() {
    let (state, _) = answer_start("q".to_string());
    let (state, _) = answer_step(state, AnswerEvent::EmbedOk { vector: vec![1_000_000] });
    let (state, _) = answer_step(
        state,
        AnswerEvent::FetchFailed { detail: "cannot open store".to_string() },
    );
    match state {
        AnswerState::Failed { error } => assert!(matches!(error, RagError::Storage(_))),
        _ => panic!("a fetch failure must fail the flow"),
    }
}

#[test]
fn generate_failure_fails_with_provider_error() {
    let (state, _) = answer_start("q".to_string());
    let (state, _) = answer_step(state, AnswerEvent::EmbedOk { vector: vec![1_000_000] });
    let (state, _) = answer_step(state, AnswerEvent::FetchOk { rows: vec![] });
    let (state, _) = answer_step(
        state,
        AnswerEvent::GenerateFailed { detail: "no usable output".to_string() },
    );
    match state {
        AnswerState::Failed { error } => assert!(matches!(error, RagError::Provider(_))),
        _ => panic!("a generation failure must fail the flow"),
    }
}

#[test]
fn corrupt_row_is_an_integrity_error() {
    let rows = vec![(1i64, "t".to_string(), "c".to_string(), "garbage".to_string())];
    match entries_from_rows(&rows) {
        Err(e) => assert!(matches!(e, RagError::Integrity(_))),
        Ok(_) => panic!("a corrupt row must fail the fetch"),
    }
    let (state, _) = answer_start("q".to_string());
    let (state, _) = answer_step(state, AnswerEvent::EmbedOk { vector: vec![1_000_000] });
    let (state, _) = answer_step(state, AnswerEvent::FetchOk { rows });
    match state {
        AnswerState::Failed { error } => assert!(matches!(error, RagError::Integrity(_))),
        _ => panic!("a corrupt row must fail the flow"),
    }
}

#[test]
fn dimension_mismatch_is_an_integrity_error() {
    let rows = vec![row(1, "t", "c", vec![1_000_000, 0])];
    let (state, _) = answer_start("q".to_string());
    let (state, _) = answer_step(state, AnswerEvent::EmbedOk { vector: vec![1_000_000] });
    let (state, _) = answer_step(state, AnswerEvent::FetchOk { rows });
    match state {
        AnswerState::Failed { error } => assert!(matches!(error, RagError::Integrity(_))),
        _ => panic!("a dimension mismatch must fail the flow"),
    }
}

#[test]
fn unusable_embedding_vector_is_a_provider_error() {
    let (state, _) = answer_start("q".to_string());
    let (state, action) = answer_step(
        state,
        AnswerEvent::EmbedOk { vector: vec![ragnotes::MAX_COORD + 1] },
    );
    assert!(matches!(action, AnswerAction::Stop));
    match state {
        AnswerState::Failed { error } => assert!(matches!(error, RagError::Provider(_))),
        _ => panic!("an out-of-range vector must fail the flow"),
    }
}

#[test]
fn failed_save_persists_nothing() {
    let (state, _) = ingest_start("t".to_string(), "c".to_string(), "t c".to_string());
    let (state, _) = ingest_step(state, IngestEvent::EmbedOk { vector: vec![1_000_000] });
    let (state, action) = ingest_step(
        state,
        IngestEvent::SaveFailed { detail: "write failed".to_string() },
    );
    assert!(matches!(action, IngestAction::Stop));
    match state {
        IngestState::Failed { error } => assert!(matches!(error, RagError::Storage(_))),
        _ => panic!("a failed save must fail the flow"),
    }
}
