//! Orchestration of the two pipelines.
//!
//! Every decision of the ingest and answer flows lives here as a pure
//! step function from state and event to next state and action.  The
//! caller performs the actions — the network calls to the embedding
//! and completion services and the store reads and writes — and hands
//! the outcome back as the next event; the steps of one flow are
//! strictly sequential.

use vstd::prelude::*;
use vstd::string::StringExecFns;

use crate::codec::{BLOCK_LEN, embedding_to_text, encode_text, lemma_encode_len, text_to_embedding};
use crate::errors::RagError;
use crate::note::{Note, NoteWithEmbedding};
use crate::prompt::{build_context, compose_prompt, context_text, prompt_text};
use crate::rank::{is_ranking, rank, ScoredEntry};
use crate::vector::valid_embedding;
use crate::TOP_K;

verus! {

/// A raw store row: id, title, content, and the embedding's storage
/// text.
pub type StoreRow = (i64, String, String, String);

/// The storage text of `row` is the encoding of some valid embedding.
pub open spec fn row_decodable(row: StoreRow) -> bool {
    exists|e: Seq<i64>| valid_embedding(e) && row.3@ == encode_text(e)
}

/// The embedding stored in `row` has dimension `dim`: each coordinate
/// occupies one fixed-width block of the storage text.
pub open spec fn row_dim(row: StoreRow, dim: int) -> bool {
    row.3@.len() == (BLOCK_LEN as int) * dim
}

/// `es` are the decoded ranking entries of the store rows `rows`, in
/// order.
pub open spec fn entries_match_rows(rows: Seq<StoreRow>, es: Seq<NoteWithEmbedding>) -> bool {
    &&& es.len() == rows.len()
    &&& forall|i: int|
        0 <= i < rows.len() ==> {
            let en = #[trigger] es[i];
            &&& en.id == rows[i].0
            &&& en.title == rows[i].1
            &&& en.content == rows[i].2
            &&& valid_embedding(en.embedding@)
            &&& rows[i].3@ == encode_text(en.embedding@)
        }
}

/// Decodes every store row into a ranking entry.
///
/// Fails with an integrity error exactly when some row's stored text
/// is not the encoding of a valid embedding: one corrupt record fails
/// the whole fetch rather than being silently skipped.
pub fn entries_from_rows(rows: &Vec<StoreRow>) -> (r: Result<Vec<NoteWithEmbedding>, RagError>)
    ensures
        r is Ok <==> (forall|i: int| 0 <= i < rows@.len() ==> row_decodable(#[trigger] rows@[i])),
        r is Err ==> r->Err_0 is Integrity,
        r is Ok ==> entries_match_rows(rows@, r->Ok_0@),
{
    let mut out: Vec<NoteWithEmbedding> = Vec::new();
    let mut i: usize = 0;
    while i < rows.len()
        invariant
            i <= rows@.len(),
            out@.len() == i,
            forall|t: int| 0 <= t < i ==> row_decodable(#[trigger] rows@[t]),
            entries_match_rows(rows@.take(i as int), out@),
        decreases rows@.len() - i,
    {
        let row = &rows[i];
        match text_to_embedding(row.3.as_str()) {
            Some(embedding) => {
                out.push(
                    NoteWithEmbedding {
                        id: row.0,
                        title: row.1.clone(),
                        content: row.2.clone(),
                        embedding,
                    },
                );
            },
            None => {
                proof {
                    assert(!row_decodable(rows@[i as int]));
                }
                return Err(
                    RagError::Integrity(String::from_str("stored embedding cannot be decoded")),
                );
            },
        }
        i = i + 1;
        proof {
            assert(entries_match_rows(rows@.take(i as int), out@));
        }
    }
    proof {
        assert(rows@.take(i as int) =~= rows@);
    }
    Ok(out)
}

/// A row's stored dimension agrees with its decoded entry's.
proof fn lemma_rows_dims(rows: Seq<StoreRow>, es: Seq<NoteWithEmbedding>, dim: int)
    requires
        entries_match_rows(rows, es),
    ensures
        forall|i: int|
            0 <= i < rows.len() ==> (row_dim(#[trigger] rows[i], dim) <==> es[i].embedding@.len()
                == dim),
{
    assert forall|i: int|
        0 <= i < rows.len() implies (row_dim(#[trigger] rows[i], dim) <==> es[i].embedding@.len()
        == dim) by {
        lemma_encode_len(es[i].embedding@);
    }
}

/// Where the answer flow stands between two outside calls.
pub enum AnswerState {
    /// The question was sent off to be embedded.
    AwaitingQueryEmbedding { question: String },
    /// The query vector is known; the stored entries were requested.
    AwaitingEntries { question: String, query: Vec<i64> },
    /// The prompt was sent to the completion service.
    AwaitingCompletion { question: String },
    /// The completion service answered.
    Done { answer: String },
    /// A collaborator failed; the flow is over.
    Failed { error: RagError },
}

/// What a collaborator reported back to the answer flow.
pub enum AnswerEvent {
    EmbedOk { vector: Vec<i64> },
    EmbedFailed { detail: String },
    FetchOk { rows: Vec<StoreRow> },
    FetchFailed { detail: String },
    GenerateOk { text: String },
    GenerateFailed { detail: String },
}

/// What the caller must do next for the answer flow.
pub enum AnswerAction {
    /// Ask the embedding service for the vector of this text.
    Embed { text: String },
    /// Fetch every stored row, embeddings included.
    FetchEntries,
    /// Send this prompt to the completion service.
    Generate { prompt: String },
    /// Nothing: the flow is finished.
    Stop,
}

/// Begins answering a question: the question itself is sent to the
/// embedding service first.
pub fn answer_start(question: String) -> (r: (AnswerState, AnswerAction))
    ensures
        answer_state_wf(r.0),
        r.0 matches AnswerState::AwaitingQueryEmbedding { question: q } && q == question,
        r.1 matches AnswerAction::Embed { text } && text == question,
{
    let text = question.clone();
    (AnswerState::AwaitingQueryEmbedding { question }, AnswerAction::Embed { text })
}

/// A well-formed answer state: a query vector, once accepted, is a
/// valid embedding.  Both `answer_start` and `answer_step` only
/// produce well-formed states.
pub open spec fn answer_state_wf(state: AnswerState) -> bool {
    state matches AnswerState::AwaitingEntries { question: _, query } ==> valid_embedding(query@)
}

/// The event fits the state the flow is in.
pub open spec fn answer_event_fits(state: AnswerState, event: AnswerEvent) -> bool {
    match state {
        AnswerState::AwaitingQueryEmbedding { .. } => event matches AnswerEvent::EmbedOk { .. }
            || event matches AnswerEvent::EmbedFailed { .. },
        AnswerState::AwaitingEntries { .. } => event matches AnswerEvent::FetchOk { .. }
            || event matches AnswerEvent::FetchFailed { .. },
        AnswerState::AwaitingCompletion { .. } => event matches AnswerEvent::GenerateOk { .. }
            || event matches AnswerEvent::GenerateFailed { .. },
        AnswerState::Done { .. } => false,
        AnswerState::Failed { .. } => false,
    }
}

/// Advances the answer flow by one collaborator outcome.
///
/// The steps are strictly sequential: embed the question, fetch every
/// entry, rank them and send the one composed prompt, return the
/// completion's text.  Every collaborator failure ends the flow in
/// `Failed` with the matching error kind, and an undecodable or
/// mis-dimensioned stored embedding is an integrity failure.
pub fn answer_step(state: AnswerState, event: AnswerEvent) -> (r: (AnswerState, AnswerAction))
    requires
        answer_state_wf(state),
        answer_event_fits(state, event),
    ensures
        answer_state_wf(r.0),
        state matches AnswerState::AwaitingQueryEmbedding { question } ==> {
            &&& event matches AnswerEvent::EmbedOk { vector } ==> ({
                if valid_embedding(vector@) {
                    r.0 matches AnswerState::AwaitingEntries { question: q, query } && q
                        == question && query == vector && r.1 is FetchEntries
                } else {
                    r.0 matches AnswerState::Failed { error } && error is Provider && r.1 is Stop
                }
            })
            &&& event matches AnswerEvent::EmbedFailed { detail } ==> {
                &&& r.0 matches AnswerState::Failed { error } && error is Provider
                    && error.detail() == detail@
                &&& r.1 is Stop
            }
        },
        state matches AnswerState::AwaitingEntries { question, query } ==> {
            &&& event matches AnswerEvent::FetchOk { rows } ==> {
                if forall|i: int| 0 <= i < rows@.len() ==> row_decodable(#[trigger] rows@[i]) {
                    if forall|i: int|
                        0 <= i < rows@.len() ==> row_dim(#[trigger] rows@[i], query@.len() as int) {
                        exists|es: Seq<NoteWithEmbedding>, sel: Seq<ScoredEntry>|
                            {
                                &&& entries_match_rows(rows@, es)
                                &&& is_ranking(query@, es, TOP_K as int, sel)
                                &&& r.0 matches AnswerState::AwaitingCompletion { question: q }
                                    && q == question
                                &&& r.1 matches AnswerAction::Generate { prompt } && prompt@
                                    == prompt_text(context_text(sel), question@)
                            }
                    } else {
                        r.0 matches AnswerState::Failed { error } && error is Integrity
                            && r.1 is Stop
                    }
                } else {
                    r.0 matches AnswerState::Failed { error } && error is Integrity && r.1 is Stop
                }
            }
            &&& event matches AnswerEvent::FetchFailed { detail } ==> {
                &&& r.0 matches AnswerState::Failed { error } && error is Storage
                    && error.detail() == detail@
                &&& r.1 is Stop
            }
        },
        state matches AnswerState::AwaitingCompletion { question } ==> {
            &&& event matches AnswerEvent::GenerateOk { text } ==> {
                &&& r.0 matches AnswerState::Done { answer } && answer == text
                &&& r.1 is Stop
            }
            &&& event matches AnswerEvent::GenerateFailed { detail } ==> {
                &&& r.0 matches AnswerState::Failed { error } && error is Provider
                    && error.detail() == detail@
                &&& r.1 is Stop
            }
        },
{
    match (state, event) {
        (AnswerState::AwaitingQueryEmbedding { question }, AnswerEvent::EmbedOk { vector }) => {
            if crate::vector::check_embedding(&vector) {
                (
                    AnswerState::AwaitingEntries { question, query: vector },
                    AnswerAction::FetchEntries,
                )
            } else {
                (
                    AnswerState::Failed {
                        error: RagError::Provider(
                            String::from_str("embedding service returned an unusable vector"),
                        ),
                    },
                    AnswerAction::Stop,
                )
            }
        },
        (AnswerState::AwaitingQueryEmbedding { .. }, AnswerEvent::EmbedFailed { detail }) => {
            (AnswerState::Failed { error: RagError::Provider(detail) }, AnswerAction::Stop)
        },
        (AnswerState::AwaitingEntries { question, query }, AnswerEvent::FetchOk { rows }) => {
            let entries = match entries_from_rows(&rows) {
                Ok(entries) => entries,
                Err(error) => {
                    return (AnswerState::Failed { error }, AnswerAction::Stop);
                },
            };
            proof {
                lemma_rows_dims(rows@, entries@, query@.len() as int);
            }
            let selected = match rank(&query, &entries, TOP_K) {
                Ok(selected) => selected,
                Err(error) => {
                    return (AnswerState::Failed { error }, AnswerAction::Stop);
                },
            };
            let context = build_context(&selected);
            let prompt = compose_prompt(&context, &question);
            proof {
                assert(entries_match_rows(rows@, entries@) && is_ranking(
                    query@,
                    entries@,
                    TOP_K as int,
                    selected@,
                ));
            }
            (
                AnswerState::AwaitingCompletion { question },
                AnswerAction::Generate { prompt },
            )
        },
        (AnswerState::AwaitingEntries { .. }, AnswerEvent::FetchFailed { detail }) => {
            (AnswerState::Failed { error: RagError::Storage(detail) }, AnswerAction::Stop)
        },
        (AnswerState::AwaitingCompletion { .. }, AnswerEvent::GenerateOk { text }) => {
            (AnswerState::Done { answer: text }, AnswerAction::Stop)
        },
        (AnswerState::AwaitingCompletion { .. }, AnswerEvent::GenerateFailed { detail }) => {
            (AnswerState::Failed { error: RagError::Provider(detail) }, AnswerAction::Stop)
        },
        _ => {
            proof {
                assert(false);
            }
            (
                AnswerState::Failed {
                    error: RagError::Provider(String::from_str("impossible step")),
                },
                AnswerAction::Stop,
            )
        },
    }
}

/// Where the ingest flow stands between two outside calls.
pub enum IngestState {
    /// The note's full text was sent off to be embedded.
    AwaitingEmbedding { title: String, content: String },
    /// The note and its encoded embedding were handed to the store.
    AwaitingSave { title: String, content: String },
    /// The store assigned an id; the note exists.
    Done { note: Note },
    /// A collaborator failed; nothing was persisted.
    Failed { error: RagError },
}

/// What a collaborator reported back to the ingest flow.
pub enum IngestEvent {
    EmbedOk { vector: Vec<i64> },
    EmbedFailed { detail: String },
    SaveOk { id: i64 },
    SaveFailed { detail: String },
}

/// What the caller must do next for the ingest flow.
pub enum IngestAction {
    /// Ask the embedding service for the vector of this text.
    Embed { text: String },
    /// Persist title, content and encoded embedding as one new record.
    Save { title: String, content: String, encoded: String },
    /// Nothing: the flow is finished.
    Stop,
}

/// Begins ingesting a note: its full text is embedded first; nothing
/// is persisted until the embedding is in hand.
pub fn ingest_start(title: String, content: String, full_text: String) -> (r: (
    IngestState,
    IngestAction,
))
    ensures
        r.0 matches IngestState::AwaitingEmbedding { title: t, content: c } && t == title && c
            == content,
        r.1 matches IngestAction::Embed { text } && text == full_text,
{
    (
        IngestState::AwaitingEmbedding { title, content },
        IngestAction::Embed { text: full_text },
    )
}

/// The event fits the state the flow is in.
pub open spec fn ingest_event_fits(state: IngestState, event: IngestEvent) -> bool {
    match state {
        IngestState::AwaitingEmbedding { .. } => event matches IngestEvent::EmbedOk { .. }
            || event matches IngestEvent::EmbedFailed { .. },
        IngestState::AwaitingSave { .. } => event matches IngestEvent::SaveOk { .. }
            || event matches IngestEvent::SaveFailed { .. },
        IngestState::Done { .. } => false,
        IngestState::Failed { .. } => false,
    }
}

/// Advances the ingest flow by one collaborator outcome.
///
/// The note and its embedding are handed to the store together, as
/// one record: a failed embedding never reaches the store, and a
/// failed save persists nothing.
pub fn ingest_step(state: IngestState, event: IngestEvent) -> (r: (IngestState, IngestAction))
    requires
        ingest_event_fits(state, event),
    ensures
        state matches IngestState::AwaitingEmbedding { title, content } ==> {
            &&& event matches IngestEvent::EmbedOk { vector } ==> ({
                if valid_embedding(vector@) {
                    r.0 matches IngestState::AwaitingSave { title: t, content: c } && t == title
                        && c == content && (r.1 matches IngestAction::Save {
                        title: t2,
                        content: c2,
                        encoded,
                    } && t2 == title && c2 == content && encoded@ == encode_text(vector@))
                } else {
                    r.0 matches IngestState::Failed { error } && error is Provider && r.1 is Stop
                }
            })
            &&& event matches IngestEvent::EmbedFailed { detail } ==> {
                &&& r.0 matches IngestState::Failed { error } && error is Provider
                    && error.detail() == detail@
                &&& r.1 is Stop
            }
        },
        state matches IngestState::AwaitingSave { title, content } ==> {
            &&& event matches IngestEvent::SaveOk { id } ==> {
                &&& r.0 matches IngestState::Done { note } && note.id == id && note.title == title
                    && note.content == content
                &&& r.1 is Stop
            }
            &&& event matches IngestEvent::SaveFailed { detail } ==> {
                &&& r.0 matches IngestState::Failed { error } && error is Storage
                    && error.detail() == detail@
                &&& r.1 is Stop
            }
        },
{
    match (state, event) {
        (IngestState::AwaitingEmbedding { title, content }, IngestEvent::EmbedOk { vector }) => {
            if crate::vector::check_embedding(&vector) {
                let encoded = embedding_to_text(&vector);
                let t2 = title.clone();
                let c2 = content.clone();
                (
                    IngestState::AwaitingSave { title, content },
                    IngestAction::Save { title: t2, content: c2, encoded },
                )
            } else {
                (
                    IngestState::Failed {
                        error: RagError::Provider(
                            String::from_str("embedding service returned an unusable vector"),
                        ),
                    },
                    IngestAction::Stop,
                )
            }
        },
        (IngestState::AwaitingEmbedding { .. }, IngestEvent::EmbedFailed { detail }) => {
            (IngestState::Failed { error: RagError::Provider(detail) }, IngestAction::Stop)
        },
        (IngestState::AwaitingSave { title, content }, IngestEvent::SaveOk { id }) => {
            (IngestState::Done { note: Note { id, title, content } }, IngestAction::Stop)
        },
        (IngestState::AwaitingSave { .. }, IngestEvent::SaveFailed { detail }) => {
            (IngestState::Failed { error: RagError::Storage(detail) }, IngestAction::Stop)
        },
        _ => {
            proof {
                assert(false);
            }
            (
                IngestState::Failed {
                    error: RagError::Provider(String::from_str("impossible step")),
                },
                IngestAction::Stop,
            )
        },
    }
}

/// Turns the store's report of a delete into the operation's result.
///
/// The store reports only whether the delete statement ran; how many
/// rows it removed does not matter, so deleting an id that does not
/// exist succeeds.
pub fn delete_outcome(store_ok: bool, detail: String) -> (r: Result<(), RagError>)
    ensures
        r is Ok <==> store_ok,
        r is Err ==> r->Err_0 is Storage && r->Err_0.detail() == detail@,
{
    if store_ok {
        Ok(())
    } else {
        Err(RagError::Storage(detail))
    }
}

} // verus!
