//! The stored records the pipeline works over.

use vstd::prelude::*;

verus! {

/// A persisted note, as shown to the caller: no embedding attached.
pub struct Note {
    pub id: i64,
    pub title: String,
    pub content: String,
}

/// A persisted note together with its decoded embedding, as the
/// ranking pass consumes it.
pub struct NoteWithEmbedding {
    pub id: i64,
    pub title: String,
    pub content: String,
    pub embedding: Vec<i64>,
}

/// Builds the display list of notes from plain store rows, keeping the
/// store's own order.
pub fn notes_from_rows(rows: Vec<(i64, String, String)>) -> (r: Vec<Note>)
    ensures
        r@.len() == rows@.len(),
        forall|i: int|
            0 <= i < rows@.len() ==> {
                &&& (#[trigger] r@[i]).id == rows@[i].0
                &&& r@[i].title == rows@[i].1
                &&& r@[i].content == rows@[i].2
            },
{
    let mut out: Vec<Note> = Vec::new();
    let mut i: usize = 0;
    while i < rows.len()
        invariant
            i <= rows@.len(),
            out@.len() == i,
            forall|j: int|
                0 <= j < i ==> {
                    &&& (#[trigger] out@[j]).id == rows@[j].0
                    &&& out@[j].title == rows@[j].1
                    &&& out@[j].content == rows@[j].2
                },
        decreases rows@.len() - i,
    {
        let row = &rows[i];
        out.push(Note { id: row.0, title: row.1.clone(), content: row.2.clone() });
        i = i + 1;
    }
    out
}

} // verus!
