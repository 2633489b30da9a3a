//! Deterministic text assembly: the context block built from ranked
//! entries, and the single prompt sent to the completion service.
//!
//! The exact templates are part of the pipeline's contract: the same
//! entries and question always produce the same prompt.

use vstd::prelude::*;
use vstd::string::StringExecFns;

use crate::rank::ScoredEntry;

verus! {

/// The text block one ranked entry contributes to the context.
pub open spec fn entry_block(title: Seq<char>, content: Seq<char>) -> Seq<char> {
    "Title: "@ + title + " \n\n Content: "@ + content + "\n"@
}

/// The whole context: each selected entry's block, in ranked order; an
/// empty selection gives the empty context.
pub open spec fn context_text(s: Seq<ScoredEntry>) -> Seq<char>
    decreases s.len(),
{
    if s.len() == 0 {
        Seq::empty()
    } else {
        context_text(s.drop_last()) + entry_block(s.last().title@, s.last().content@)
    }
}

/// Ranking an empty entry set yields the empty context.
pub proof fn lemma_empty_context(s: Seq<ScoredEntry>)
    requires
        s.len() == 0,
    ensures
        context_text(s) == Seq::<char>::empty(),
{
}

/// Assembles the context string of the selected entries, in order.
pub fn build_context(ranked: &Vec<ScoredEntry>) -> (r: String)
    ensures
        r@ == context_text(ranked@),
{
    let mut out = String::new();
    let mut i: usize = 0;
    while i < ranked.len()
        invariant
            i <= ranked@.len(),
            out@ == context_text(ranked@.take(i as int)),
        decreases ranked@.len() - i,
    {
        out.append("Title: ");
        out.append(ranked[i].title.as_str());
        out.append(" \n\n Content: ");
        out.append(ranked[i].content.as_str());
        out.append("\n");
        i = i + 1;
        proof {
            assert(ranked@.take(i as int).drop_last() =~= ranked@.take(i as int - 1));
            assert(ranked@.take(i as int).last() == ranked@[i as int - 1]);
            assert(out@ =~= context_text(ranked@.take(i as int)));
        }
    }
    proof {
        assert(ranked@.take(i as int) =~= ranked@);
    }
    out
}

/// The fixed instruction block that opens every prompt.
pub open spec fn instruction_text() -> Seq<char> {
    "You are an expert at reading comprehension.
        Only answer the question and ignore all information unrelated to the question.
        Answer short and concisely, skipping over unecessary information.
        However, be aware that the information could be in multiple notes.
        Put in all information you can find in the notes. Use cold and professional tone.
        If the information is not present in the context, say 'There is no information on this in the notes'.
        Using the following context, answer the question."@
}

/// The one prompt sent to the completion service: instructions, then
/// the context, then the question verbatim.
pub open spec fn prompt_text(context: Seq<char>, question: Seq<char>) -> Seq<char> {
    instruction_text() + " \n\n Context:\n "@ + context + " \n\n\n Question:\n "@ + question
}

/// Builds the prompt for a context block and a question.
pub fn compose_prompt(context: &String, question: &String) -> (r: String)
    ensures
        r@ == prompt_text(context@, question@),
{
    let mut out = String::from_str(
        "You are an expert at reading comprehension.
        Only answer the question and ignore all information unrelated to the question.
        Answer short and concisely, skipping over unecessary information.
        However, be aware that the information could be in multiple notes.
        Put in all information you can find in the notes. Use cold and professional tone.
        If the information is not present in the context, say 'There is no information on this in the notes'.
        Using the following context, answer the question.",
    );
    out.append(" \n\n Context:\n ");
    out.append(context.as_str());
    out.append(" \n\n\n Question:\n ");
    out.append(question.as_str());
    proof {
        assert(out@ =~= prompt_text(context@, question@));
    }
    out
}

/// The demonstration greeting of the shell.
pub fn greet(name: &str) -> (r: String)
    ensures
        r@ == "Hello, "@ + name@ + "! You've been greeted from Rust!"@,
{
    let mut out = String::from_str("Hello, ");
    out.append(name);
    out.append("! You've been greeted from Rust!");
    proof {
        assert(out@ =~= "Hello, "@ + name@ + "! You've been greeted from Rust!"@);
    }
    out
}

} // verus!
