//! Ranking stored entries against a query embedding.
//!
//! Every entry is scored by cosine similarity, the entries are sorted
//! by descending score — entries of equal score keep their input order
//! — and the best `k` are returned.  The sort key is the pair of score
//! and input position, so the ranking is a total order and the result
//! is unique.

use vstd::prelude::*;
use vstd::string::StringExecFns;

use crate::errors::RagError;
use crate::note::NoteWithEmbedding;
use crate::vector::{cosine_similarity, cosine_spec, valid_embedding};

verus! {

/// A ranked entry: the note's fields, its similarity score in
/// millionths, and the position it held in the input sequence.
pub struct ScoredEntry {
    pub id: i64,
    pub title: String,
    pub content: String,
    pub score: i128,
    pub pos: usize,
}

/// The ranking order: a higher score comes first; at equal scores the
/// earlier input position comes first.
pub open spec fn before(s1: int, p1: int, s2: int, p2: int) -> bool {
    s1 > s2 || (s1 == s2 && p1 < p2)
}

/// The score entry `p` earns against the query `q`.
pub open spec fn entry_score(q: Seq<i64>, entries: Seq<NoteWithEmbedding>, p: int) -> int {
    cosine_spec(entries[p].embedding@, q)
}

/// Position `p` of the input is among the returned entries.
pub open spec fn appears(s: Seq<ScoredEntry>, p: int) -> bool {
    exists|j: int| 0 <= j < s.len() && (#[trigger] s[j]).pos as int == p
}

/// Every returned entry ranks before a hypothetical entry of score
/// `sc` at input position `p`.
pub open spec fn ranks_after_all(s: Seq<ScoredEntry>, sc: int, p: int) -> bool {
    forall|j: int|
        0 <= j < s.len() ==> before((#[trigger] s[j]).score as int, s[j].pos as int, sc, p)
}

/// Keys sorted by the ranking order, strictly: no two keys are equal.
pub open spec fn sorted_keys(s: Seq<(i128, usize)>) -> bool {
    forall|i: int, j: int|
        0 <= i < j < s.len() ==> before(
            (#[trigger] s[i]).0 as int,
            s[i].1 as int,
            (#[trigger] s[j]).0 as int,
            s[j].1 as int,
        )
}

fn before_exec(s1: i128, p1: usize, s2: i128, p2: usize) -> (b: bool)
    ensures
        b == before(s1 as int, p1 as int, s2 as int, p2 as int),
{
    if s1 > s2 {
        true
    } else if s1 == s2 {
        p1 < p2
    } else {
        false
    }
}

/// Sorts score/position keys by the ranking order.  The positions of
/// the input keys must be pairwise distinct, which makes the order
/// total and the sorted sequence unique.
fn sort_keys(keys: &Vec<(i128, usize)>) -> (out: Vec<(i128, usize)>)
    requires
        forall|i: int, j: int|
            0 <= i < j < keys@.len() ==> (#[trigger] keys@[i]).1 != (#[trigger] keys@[j]).1,
    ensures
        out@.len() == keys@.len(),
        sorted_keys(out@),
        forall|j: int| 0 <= j < out@.len() ==> keys@.contains(#[trigger] out@[j]),
        forall|i: int| 0 <= i < keys@.len() ==> out@.contains(#[trigger] keys@[i]),
{
    let mut out: Vec<(i128, usize)> = Vec::new();
    let mut idx: usize = 0;
    while idx < keys.len()
        invariant
            idx <= keys@.len(),
            out@.len() == idx,
            sorted_keys(out@),
            forall|i: int, j: int|
                0 <= i < j < keys@.len() ==> (#[trigger] keys@[i]).1 != (#[trigger] keys@[j]).1,
            forall|j: int|
                0 <= j < out@.len() ==> keys@.take(idx as int).contains(#[trigger] out@[j]),
            forall|i: int| 0 <= i < idx ==> out@.contains(#[trigger] keys@[i]),
        decreases keys@.len() - idx,
    {
        let x = keys[idx];
        let mut kpos: usize = 0;
        while kpos < out.len() && before_exec(out[kpos].0, out[kpos].1, x.0, x.1)
            invariant
                kpos <= out@.len(),
                forall|a: int|
                    0 <= a < kpos ==> before(
                        (#[trigger] out@[a]).0 as int,
                        out@[a].1 as int,
                        x.0 as int,
                        x.1 as int,
                    ),
            decreases out@.len() - kpos,
        {
            kpos = kpos + 1;
        }
        proof {
            // x ranks before everything at or past the insertion point:
            // its position differs from every present position, so the
            // order is total on them
            assert forall|a: int| kpos <= a < out@.len() implies before(
                x.0 as int,
                x.1 as int,
                (out@[a]).0 as int,
                out@[a].1 as int,
            ) by {
                assert(keys@.take(idx as int).contains(out@[a]));
                let i = choose|i: int|
                    0 <= i < idx && keys@.take(idx as int)[i] == out@[a];
                assert(keys@[i] == out@[a]);
                assert(keys@[i].1 != keys@[idx as int].1);
                assert(out@[a].1 != x.1);
                if a > kpos {
                    assert(before(
                        (out@[kpos as int]).0 as int,
                        out@[kpos as int].1 as int,
                        (out@[a]).0 as int,
                        out@[a].1 as int,
                    ));
                }
            }
        }
        let ghost old_out = out@;
        out.insert(kpos, x);
        proof {
            old_out.insert_ensures(kpos as int, x);
            assert(keys@.take(idx as int + 1)[idx as int] == keys@[idx as int]);
            assert(keys@.take(idx as int + 1).contains(keys@[idx as int]));
            // everything the old output contained, the new one contains,
            // and x came from the input prefix as well
            assert forall|j: int| 0 <= j < out@.len() implies keys@.take(
                idx as int + 1,
            ).contains(#[trigger] out@[j]) by {
                if j < kpos {
                    assert(out@[j] == old_out[j]);
                    let i = choose|i: int|
                        0 <= i < idx && keys@.take(idx as int)[i] == old_out[j];
                    assert(keys@.take(idx as int + 1)[i] == out@[j]);
                } else if j == kpos {
                    assert(out@[j] == x);
                    assert(keys@.take(idx as int + 1)[idx as int] == x);
                } else {
                    assert(out@[j] == old_out[j - 1]);
                    let i = choose|i: int|
                        0 <= i < idx && keys@.take(idx as int)[i] == old_out[j - 1];
                    assert(keys@.take(idx as int + 1)[i] == out@[j]);
                }
            }
            assert forall|i: int| 0 <= i < idx as int + 1 implies out@.contains(
                #[trigger] keys@[i],
            ) by {
                if i == idx as int {
                    assert(out@[kpos as int] == keys@[idx as int]);
                } else {
                    let j = choose|j: int| 0 <= j < old_out.len() && old_out[j] == keys@[i];
                    if j < kpos {
                        assert(out@[j] == keys@[i]);
                    } else {
                        assert(out@[j + 1] == keys@[i]);
                    }
                }
            }
            assert(sorted_keys(out@));
        }
        idx = idx + 1;
    }
    proof {
        assert(keys@.take(idx as int) =~= keys@);
    }
    out
}

/// What it means for `s` to be the ranking of `entries` against the
/// query `q`, cut to the best `k`: exactly `min(k, n)` entries, each a
/// correctly scored input entry, strictly ordered by descending score
/// with ties in input order, and nothing left out that would have
/// ranked before a selected entry.
pub open spec fn is_ranking(q: Seq<i64>, entries: Seq<NoteWithEmbedding>, k: int, s: Seq<
    ScoredEntry,
>) -> bool {
    let n = entries.len() as int;
    &&& s.len() == if k <= n {
        k
    } else {
        n
    }
    &&& forall|j: int|
        0 <= j < s.len() ==> {
            let p = (#[trigger] s[j]).pos as int;
            &&& 0 <= p < n
            &&& s[j].id == entries[p].id
            &&& s[j].title == entries[p].title
            &&& s[j].content == entries[p].content
            &&& s[j].score as int == entry_score(q, entries, p)
        }
    &&& forall|i: int, j: int|
        0 <= i < j < s.len() ==> before(
            (#[trigger] s[i]).score as int,
            s[i].pos as int,
            (#[trigger] s[j]).score as int,
            s[j].pos as int,
        )
    &&& forall|p: int|
        0 <= p < n ==> #[trigger] appears(s, p) || ranks_after_all(s, entry_score(q, entries, p), p)
}

/// Scores every entry against `q`, sorts by descending score with ties
/// kept in input order, and returns the first `min(k, n)` entries.
///
/// Fails with an integrity error exactly when some stored embedding
/// does not have the query's dimension.
pub fn rank(q: &Vec<i64>, entries: &Vec<NoteWithEmbedding>, k: usize) -> (r: Result<
    Vec<ScoredEntry>,
    RagError,
>)
    requires
        valid_embedding(q@),
        forall|i: int|
            0 <= i < entries@.len() ==> valid_embedding((#[trigger] entries@[i]).embedding@),
    ensures
        r is Ok <==> (forall|i: int|
            0 <= i < entries@.len() ==> (#[trigger] entries@[i]).embedding@.len() == q@.len()),
        r is Err ==> r->Err_0 is Integrity,
        r is Ok ==> is_ranking(q@, entries@, k as int, r->Ok_0@),
{
    let n = entries.len();
    let mut i: usize = 0;
    while i < n
        invariant
            i <= n,
            n == entries@.len(),
            forall|t: int| 0 <= t < i ==> (#[trigger] entries@[t]).embedding@.len() == q@.len(),
        decreases n - i,
    {
        if entries[i].embedding.len() != q.len() {
            return Err(
                RagError::Integrity(
                    String::from_str("stored embedding does not match the query dimension"),
                ),
            );
        }
        i = i + 1;
    }
    let mut keys: Vec<(i128, usize)> = Vec::new();
    let mut idx: usize = 0;
    while idx < n
        invariant
            idx <= n,
            n == entries@.len(),
            valid_embedding(q@),
            forall|t: int|
                0 <= t < entries@.len() ==> valid_embedding((#[trigger] entries@[t]).embedding@),
            forall|t: int| 0 <= t < entries@.len() ==> (#[trigger] entries@[t]).embedding@.len() == q@.len(),
            keys@.len() == idx,
            forall|t: int|
                0 <= t < idx ==> (#[trigger] keys@[t]).0 as int == entry_score(q@, entries@, t)
                    && keys@[t].1 as int == t,
        decreases n - idx,
    {
        let sc = cosine_similarity(&entries[idx].embedding, q);
        keys.push((sc, idx));
        idx = idx + 1;
    }
    let sorted = sort_keys(&keys);
    let m = if k <= n {
        k
    } else {
        n
    };
    let mut res: Vec<ScoredEntry> = Vec::new();
    let mut j: usize = 0;
    while j < m
        invariant
            j <= m,
            m <= n,
            n == entries@.len(),
            sorted@.len() == n,
            keys@.len() == n,
            forall|t: int|
                0 <= t < n ==> (#[trigger] keys@[t]).0 as int == entry_score(q@, entries@, t)
                    && keys@[t].1 as int == t,
            forall|t: int| 0 <= t < n ==> keys@.contains(#[trigger] sorted@[t]),
            res@.len() == j,
            forall|t: int|
                0 <= t < j ==> {
                    let e = #[trigger] res@[t];
                    &&& e.score == sorted@[t].0
                    &&& e.pos == sorted@[t].1
                    &&& (e.pos as int) < n
                    &&& e.id == entries@[e.pos as int].id
                    &&& e.title == entries@[e.pos as int].title
                    &&& e.content == entries@[e.pos as int].content
                    &&& e.score as int == entry_score(q@, entries@, e.pos as int)
                },
        decreases m - j,
    {
        let key = sorted[j];
        proof {
            let t = choose|t: int| 0 <= t < keys@.len() && keys@[t] == sorted@[j as int];
            assert(keys@[t].1 as int == t);
            assert(key.1 as int == t);
        }
        let p = key.1;
        let e = &entries[p];
        res.push(
            ScoredEntry {
                id: e.id,
                title: e.title.clone(),
                content: e.content.clone(),
                score: key.0,
                pos: p,
            },
        );
        j = j + 1;
    }
    proof {
        let s = res@;
        assert forall|p: int| 0 <= p < n as int implies appears(s, p) || ranks_after_all(
            s,
            entry_score(q@, entries@, p),
            p,
        ) by {
            assert(sorted@.contains(keys@[p]));
            let t = choose|t: int| 0 <= t < sorted@.len() && sorted@[t] == keys@[p];
            if t < m as int {
                assert(s[t].pos as int == p);
                assert(appears(s, p));
            } else {
                assert forall|j: int| 0 <= j < s.len() implies before(
                    (#[trigger] s[j]).score as int,
                    s[j].pos as int,
                    entry_score(q@, entries@, p),
                    p,
                ) by {
                    assert(before(
                        (sorted@[j]).0 as int,
                        sorted@[j].1 as int,
                        (sorted@[t]).0 as int,
                        sorted@[t].1 as int,
                    ));
                }
                assert(ranks_after_all(s, entry_score(q@, entries@, p), p));
            }
        }
    }
    Ok(res)
}

} // verus!
