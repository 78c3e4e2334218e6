//! The vector store: chunks with their embeddings, kept under the name of
//! their document.
//!
//! [`ChunkStore`] keeps the chunks in memory.  Its contracts are those of
//! any store of chunks, whatever it keeps them in.

use crate::embedding::{view_of, Embedding, DIMENSION};
use crate::rank::{
    admits, candidate_views, hit_of, hit_views, lemma_nearest_are_eligible,
    lemma_strictly_nearest_is_first, nearest, rank_nearest, Candidate, CandidateView, Hit,
    NameFilter,
};
use crate::score::Score;
use vstd::prelude::*;

verus! {

/// Why the store did not do what it was asked.
#[derive(Clone, Copy, Debug, PartialEq, Eq, Structural)]
pub enum StoreError {
    /// The store could not be reached.
    Unavailable,
    /// A vector has not the dimension of the store's vectors.
    SchemaMismatch,
    /// The store refused or failed a query.
    QueryFailed,
}

/// A piece of a document's text with what it is found by.
#[derive(Debug, PartialEq, Eq)]
pub struct Chunk {
    /// The text.
    pub text: String,
    /// The embedding of the text.
    pub embedding: Embedding,
    /// The name of the document that the text is from.
    pub document_name: String,
    /// The embedding of that name, where the chunk is stored with one.
    pub name_embedding: Option<Embedding>,
}

/// What a [`Chunk`] is to the specifications.
pub struct ChunkView {
    pub text: Seq<char>,
    pub embedding: Seq<u32>,
    pub document_name: Seq<char>,
    pub name_embedding: Option<Seq<u32>>,
}

impl View for Chunk {
    type V = ChunkView;

    open spec fn view(&self) -> ChunkView {
        ChunkView {
            text: self.text@,
            embedding: self.embedding@,
            document_name: self.document_name@,
            name_embedding: match self.name_embedding {
                Some(e) => Some(e@),
                None => None,
            },
        }
    }
}

impl ChunkView {
    /// Whether the vectors of the chunk have the dimension of the store.
    pub open spec fn wf(self) -> bool {
        &&& self.embedding.len() == DIMENSION
        &&& self.name_embedding matches Some(e) ==> e.len() == DIMENSION
    }
}

/// The views of chunks.
pub open spec fn chunk_views(v: Seq<Chunk>) -> Seq<ChunkView> {
    Seq::new(v.len(), |i: int| v[i]@)
}

/// Whether every chunk has vectors of the store's dimension.
pub open spec fn all_wf(rows: Seq<ChunkView>) -> bool {
    forall|i: int| 0 <= i < rows.len() ==> (#[trigger] rows[i]).wf()
}

/// The chunks of the documents with another name, in their order.
pub open spec fn others(rows: Seq<ChunkView>, name: Seq<char>) -> Seq<ChunkView>
    decreases rows.len(),
{
    if rows.len() == 0 {
        Seq::empty()
    } else {
        let before = others(rows.drop_last(), name);
        if rows.last().document_name == name {
            before
        } else {
            before.push(rows.last())
        }
    }
}

/// Whether the vectors of a chunk that is to be stored fit the store.
pub open spec fn fits(embedding: Seq<u32>, name_embedding: Option<Seq<u32>>) -> bool {
    &&& embedding.len() == DIMENSION
    &&& name_embedding matches Some(e) ==> e.len() == DIMENSION
}

/// Whether `cands` are the chunks `rows` scored against `query` by
/// `distance_fn`: one candidate for each chunk, in order, with the chunk's
/// text, a distance that `distance_fn` gave for the chunk's embedding, and,
/// where the chunk has a name embedding, one that it gave for that.
pub open spec fn scored<F: Fn(&Vec<u32>, &Vec<u32>) -> Score>(
    rows: Seq<ChunkView>,
    query: &Vec<u32>,
    distance_fn: F,
    cands: Seq<CandidateView>,
) -> bool {
    &&& cands.len() == rows.len()
    &&& forall|i: int|
        0 <= i < rows.len() ==> {
            &&& (#[trigger] cands[i]).text == rows[i].text
            &&& exists|e: &Vec<u32>|
                e@ == rows[i].embedding && distance_fn.ensures((query, e), cands[i].distance)
            &&& match rows[i].name_embedding {
                Some(n) => cands[i].name_distance matches Some(d) && exists|e: &Vec<u32>|
                    e@ == n && distance_fn.ensures((query, e), d),
                None => cands[i].name_distance is None,
            }
        }
}

/// Chunks kept in memory, in the order in which they were stored.
#[derive(Debug, PartialEq, Eq)]
pub struct ChunkStore {
    rows: Vec<Chunk>,
}

impl View for ChunkStore {
    type V = Seq<ChunkView>;

    closed spec fn view(&self) -> Seq<ChunkView> {
        chunk_views(self.rows@)
    }
}

impl ChunkStore {
    #[verifier::type_invariant]
    spec fn inv(&self) -> bool {
        all_wf(chunk_views(self.rows@))
    }

    /// A store without chunks.
    pub fn new() -> (s: ChunkStore)
        ensures
            s@ == Seq::<ChunkView>::empty(),
    {
        let s = ChunkStore { rows: Vec::new() };
        assert(s@ =~= Seq::<ChunkView>::empty());
        s
    }

    /// The number of chunks.
    pub fn len(&self) -> (n: usize)
        ensures
            n == self@.len(),
    {
        self.rows.len()
    }

    /// The chunks, oldest first.  Every one of them has vectors of the
    /// store's dimension.
    pub fn chunks(&self) -> (rows: &Vec<Chunk>)
        ensures
            chunk_views(rows@) == self@,
            all_wf(self@),
    {
        proof {
            use_type_invariant(self);
        }
        &self.rows
    }

    /// Stores one chunk behind those that are there.
    ///
    /// A vector of another dimension than [`DIMENSION`] is refused with
    /// [`StoreError::SchemaMismatch`], and the store stays as it is.
    pub fn insert_chunk(
        &mut self,
        text: String,
        embedding: Vec<u32>,
        document_name: String,
        name_embedding: Option<Vec<u32>>,
    ) -> (r: Result<(), StoreError>)
        ensures
            r is Ok <==> fits(embedding@, view_of(name_embedding)),
            r is Ok ==> final(self)@ == old(self)@.push(
                ChunkView {
                    text: text@,
                    embedding: embedding@,
                    document_name: document_name@,
                    name_embedding: view_of(name_embedding),
                },
            ),
            r is Err ==> r == Err::<(), StoreError>(StoreError::SchemaMismatch) && final(self)@
                == old(self)@,
    {
        let embedding = match Embedding::new(embedding) {
            Some(e) => e,
            None => {
                return Err(StoreError::SchemaMismatch);
            },
        };
        let name_embedding = match name_embedding {
            None => None,
            Some(bits) => match Embedding::new(bits) {
                Some(e) => Some(e),
                None => {
                    return Err(StoreError::SchemaMismatch);
                },
            },
        };
        let chunk = Chunk { text, embedding, document_name, name_embedding };
        proof {
            use_type_invariant(&*self);
        }
        let mut rows: Vec<Chunk> = Vec::new();
        std::mem::swap(&mut self.rows, &mut rows);
        let ghost before = chunk_views(rows@);
        rows.push(chunk);
        assert(chunk_views(rows@) == before.push(chunk@));
        self.rows = rows;
        Ok(())
    }

    /// Removes every chunk of the document `name` and says how many there
    /// were.  A name that no chunk has removes nothing.
    pub fn delete_by_document_name(&mut self, name: &str) -> (removed: usize)
        ensures
            final(self)@ == others(old(self)@, name@),
            removed == old(self)@.len() - final(self)@.len(),
    {
        let wanted = name.to_owned();
        proof {
            use_type_invariant(&*self);
        }
        let mut stored: Vec<Chunk> = Vec::new();
        std::mem::swap(&mut self.rows, &mut stored);
        let ghost all = stored@;
        let ghost before = chunk_views(all);
        let mut kept: Vec<Chunk> = Vec::new();
        let mut removed: usize = 0;
        assert(before.take(0) =~= Seq::<ChunkView>::empty());
        assert(all.len() == stored.len());
        for chunk in it: stored
            invariant
                wanted@ == name@,
                it.seq() == all,
                before == chunk_views(all),
                all.len() <= usize::MAX,
                all_wf(before),
                kept.len() + removed == it.index(),
                chunk_views(kept@) == others(before.take(it.index() as int), name@),
                all_wf(chunk_views(kept@)),
        {
            proof {
                let next = before.take(it.index() + 1);
                assert(next.drop_last() == before.take(it.index() as int));
                assert(next.last() == chunk@);
                assert(before[it.index() as int].wf());
            }
            if chunk.document_name == wanted {
                removed += 1;
            } else {
                let ghost done = chunk_views(kept@);
                kept.push(chunk);
                assert(chunk_views(kept@) == done.push(chunk@));
            }
        }
        assert(before.take(all.len() as int) == before);
        self.rows = kept;
        removed
    }

    /// Scores every chunk against `query`: one candidate for each chunk, in
    /// the order of the store.
    pub fn score_chunks<F: Fn(&Vec<u32>, &Vec<u32>) -> Score>(
        &self,
        query: &Vec<u32>,
        distance_fn: &F,
    ) -> (cands: Vec<Candidate>)
        requires
            forall|a: &Vec<u32>, b: &Vec<u32>|
                a@.len() == DIMENSION && b@.len() == DIMENSION ==> #[trigger] distance_fn.requires(
                    (a, b),
                ),
            query@.len() == DIMENSION,
        ensures
            scored(self@, query, *distance_fn, candidate_views(cands@)),
    {
        let mut cands: Vec<Candidate> = Vec::new();
        let mut i: usize = 0;
        while i < self.rows.len()
            invariant
                i <= self.rows.len(),
                query@.len() == DIMENSION,
                forall|a: &Vec<u32>, b: &Vec<u32>|
                    a@.len() == DIMENSION && b@.len() == DIMENSION
                        ==> #[trigger] distance_fn.requires((a, b)),
                scored(self@.take(i as int), query, *distance_fn, candidate_views(cands@)),
            decreases self.rows.len() - i,
        {
            let row = &self.rows[i];
            let e = row.embedding.components();
            let distance = distance_fn(query, e);
            let name_distance = match &row.name_embedding {
                Some(n) => Some(distance_fn(query, n.components())),
                None => None,
            };
            let ghost before = candidate_views(cands@);
            let c = Candidate { text: row.text.clone(), distance, name_distance };
            cands.push(c);
            proof {
                let after = candidate_views(cands@);
                let rows = self@.take(i + 1);
                assert(after == before.push(c@));
                assert forall|k: int| 0 <= k < rows.len() implies {
                    &&& (#[trigger] after[k]).text == rows[k].text
                    &&& exists|e: &Vec<u32>|
                        e@ == rows[k].embedding && distance_fn.ensures(
                            (query, e),
                            after[k].distance,
                        )
                    &&& match rows[k].name_embedding {
                        Some(n) => after[k].name_distance matches Some(d) && exists|e: &Vec<u32>|
                            e@ == n && distance_fn.ensures((query, e), d),
                        None => after[k].name_distance is None,
                    }
                } by {
                    if k < i {
                        assert(rows[k] == self@.take(i as int)[k]);
                        assert(after[k] == before[k]);
                    } else {
                        assert(rows[k] == row@);
                    }
                }
            }
            i += 1;
        }
        assert(self@.take(self.rows.len() as int) == self@);
        cands
    }

    /// Answers a query: scores every chunk against `query` with
    /// `distance_fn`, drops the chunks that fail the filter, and returns the
    /// `k` nearest of the rest, nearest first.
    ///
    /// The filter is judged by the same `distance_fn`, applied to the
    /// embedding of the chunk's document name.  A query of another
    /// dimension than [`DIMENSION`] is refused with
    /// [`StoreError::SchemaMismatch`].
    pub fn query_nearest<F: Fn(&Vec<u32>, &Vec<u32>) -> Score>(
        &self,
        query: &Vec<u32>,
        k: usize,
        distance_fn: F,
        filter: &Option<NameFilter>,
    ) -> (r: Result<Vec<Hit>, StoreError>)
        requires
            forall|a: &Vec<u32>, b: &Vec<u32>|
                a@.len() == DIMENSION && b@.len() == DIMENSION ==> #[trigger] distance_fn.requires(
                    (a, b),
                ),
        ensures
            r is Ok <==> query@.len() == DIMENSION,
            r is Err ==> r == Err::<Vec<Hit>, StoreError>(StoreError::SchemaMismatch),
            r matches Ok(hits) ==> exists|cands: Seq<CandidateView>|
                #[trigger] scored(self@, query, distance_fn, cands) && hit_views(hits@) == nearest(
                    cands,
                    k as int,
                    *filter,
                ),
    {
        if query.len() != DIMENSION {
            return Err(StoreError::SchemaMismatch);
        }
        let cands = self.score_chunks(query, &distance_fn);
        let hits = rank_nearest(&cands, k, filter);
        assert(scored(self@, query, distance_fn, candidate_views(cands@)));
        Ok(hits)
    }
}

/// What deleting a document leaves: no chunk of that name, and every chunk
/// of another name.
pub proof fn lemma_others_members(rows: Seq<ChunkView>, name: Seq<char>)
    ensures
        others(rows, name).len() <= rows.len(),
        forall|i: int|
            0 <= i < others(rows, name).len() ==> (#[trigger] others(rows, name)[i]).document_name
                != name && rows.contains(others(rows, name)[i]),
        forall|i: int|
            0 <= i < rows.len() && (#[trigger] rows[i]).document_name != name ==> others(
                rows,
                name,
            ).contains(rows[i]),
    decreases rows.len(),
{
    if rows.len() > 0 {
        let init = rows.drop_last();
        let kept = others(init, name);
        lemma_others_members(init, name);
        let out = others(rows, name);
        assert forall|i: int| 0 <= i < out.len() implies (#[trigger] out[i]).document_name != name
            && rows.contains(out[i]) by {
            if i < kept.len() {
                assert(out[i] == kept[i]);
                let m = choose|m: int| 0 <= m < init.len() && init[m] == kept[i];
                assert(rows[m] == init[m]);
            } else {
                assert(out[i] == rows[rows.len() - 1]);
            }
        }
        assert forall|i: int|
            0 <= i < rows.len() && (#[trigger] rows[i]).document_name != name implies out.contains(
            rows[i],
        ) by {
            if i < init.len() {
                assert(init[i] == rows[i]);
                let m = choose|m: int| 0 <= m < kept.len() && kept[m] == init[i];
                assert(out[m] == kept[m]);
            } else {
                assert(out[out.len() - 1] == rows[i]);
            }
        }
    }
}

/// Where no chunk has the name, deleting it changes nothing.
pub proof fn lemma_delete_absent(rows: Seq<ChunkView>, name: Seq<char>)
    requires
        forall|i: int| 0 <= i < rows.len() ==> (#[trigger] rows[i]).document_name != name,
    ensures
        others(rows, name) == rows,
    decreases rows.len(),
{
    if rows.len() > 0 {
        let init = rows.drop_last();
        assert forall|i: int| 0 <= i < init.len() implies (#[trigger] init[i]).document_name
            != name by {
            assert(init[i] == rows[i]);
        }
        lemma_delete_absent(init, name);
        assert(rows[rows.len() - 1].document_name != name);
        assert(init.push(rows.last()) == rows);
    }
}

/// Deleting a document twice is deleting it once: the second deletion
/// finds no chunk of that name and leaves the store as the first left it.
pub proof fn lemma_delete_twice(rows: Seq<ChunkView>, name: Seq<char>)
    ensures
        others(others(rows, name), name) == others(rows, name),
        others(rows, name).len() - others(others(rows, name), name).len() == 0,
{
    lemma_others_members(rows, name);
    lemma_delete_absent(others(rows, name), name);
}

/// Deleting keeps the dimension of what stays.
pub proof fn lemma_delete_keeps_wf(rows: Seq<ChunkView>, name: Seq<char>)
    requires
        all_wf(rows),
    ensures
        all_wf(others(rows, name)),
{
    lemma_others_members(rows, name);
    let out = others(rows, name);
    assert forall|i: int| 0 <= i < out.len() implies (#[trigger] out[i]).wf() by {
        let m = choose|m: int| 0 <= m < rows.len() && rows[m] == out[i];
        assert(rows[m].wf());
    }
}

/// A query that follows the deletion of a document returns no chunk of it:
/// every hit has the text of a chunk that is left, and that chunk has
/// another name.
pub proof fn lemma_deleted_document_is_not_returned<F: Fn(&Vec<u32>, &Vec<u32>) -> Score>(
    rows: Seq<ChunkView>,
    name: Seq<char>,
    query: &Vec<u32>,
    distance_fn: F,
    cands: Seq<CandidateView>,
    k: int,
    filter: Option<NameFilter>,
    p: int,
)
    requires
        scored(others(rows, name), query, distance_fn, cands),
        0 <= p < nearest(cands, k, filter).len(),
    ensures
        exists|j: int|
            0 <= j < others(rows, name).len() && (#[trigger] others(rows, name)[j]).text == nearest(
                cands,
                k,
                filter,
            )[p].text && others(rows, name)[j].document_name != name && rows.contains(
                others(rows, name)[j],
            ),
{
    lemma_nearest_are_eligible(cands, k, filter, p);
    lemma_others_members(rows, name);
    let j = choose|j: int|
        0 <= j < cands.len() && admits(filter, (#[trigger] cands[j]).name_distance) && nearest(
            cands,
            k,
            filter,
        )[p] == hit_of(cands[j]);
    assert(others(rows, name)[j].text == cands[j].text);
}

/// A chunk that was just stored is the first hit of a query with its own
/// embedding, at distance zero, where `distance_fn` gives zero for equal
/// vectors and no chunk stored before it is at distance zero too.
pub proof fn lemma_round_trip<F: Fn(&Vec<u32>, &Vec<u32>) -> Score>(
    rows: Seq<ChunkView>,
    chunk: ChunkView,
    query: &Vec<u32>,
    distance_fn: F,
    cands: Seq<CandidateView>,
    k: int,
)
    requires
        k >= 1,
        chunk.embedding == query@,
        scored(rows.push(chunk), query, distance_fn, cands),
        forall|e: &Vec<u32>, d: Score|
            e@ == query@ && #[trigger] distance_fn.ensures((query, e), d) ==> d.rank() == 0,
        forall|i: int, e: &Vec<u32>, d: Score|
            0 <= i < rows.len() && e@ == (#[trigger] rows[i]).embedding
                && #[trigger] distance_fn.ensures((query, e), d) ==> d.rank() > 0,
    ensures
        nearest(cands, k, None).len() >= 1,
        nearest(cands, k, None)[0].text == chunk.text,
        nearest(cands, k, None)[0].distance.rank() == 0,
{
    let all = rows.push(chunk);
    let j = rows.len() as int;
    assert(all[j] == chunk);
    assert(cands[j].text == all[j].text);
    assert(cands[j].distance.rank() == 0);
    assert forall|m: int|
        0 <= m < cands.len() && m != j && admits(
            None,
            (#[trigger] cands[m]).name_distance,
        ) implies cands[j].distance.rank() < cands[m].distance.rank() by {
        assert(all[m] == rows[m]);
        assert(cands[m].text == all[m].text);
    }
    lemma_strictly_nearest_is_first(cands, k, None, j);
}

} // verus!
