//! The retrieval engine: from a prompt to the message that grounds the
//! generation component in what the store holds.
//!
//! Like the orchestrator, the engine decides and its caller acts: the
//! caller embeds the prompt, asks the store, and at last hands the message
//! to the generation component.

use crate::embedding::{embed_outcome, embedding_of, Embedding, EmbeddingError};
use crate::rank::{
    admits, candidate_views, hit_views, lemma_filter_excludes, nearest, rank_nearest, Candidate,
    CandidateView, NameFilter, Hit, HitView,
};
use crate::store::StoreError;
use crate::text::join;
use vstd::prelude::*;
use vstd::string::StringExecFns;

verus! {

/// The number of chunks that ground a prompt unless the caller chooses
/// another.
pub const DEFAULT_K: usize = 3;

/// The bit pattern of 0.5, the threshold of the filter on document names
/// unless the caller chooses another.
pub const DEFAULT_FILTER_BITS: u64 = 0x3FE0_0000_0000_0000;

/// Why a prompt got no message.
#[derive(Clone, Copy, Debug, PartialEq, Eq, Structural)]
pub enum RetrievalError {
    /// The prompt could not be embedded.
    Embedding(EmbeddingError),
    /// The store did not answer the query.
    Store(StoreError),
}

/// The wording around the context and the prompt in a message: the message
/// is `context_label`, the context, `prompt_label`, and the prompt.
#[derive(Debug, PartialEq, Eq)]
pub struct Template {
    pub context_label: String,
    pub prompt_label: String,
}

/// What a [`Template`] is to the specifications.
pub struct TemplateView {
    pub context_label: Seq<char>,
    pub prompt_label: Seq<char>,
}

impl View for Template {
    type V = TemplateView;

    open spec fn view(&self) -> TemplateView {
        TemplateView { context_label: self.context_label@, prompt_label: self.prompt_label@ }
    }
}

/// The texts of hits.
pub open spec fn hit_texts(hits: Seq<HitView>) -> Seq<Seq<char>> {
    Seq::new(hits.len(), |i: int| hits[i].text)
}

/// The context block: the texts of the hits in their order, each on a line
/// of its own.
pub open spec fn context_of(hits: Seq<HitView>) -> Seq<char> {
    join(hit_texts(hits), seq!['\n'])
}

/// The message that combines a context and a prompt.
pub open spec fn message_of(template: TemplateView, context: Seq<char>, prompt: Seq<char>) -> Seq<
    char,
> {
    template.context_label + context + template.prompt_label + prompt
}

/// The message for a prompt, given the stored chunks scored against it:
/// the `k` nearest chunks that pass the filter make the context.
pub open spec fn grounded(
    template: TemplateView,
    prompt: Seq<char>,
    cands: Seq<CandidateView>,
    k: int,
    filter: Option<NameFilter>,
) -> Seq<char> {
    message_of(template, context_of(nearest(cands, k, filter)), prompt)
}

impl Template {
    /// The wording `Context: ` ... `. Question: ` ...
    pub fn standard() -> (t: Template)
        ensures
            t@.context_label == "Context: "@,
            t@.prompt_label == ". Question: "@,
    {
        Template {
            context_label: String::from_str("Context: "),
            prompt_label: String::from_str(". Question: "),
        }
    }
}

/// Writes the context block for hits.
pub fn assemble_context(hits: &Vec<Hit>) -> (context: String)
    ensures
        context@ == context_of(hit_views(hits@)),
{
    let mut context = String::new();
    let ghost all = hit_texts(hit_views(hits@));
    let mut i: usize = 0;
    assert(all.take(0) =~= Seq::<Seq<char>>::empty());
    while i < hits.len()
        invariant
            i <= hits.len(),
            all == hit_texts(hit_views(hits@)),
            context@ == join(all.take(i as int), seq!['\n']),
        decreases hits.len() - i,
    {
        proof {
            let upto = all.take(i + 1);
            assert(upto.drop_last() == all.take(i as int));
            assert(upto.last() == hits@[i as int].text@);
            if i == 0 {
                assert(upto.len() == 1);
                assert(upto[0] == hits@[i as int].text@);
            }
        }
        let ghost before = context@;
        if i > 0 {
            context.push('\n');
            assert(context@ == before + seq!['\n']);
        } else {
            assert(before + hits@[i as int].text@ == hits@[i as int].text@);
        }
        context.append(hits[i].text.as_str());
        i += 1;
    }
    assert(all.take(hits.len() as int) == all);
    context
}

/// Writes the message that combines a context and a prompt.
pub fn compose_message(template: &Template, context: &str, prompt: &str) -> (message: String)
    ensures
        message@ == message_of(template@, context@, prompt@),
{
    let mut message = template.context_label.clone();
    message.append(context);
    message.append(template.prompt_label.as_str());
    message.append(prompt);
    message
}

/// What is asked of a retrieval.
pub struct RequestView {
    pub prompt: Seq<char>,
    pub k: usize,
    pub filter: Option<NameFilter>,
    pub template: TemplateView,
}

/// Where a retrieval stands.
pub enum StageView {
    /// The embedding of the prompt is awaited.
    Embedding,
    /// The prompt has the embedding `embedding`, and the store's answer is
    /// awaited.
    Querying { embedding: Seq<u32> },
    /// The message is written and waits for the generation component.
    Ready { message: Seq<char> },
    /// The retrieval has failed.
    Failed { error: RetrievalError },
}

/// The state of a retrieval.
pub struct RetrievalView {
    pub request: RequestView,
    pub stage: StageView,
}

/// What the caller reports to a retrieval.
#[derive(Debug, PartialEq, Eq)]
pub enum Outcome {
    /// The vector that the model produced for the prompt, or `None` where
    /// the model failed.
    Embedded(Option<Vec<u32>>),
    /// The stored chunks scored against the prompt's embedding, or why the
    /// store gave none.
    Queried(Result<Vec<Candidate>, StoreError>),
}

/// What an [`Outcome`] is to the specifications.
pub enum OutcomeView {
    Embedded(Option<Seq<u32>>),
    Queried(Result<Seq<CandidateView>, StoreError>),
}

impl View for Outcome {
    type V = OutcomeView;

    open spec fn view(&self) -> OutcomeView {
        match self {
            Outcome::Embedded(produced) => OutcomeView::Embedded(
                match produced {
                    Some(bits) => Some(bits@),
                    None => None,
                },
            ),
            Outcome::Queried(answer) => OutcomeView::Queried(
                match answer {
                    Ok(cands) => Ok(candidate_views(cands@)),
                    Err(e) => Err(*e),
                },
            ),
        }
    }
}

/// What a retrieval asks its caller to do.
#[derive(Debug, PartialEq, Eq)]
pub enum Step {
    /// Embed `text` and report the vector.
    Embed { text: String },
    /// Score the stored chunks against `embedding` and report them; `k`
    /// and `filter` say which of them will be used.
    Query { embedding: Embedding, k: usize, filter: Option<NameFilter> },
    /// Hand `message` to the generation component.
    Generate { message: String },
    /// Give up and report `error`; the generation component is not called.
    Fail { error: RetrievalError },
}

/// What a [`Step`] is to the specifications.
pub enum StepView {
    Embed { text: Seq<char> },
    Query { embedding: Seq<u32>, k: usize, filter: Option<NameFilter> },
    Generate { message: Seq<char> },
    Fail { error: RetrievalError },
}

impl View for Step {
    type V = StepView;

    open spec fn view(&self) -> StepView {
        match self {
            Step::Embed { text } => StepView::Embed { text: text@ },
            Step::Query { embedding, k, filter } => StepView::Query {
                embedding: embedding@,
                k: *k,
                filter: *filter,
            },
            Step::Generate { message } => StepView::Generate { message: message@ },
            Step::Fail { error } => StepView::Fail { error: *error },
        }
    }
}

/// The state in which a retrieval starts.
pub open spec fn opened(request: RequestView) -> RetrievalView {
    RetrievalView { request, stage: StageView::Embedding }
}

/// The transition of a retrieval: the state that follows `s` on the
/// outcome `o`.  An outcome that does not answer the pending step leaves
/// the state as it is.
pub open spec fn advance(s: RetrievalView, o: OutcomeView) -> RetrievalView {
    match (s.stage, o) {
        (StageView::Embedding, OutcomeView::Embedded(produced)) => match embedding_of(
            s.request.prompt,
            produced,
        ) {
            Ok(bits) => RetrievalView {
                request: s.request,
                stage: StageView::Querying { embedding: bits },
            },
            Err(err) => RetrievalView {
                request: s.request,
                stage: StageView::Failed { error: RetrievalError::Embedding(err) },
            },
        },
        (StageView::Querying { embedding }, OutcomeView::Queried(Ok(cands))) => RetrievalView {
            request: s.request,
            stage: StageView::Ready {
                message: grounded(
                    s.request.template,
                    s.request.prompt,
                    cands,
                    s.request.k as int,
                    s.request.filter,
                ),
            },
        },
        (StageView::Querying { embedding }, OutcomeView::Queried(Err(err))) => RetrievalView {
            request: s.request,
            stage: StageView::Failed { error: RetrievalError::Store(err) },
        },
        _ => s,
    }
}

/// The step that a state asks for.
pub open spec fn due(s: RetrievalView) -> StepView {
    match s.stage {
        StageView::Embedding => StepView::Embed { text: s.request.prompt },
        StageView::Querying { embedding } => StepView::Query {
            embedding,
            k: s.request.k,
            filter: s.request.filter,
        },
        StageView::Ready { message } => StepView::Generate { message },
        StageView::Failed { error } => StepView::Fail { error },
    }
}

/// A stage with what the retrieval keeps for it.
#[derive(Debug)]
enum Stage {
    Embedding,
    Querying { embedding: Embedding },
    Ready { message: String },
    Failed { error: RetrievalError },
}

impl Stage {
    spec fn view(&self) -> StageView {
        match self {
            Stage::Embedding => StageView::Embedding,
            Stage::Querying { embedding } => StageView::Querying { embedding: embedding@ },
            Stage::Ready { message } => StageView::Ready { message: message@ },
            Stage::Failed { error } => StageView::Failed { error: *error },
        }
    }
}

/// One retrieval: the way of one prompt to its message.
#[derive(Debug)]
pub struct Retrieval {
    prompt: String,
    k: usize,
    filter: Option<NameFilter>,
    template: Template,
    stage: Stage,
}

impl View for Retrieval {
    type V = RetrievalView;

    closed spec fn view(&self) -> RetrievalView {
        RetrievalView {
            request: RequestView {
                prompt: self.prompt@,
                k: self.k,
                filter: self.filter,
                template: self.template@,
            },
            stage: self.stage.view(),
        }
    }
}

impl Retrieval {
    /// A retrieval for `prompt` that grounds it in the `k` nearest chunks
    /// that pass `filter`.
    pub fn open(prompt: String, k: usize, filter: Option<NameFilter>, template: Template) -> (r:
        Retrieval)
        ensures
            r@ == opened(RequestView { prompt: prompt@, k, filter, template: template@ }),
    {
        Retrieval { prompt, k, filter, template, stage: Stage::Embedding }
    }

    /// The step that the retrieval waits for its caller to perform.
    pub fn due(&self) -> (step: Step)
        ensures
            step@ == due(self@),
    {
        match &self.stage {
            Stage::Embedding => Step::Embed { text: self.prompt.clone() },
            Stage::Querying { embedding } => Step::Query {
                embedding: embedding.duplicate(),
                k: self.k,
                filter: self.filter,
            },
            Stage::Ready { message } => Step::Generate { message: message.clone() },
            Stage::Failed { error } => Step::Fail { error: *error },
        }
    }

    /// Takes the outcome of the pending step and moves on.
    pub fn advance(self, outcome: Outcome) -> (r: Retrieval)
        ensures
            r@ == advance(self@, outcome@),
    {
        let Retrieval { prompt, k, filter, template, stage } = self;
        match (stage, outcome) {
            (Stage::Embedding, Outcome::Embedded(produced)) => {
                let stage = match embed_outcome(prompt.as_str(), produced) {
                    Ok(embedding) => Stage::Querying { embedding },
                    Err(err) => Stage::Failed { error: RetrievalError::Embedding(err) },
                };
                Retrieval { prompt, k, filter, template, stage }
            },
            (Stage::Querying { embedding }, Outcome::Queried(Ok(cands))) => {
                let hits = rank_nearest(&cands, k, &filter);
                let context = assemble_context(&hits);
                let message = compose_message(&template, context.as_str(), prompt.as_str());
                Retrieval { prompt, k, filter, template, stage: Stage::Ready { message } }
            },
            (Stage::Querying { embedding }, Outcome::Queried(Err(err))) => Retrieval {
                prompt,
                k,
                filter,
                template,
                stage: Stage::Failed { error: RetrievalError::Store(err) },
            },
            (stage, _) => Retrieval { prompt, k, filter, template, stage },
        }
    }
}

/// Writes the message for a prompt from the stored chunks scored against
/// it: ranks them, writes the context block, and puts the wording around
/// it and the prompt.
pub fn retrieve_context(
    template: &Template,
    prompt: &str,
    cands: &Vec<Candidate>,
    k: usize,
    filter: &Option<NameFilter>,
) -> (message: String)
    ensures
        message@ == grounded(template@, prompt@, candidate_views(cands@), k as int, *filter),
{
    let hits = rank_nearest(cands, k, filter);
    let context = assemble_context(&hits);
    compose_message(template, context.as_str(), prompt)
}

/// A prompt that cannot be embedded fails the retrieval with the error of
/// the embedding; neither the store nor the generation component is asked.
pub proof fn lemma_embedding_failure_fails(request: RequestView, produced: Option<Seq<u32>>)
    requires
        embedding_of(request.prompt, produced) is Err,
    ensures
        due(advance(opened(request), OutcomeView::Embedded(produced))) == (StepView::Fail {
            error: RetrievalError::Embedding(embedding_of(request.prompt, produced)->Err_0),
        }),
{
}

/// A query that the store fails fails the retrieval with the error of the
/// store; the generation component is not asked.
pub proof fn lemma_store_failure_fails(s: RetrievalView, err: StoreError)
    requires
        s.stage is Querying,
    ensures
        due(advance(s, OutcomeView::Queried(Err(err)))) == (StepView::Fail {
            error: RetrievalError::Store(err),
        }),
{
}

/// Generation is asked for only after the store has answered a query, and
/// a query is asked for only after the prompt was embedded.
pub proof fn lemma_generation_follows_success(s: RetrievalView, o: OutcomeView)
    ensures
        due(advance(s, o)) is Generate && !(s.stage is Ready) ==> s.stage is Querying && (o
            matches OutcomeView::Queried(Ok(_))),
        due(advance(s, o)) is Query && !(s.stage is Querying) ==> s.stage is Embedding && (o
            matches OutcomeView::Embedded(produced) && embedding_of(s.request.prompt, produced)
            is Ok),
{
}

/// A retrieval that has failed or has its message stays as it is.
pub proof fn lemma_settled_stays(s: RetrievalView, o: OutcomeView)
    requires
        s.stage is Ready || s.stage is Failed,
    ensures
        advance(s, o) == s,
{
}

/// A chunk that fails the filter is not in the message, however near it is:
/// the message is the one that the other chunks give.
pub proof fn lemma_filtered_chunk_is_left_out(
    template: TemplateView,
    prompt: Seq<char>,
    cands: Seq<CandidateView>,
    k: int,
    filter: Option<NameFilter>,
    j: int,
)
    requires
        0 <= j < cands.len(),
        !admits(filter, cands[j].name_distance),
    ensures
        grounded(template, prompt, cands, k, filter) == grounded(
            template,
            prompt,
            cands.remove(j),
            k,
            filter,
        ),
{
    lemma_filter_excludes(cands, k, filter, j);
}

} // verus!
