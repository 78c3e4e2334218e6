//! The ingestion orchestrator: a state machine over filesystem events.
//!
//! The orchestrator decides; its caller acts.  The caller performs the
//! action that [`Orchestrator::pending`] names, reports the outcome with
//! [`Orchestrator::react`], and goes on with the machine that comes back.
//! One filesystem event is worked off, path by path and chunk by chunk,
//! before the next is asked for.
//!
//! Ingestion of a document is best effort, not all or nothing: a chunk that
//! cannot be embedded or stored is passed over, and the chunks before and
//! after it are stored all the same.  Ingesting adds and never deletes: a
//! document that is ingested again without having been removed has its
//! chunks in the store twice.  Deleting happens on removal only.

use crate::embedding::{embed_outcome, embedding_of, Embedding, EmbeddingError, DIMENSION};
use crate::path::{accepted, document_name, final_segment, is_document};
use crate::score::Score;
use crate::segment::{
    fixed_windows, is_square, merge_paragraphs, merged, paragraphs, score_rows, segment,
    split_paragraphs, SegmentError, Strategy,
};
use crate::store::{Chunk, ChunkView, StoreError};
use crate::text::{copy_strings, texts, words};
use vstd::prelude::*;

verus! {

/// What happened to a watched path.
#[derive(Clone, Copy, Debug, PartialEq, Eq, Structural)]
pub enum EventKind {
    /// A file was created.
    Create,
    /// A file was renamed, and this is its new path.
    RenameTo,
    /// A file was removed.
    Remove,
    /// A file was renamed, and this is its old path.
    RenameFrom,
    /// Anything else.
    Other,
}

/// What the paths of an event are worked off for.
#[derive(Clone, Copy, Debug, PartialEq, Eq, Structural)]
pub enum Intent {
    /// The documents at the paths are indexed.
    Ingest,
    /// The chunks of the documents at the paths are deleted.
    Remove,
}

/// A filesystem event: what happened, and to which paths.
#[derive(Debug, PartialEq, Eq)]
pub struct FsEvent {
    pub kind: EventKind,
    pub paths: Vec<String>,
}

/// How the orchestrator cuts texts into chunks.
#[derive(Clone, Copy, Debug, PartialEq, Eq, Structural)]
pub enum Segmenter {
    /// One chunk for each paragraph.
    Paragraphs,
    /// One chunk for each window of `size` words.
    FixedWindow { size: usize },
    /// One chunk for each paragraph, extended by the later paragraphs that
    /// are similar to it; the caller is asked for the similarities.
    SimilarityMerged,
}

/// What an orchestrator is set up with.
#[derive(Clone, Copy, Debug, PartialEq, Eq, Structural)]
pub struct Config {
    /// How texts are cut into chunks.
    pub segmenter: Segmenter,
    /// Whether each chunk is stored with an embedding of its document's
    /// name.
    pub embed_names: bool,
}

/// Why a chunk was not stored.
#[derive(Clone, Copy, Debug, PartialEq, Eq, Structural)]
pub enum SkipReason {
    /// The chunk's text had no embedding.
    Embedding(EmbeddingError),
    /// The name of the chunk's document had no embedding.
    NameEmbedding(EmbeddingError),
    /// The store did not take the chunk.
    Store(StoreError),
}

/// What a notice says.
#[derive(Clone, Copy, Debug, PartialEq, Eq, Structural)]
pub enum NoticeKind {
    /// The file is not of the accepted document type and was passed over.
    NotADocument,
    /// No text could be extracted from the file; it was passed over.
    ExtractFailed,
    /// The text could not be segmented; the file was passed over.
    SegmentFailed(SegmentError),
    /// The paragraphs could not be scored; the file was passed over.
    ScoringFailed,
    /// The text was cut into this many chunks.
    Segmented { chunks: usize },
    /// A chunk was stored.
    ChunkStored,
    /// A chunk was not stored, and the next one is taken up.
    ChunkSkipped(SkipReason),
    /// The last chunk of the document was dealt with.
    Ingested,
    /// The chunks of the document were deleted, this many.
    Removed { rows: usize },
}

/// Something worth a line in a log: what happened, and to which path.
#[derive(Debug, PartialEq, Eq)]
pub struct Notice {
    pub kind: NoticeKind,
    pub path: String,
}

/// What a [`Notice`] is to the specifications.
pub struct NoticeView {
    pub kind: NoticeKind,
    pub path: Seq<char>,
}

impl View for Notice {
    type V = NoticeView;

    open spec fn view(&self) -> NoticeView {
        NoticeView { kind: self.kind, path: self.path@ }
    }
}

/// The views of notices.
pub open spec fn notice_views(v: Seq<Notice>) -> Seq<NoticeView> {
    Seq::new(v.len(), |i: int| v[i]@)
}

/// What the caller reports to the orchestrator.
#[derive(Debug, PartialEq, Eq)]
pub enum Event {
    /// The next filesystem event, in the order of arrival.
    Filesystem(FsEvent),
    /// The text extracted from the file that was to be read, or `None`
    /// where the file could not be read or held no document.
    Extracted(Option<String>),
    /// The similarities of the paragraphs that were to be scored, or `None`
    /// where one of them could not be embedded.
    Scored(Option<Vec<Vec<Score>>>),
    /// The vector that the model produced for the text that was to be
    /// embedded, or `None` where the model failed.
    Embedded(Option<Vec<u32>>),
    /// How storing the chunk went.
    Inserted(Result<(), StoreError>),
    /// How deleting went, and how many chunks were deleted.
    Deleted(Result<usize, StoreError>),
}

/// What an [`Event`] is to the specifications.
pub enum EventView {
    Filesystem { kind: EventKind, paths: Seq<Seq<char>> },
    Extracted(Option<Seq<char>>),
    Scored(Option<Seq<Seq<Score>>>),
    Embedded(Option<Seq<u32>>),
    Inserted(Result<(), StoreError>),
    Deleted(Result<usize, StoreError>),
}

impl View for Event {
    type V = EventView;

    open spec fn view(&self) -> EventView {
        match self {
            Event::Filesystem(fs) => EventView::Filesystem {
                kind: fs.kind,
                paths: texts(fs.paths@),
            },
            Event::Extracted(text) => EventView::Extracted(
                match text {
                    Some(t) => Some(t@),
                    None => None,
                },
            ),
            Event::Scored(scores) => EventView::Scored(
                match scores {
                    Some(s) => Some(score_rows(s@)),
                    None => None,
                },
            ),
            Event::Embedded(produced) => EventView::Embedded(
                match produced {
                    Some(bits) => Some(bits@),
                    None => None,
                },
            ),
            Event::Inserted(r) => EventView::Inserted(*r),
            Event::Deleted(r) => EventView::Deleted(*r),
        }
    }
}

/// What the orchestrator asks its caller to do.
#[derive(Debug, PartialEq, Eq)]
pub enum Action {
    /// Wait for the next filesystem event and report it.
    Await,
    /// Read the file at `path`, extract its text, and report it.
    ReadDocument { path: String },
    /// Embed every paragraph once, and report the cosine similarity of
    /// each pair of them.
    ScoreParagraphs { paragraphs: Vec<String> },
    /// Embed `text` and report the vector.
    Embed { text: String },
    /// Store `chunk` and report how it went.
    Insert { chunk: Chunk },
    /// Delete the chunks of the document `document_name` and report how
    /// many there were.
    Delete { document_name: String },
    /// Stop: the store failed in a way that the orchestrator does not
    /// pass over.
    Halt { error: StoreError },
}

/// What an [`Action`] is to the specifications.
pub enum ActionView {
    Await,
    ReadDocument { path: Seq<char> },
    ScoreParagraphs { paragraphs: Seq<Seq<char>> },
    Embed { text: Seq<char> },
    Insert { chunk: ChunkView },
    Delete { document_name: Seq<char> },
    Halt { error: StoreError },
}

impl View for Action {
    type V = ActionView;

    open spec fn view(&self) -> ActionView {
        match self {
            Action::Await => ActionView::Await,
            Action::ReadDocument { path } => ActionView::ReadDocument { path: path@ },
            Action::ScoreParagraphs { paragraphs } => ActionView::ScoreParagraphs {
                paragraphs: texts(paragraphs@),
            },
            Action::Embed { text } => ActionView::Embed { text: text@ },
            Action::Insert { chunk } => ActionView::Insert { chunk: chunk@ },
            Action::Delete { document_name } => ActionView::Delete {
                document_name: document_name@,
            },
            Action::Halt { error } => ActionView::Halt { error: *error },
        }
    }
}

/// Where the orchestrator stands.
pub enum PhaseView {
    /// Between two filesystem events.
    Idle,
    /// The text of the document at `path` is awaited.
    Extracting { path: Seq<char> },
    /// The similarities of the paragraphs are awaited.
    Scoring { path: Seq<char>, paragraphs: Seq<Seq<char>> },
    /// The embedding of the first of the chunks `todo` is awaited.
    Embedding { path: Seq<char>, todo: Seq<Seq<char>> },
    /// The first of the chunks `todo` has the embedding `embedding`, and
    /// the embedding of the document's name is awaited.
    EmbeddingName { path: Seq<char>, todo: Seq<Seq<char>>, embedding: Seq<u32> },
    /// The first of the chunks `todo` was handed over as `chunk`, and the
    /// store's answer is awaited.
    Inserting { path: Seq<char>, todo: Seq<Seq<char>>, chunk: ChunkView },
    /// The deletion of the chunks of the document at `path` is awaited.
    Deleting { path: Seq<char> },
    /// The orchestrator has stopped for good.
    Halted { error: StoreError },
}

/// The state of an orchestrator.
pub struct MachineView {
    pub config: Config,
    /// What the paths of the current event are worked off for.
    pub intent: Intent,
    /// The paths of the current event that have not been taken up.
    pub queue: Seq<Seq<char>>,
    pub phase: PhaseView,
}

/// What a kind of event asks for, if anything: what was created or renamed
/// to is ingested, what was removed or renamed from is deleted.
pub open spec fn intent_of(kind: EventKind) -> Option<Intent> {
    match kind {
        EventKind::Create => Some(Intent::Ingest),
        EventKind::RenameTo => Some(Intent::Ingest),
        EventKind::Remove => Some(Intent::Remove),
        EventKind::RenameFrom => Some(Intent::Remove),
        EventKind::Other => None,
    }
}

/// The paths that are documents, in their order.
pub open spec fn documents(paths: Seq<Seq<char>>) -> Seq<Seq<char>>
    decreases paths.len(),
{
    if paths.len() == 0 {
        Seq::empty()
    } else if is_document(paths.last()) {
        documents(paths.drop_last()).push(paths.last())
    } else {
        documents(paths.drop_last())
    }
}

/// One notice for each path that is no document, in their order.
pub open spec fn rejections(paths: Seq<Seq<char>>) -> Seq<NoticeView>
    decreases paths.len(),
{
    if paths.len() == 0 {
        Seq::empty()
    } else if is_document(paths.last()) {
        rejections(paths.drop_last())
    } else {
        rejections(paths.drop_last()).push(
            NoticeView { kind: NoticeKind::NotADocument, path: paths.last() },
        )
    }
}

/// The candidates that are not empty, in their order.
pub open spec fn nonempty(cands: Seq<Seq<char>>) -> Seq<Seq<char>>
    decreases cands.len(),
{
    if cands.len() == 0 {
        Seq::empty()
    } else if cands.last().len() > 0 {
        nonempty(cands.drop_last()).push(cands.last())
    } else {
        nonempty(cands.drop_last())
    }
}

/// The state in which the first path of `queue` is taken up, or the idle
/// state where no path is left.
pub open spec fn begin(config: Config, intent: Intent, queue: Seq<Seq<char>>) -> MachineView {
    if queue.len() == 0 {
        MachineView { config, intent, queue, phase: PhaseView::Idle }
    } else {
        MachineView {
            config,
            intent,
            queue: queue.drop_first(),
            phase: match intent {
                Intent::Ingest => PhaseView::Extracting { path: queue[0] },
                Intent::Remove => PhaseView::Deleting { path: queue[0] },
            },
        }
    }
}

/// The state and the notices after the text of the document at `path` was
/// cut into `cands`: the first chunk is taken up, or the next path where
/// there is no chunk.
pub open spec fn start_chunks(s: MachineView, path: Seq<char>, cands: Seq<Seq<char>>) -> (
    MachineView,
    Seq<NoticeView>,
) {
    let todo = nonempty(cands);
    let cut = NoticeView { kind: NoticeKind::Segmented { chunks: todo.len() as usize }, path };
    if todo.len() == 0 {
        (
            begin(s.config, s.intent, s.queue),
            seq![cut, NoticeView { kind: NoticeKind::Ingested, path }],
        )
    } else {
        (
            MachineView {
                config: s.config,
                intent: s.intent,
                queue: s.queue,
                phase: PhaseView::Embedding { path, todo },
            },
            seq![cut],
        )
    }
}

/// The state and the notices after the first of the chunks `todo` was
/// dealt with, as `kind` says: the next chunk is taken up, or the next path
/// where that was the last chunk.
pub open spec fn after_chunk(
    s: MachineView,
    path: Seq<char>,
    todo: Seq<Seq<char>>,
    kind: NoticeKind,
) -> (MachineView, Seq<NoticeView>) {
    let rest = todo.drop_first();
    let told = NoticeView { kind, path };
    if rest.len() == 0 {
        (
            begin(s.config, s.intent, s.queue),
            seq![told, NoticeView { kind: NoticeKind::Ingested, path }],
        )
    } else {
        (
            MachineView {
                config: s.config,
                intent: s.intent,
                queue: s.queue,
                phase: PhaseView::Embedding { path, todo: rest },
            },
            seq![told],
        )
    }
}

/// The state in which the document at `path` is given up and the next
/// path is taken up, with the notice that says why.
pub open spec fn give_up(s: MachineView, path: Seq<char>, kind: NoticeKind) -> (
    MachineView,
    Seq<NoticeView>,
) {
    (begin(s.config, s.intent, s.queue), seq![NoticeView { kind, path }])
}

/// `s` in another phase.
pub open spec fn in_phase(s: MachineView, phase: PhaseView) -> MachineView {
    MachineView { config: s.config, intent: s.intent, queue: s.queue, phase }
}

/// The chunk that is made of a text, its embedding, the path of its
/// document and, where there is one, the embedding of the document's name.
pub open spec fn chunk_of(
    text: Seq<char>,
    embedding: Seq<u32>,
    path: Seq<char>,
    name_embedding: Option<Seq<u32>>,
) -> ChunkView {
    ChunkView { text, embedding, document_name: final_segment(path), name_embedding }
}

/// The transition of the orchestrator: the state that follows `s` on the
/// event `e`, and the notices that the step leaves.
///
/// An event that does not answer the pending action leaves the state as it
/// is.  A filesystem event of a kind that asks for nothing does the same.
/// A file that is no document, a text that cannot be extracted or
/// segmented, and a chunk that cannot be embedded or stored are passed
/// over with a notice.  Only a deletion that fails stops the orchestrator.
pub open spec fn react(s: MachineView, e: EventView) -> (MachineView, Seq<NoticeView>) {
    match (s.phase, e) {
        (PhaseView::Idle, EventView::Filesystem { kind, paths }) => match intent_of(kind) {
            None => (s, Seq::empty()),
            Some(Intent::Ingest) => (
                begin(s.config, Intent::Ingest, documents(paths)),
                rejections(paths),
            ),
            Some(Intent::Remove) => (begin(s.config, Intent::Remove, paths), Seq::empty()),
        },
        (PhaseView::Extracting { path }, EventView::Extracted(None)) => give_up(
            s,
            path,
            NoticeKind::ExtractFailed,
        ),
        (
            PhaseView::Extracting { path },
            EventView::Extracted(Some(text)),
        ) => match s.config.segmenter {
            Segmenter::Paragraphs => start_chunks(s, path, paragraphs(text)),
            Segmenter::FixedWindow { size } => if size == 0 {
                give_up(s, path, NoticeKind::SegmentFailed(SegmentError::EmptyWindow))
            } else {
                start_chunks(s, path, fixed_windows(words(text), size as int))
            },
            Segmenter::SimilarityMerged => if paragraphs(text).len() == 0 {
                start_chunks(s, path, paragraphs(text))
            } else {
                (
                    in_phase(s, PhaseView::Scoring { path, paragraphs: paragraphs(text) }),
                    Seq::empty(),
                )
            },
        },
        (PhaseView::Scoring { path, paragraphs }, EventView::Scored(None)) => give_up(
            s,
            path,
            NoticeKind::ScoringFailed,
        ),
        (PhaseView::Scoring { path, paragraphs }, EventView::Scored(Some(scores))) => if is_square(
            scores,
            paragraphs.len() as int,
        ) {
            start_chunks(s, path, merged(paragraphs, scores))
        } else {
            give_up(s, path, NoticeKind::SegmentFailed(SegmentError::ScoreShape))
        },
        (PhaseView::Embedding { path, todo }, EventView::Embedded(produced)) => match embedding_of(
            todo[0],
            produced,
        ) {
            Err(err) => after_chunk(
                s,
                path,
                todo,
                NoticeKind::ChunkSkipped(SkipReason::Embedding(err)),
            ),
            Ok(bits) => if s.config.embed_names {
                (
                    in_phase(s, PhaseView::EmbeddingName { path, todo, embedding: bits }),
                    Seq::empty(),
                )
            } else {
                (
                    in_phase(
                        s,
                        PhaseView::Inserting {
                            path,
                            todo,
                            chunk: chunk_of(todo[0], bits, path, None),
                        },
                    ),
                    Seq::empty(),
                )
            },
        },
        (
            PhaseView::EmbeddingName { path, todo, embedding },
            EventView::Embedded(produced),
        ) => match embedding_of(final_segment(path), produced) {
            Err(err) => after_chunk(
                s,
                path,
                todo,
                NoticeKind::ChunkSkipped(SkipReason::NameEmbedding(err)),
            ),
            Ok(bits) => (
                in_phase(
                    s,
                    PhaseView::Inserting {
                        path,
                        todo,
                        chunk: chunk_of(todo[0], embedding, path, Some(bits)),
                    },
                ),
                Seq::empty(),
            ),
        },
        (PhaseView::Inserting { path, todo, chunk }, EventView::Inserted(Ok(_))) => after_chunk(
            s,
            path,
            todo,
            NoticeKind::ChunkStored,
        ),
        (PhaseView::Inserting { path, todo, chunk }, EventView::Inserted(Err(err))) => after_chunk(
            s,
            path,
            todo,
            NoticeKind::ChunkSkipped(SkipReason::Store(err)),
        ),
        (PhaseView::Deleting { path }, EventView::Deleted(Ok(rows))) => give_up(
            s,
            path,
            NoticeKind::Removed { rows },
        ),
        (PhaseView::Deleting { path }, EventView::Deleted(Err(err))) => (
            in_phase(s, PhaseView::Halted { error: err }),
            Seq::empty(),
        ),
        _ => (s, Seq::empty()),
    }
}

/// The action that a state asks for.
pub open spec fn pending(s: MachineView) -> ActionView {
    match s.phase {
        PhaseView::Idle => ActionView::Await,
        PhaseView::Extracting { path } => ActionView::ReadDocument { path },
        PhaseView::Scoring { path, paragraphs } => ActionView::ScoreParagraphs { paragraphs },
        PhaseView::Embedding { path, todo } => ActionView::Embed { text: todo[0] },
        PhaseView::EmbeddingName { path, todo, embedding } => ActionView::Embed {
            text: final_segment(path),
        },
        PhaseView::Inserting { path, todo, chunk } => ActionView::Insert { chunk },
        PhaseView::Deleting { path } => ActionView::Delete { document_name: final_segment(path) },
        PhaseView::Halted { error } => ActionView::Halt { error },
    }
}


/// The state of an orchestrator that has seen no event.
pub open spec fn initial(config: Config) -> MachineView {
    MachineView { config, intent: Intent::Ingest, queue: Seq::empty(), phase: PhaseView::Idle }
}

/// Whether every text holds a character.
pub open spec fn all_nonempty(todo: Seq<Seq<char>>) -> bool {
    forall|i: int| 0 <= i < todo.len() ==> (#[trigger] todo[i]).len() > 0
}

/// Whether the paths that wait suit what they wait for: what is to be
/// ingested is a document.
pub open spec fn queue_suits(s: MachineView) -> bool {
    s.intent == Intent::Ingest ==> forall|i: int|
        0 <= i < s.queue.len() ==> is_document(#[trigger] s.queue[i])
}

/// What holds of every state that an orchestrator reaches.
///
/// An idle orchestrator has no path waiting.  A document that is being
/// ingested is of the accepted type.  The chunks that wait are not empty.
/// The chunk that is handed to the store has the text of the first of them,
/// the name of its document, vectors of the store's dimension, and an
/// embedding of the name exactly where the orchestrator is set up for it.
pub open spec fn inv(s: MachineView) -> bool {
    &&& queue_suits(s)
    &&& match s.phase {
        PhaseView::Idle => s.queue.len() == 0,
        PhaseView::Extracting { path } => s.intent == Intent::Ingest && is_document(path),
        PhaseView::Scoring { path, paragraphs } => {
            &&& s.intent == Intent::Ingest
            &&& is_document(path)
            &&& s.config.segmenter == Segmenter::SimilarityMerged
            &&& paragraphs.len() > 0
        },
        PhaseView::Embedding { path, todo } => {
            &&& s.intent == Intent::Ingest
            &&& is_document(path)
            &&& todo.len() > 0
            &&& all_nonempty(todo)
        },
        PhaseView::EmbeddingName { path, todo, embedding } => {
            &&& s.intent == Intent::Ingest
            &&& is_document(path)
            &&& todo.len() > 0
            &&& all_nonempty(todo)
            &&& s.config.embed_names
            &&& embedding.len() == DIMENSION
        },
        PhaseView::Inserting { path, todo, chunk } => {
            &&& s.intent == Intent::Ingest
            &&& is_document(path)
            &&& todo.len() > 0
            &&& all_nonempty(todo)
            &&& chunk.text == todo[0]
            &&& chunk.document_name == final_segment(path)
            &&& chunk.wf()
            &&& chunk.name_embedding is Some <==> s.config.embed_names
        },
        PhaseView::Deleting { path } => s.intent == Intent::Remove,
        PhaseView::Halted { error } => true,
    }
}

proof fn lemma_documents_are_documents(paths: Seq<Seq<char>>)
    ensures
        forall|i: int|
            0 <= i < documents(paths).len() ==> is_document(#[trigger] documents(paths)[i]),
    decreases paths.len(),
{
    if paths.len() > 0 {
        let before = documents(paths.drop_last());
        lemma_documents_are_documents(paths.drop_last());
        assert forall|i: int| 0 <= i < documents(paths).len() implies is_document(
            #[trigger] documents(paths)[i],
        ) by {
            if i < before.len() {
                assert(documents(paths)[i] == before[i]);
            }
        }
    }
}

proof fn lemma_nonempty_are_nonempty(cands: Seq<Seq<char>>)
    ensures
        all_nonempty(nonempty(cands)),
    decreases cands.len(),
{
    if cands.len() > 0 {
        let before = nonempty(cands.drop_last());
        lemma_nonempty_are_nonempty(cands.drop_last());
        assert forall|i: int| 0 <= i < nonempty(cands).len() implies (#[trigger] nonempty(
            cands,
        )[i]).len() > 0 by {
            if i < before.len() {
                assert(nonempty(cands)[i] == before[i]);
            }
        }
    }
}

proof fn lemma_begin_keeps_inv(s: MachineView)
    requires
        queue_suits(s),
    ensures
        inv(begin(s.config, s.intent, s.queue)),
{
    let t = begin(s.config, s.intent, s.queue);
    if s.queue.len() > 0 {
        assert(s.intent == Intent::Ingest ==> is_document(s.queue[0]));
        assert forall|i: int|
            0 <= i < t.queue.len() && s.intent == Intent::Ingest implies is_document(
            #[trigger] t.queue[i],
        ) by {
            assert(t.queue[i] == s.queue[i + 1]);
        }
    }
}

proof fn lemma_start_chunks_keeps_inv(s: MachineView, path: Seq<char>, cands: Seq<Seq<char>>)
    requires
        queue_suits(s),
        s.intent == Intent::Ingest,
        is_document(path),
    ensures
        inv(start_chunks(s, path, cands).0),
{
    lemma_nonempty_are_nonempty(cands);
    lemma_begin_keeps_inv(s);
}

proof fn lemma_after_chunk_keeps_inv(
    s: MachineView,
    path: Seq<char>,
    todo: Seq<Seq<char>>,
    kind: NoticeKind,
)
    requires
        queue_suits(s),
        s.intent == Intent::Ingest,
        is_document(path),
        todo.len() > 0,
        all_nonempty(todo),
    ensures
        inv(after_chunk(s, path, todo, kind).0),
{
    lemma_begin_keeps_inv(s);
    let rest = todo.drop_first();
    assert forall|i: int| 0 <= i < rest.len() implies (#[trigger] rest[i]).len() > 0 by {
        assert(rest[i] == todo[i + 1]);
    }
}

/// An orchestrator that has seen no event is in a state that the
/// invariant holds of.
pub proof fn lemma_initial_inv(config: Config)
    ensures
        inv(initial(config)),
{
}

/// Every step keeps the invariant, whatever the event.
pub proof fn lemma_react_keeps_inv(s: MachineView, e: EventView)
    requires
        inv(s),
    ensures
        inv(react(s, e).0),
{
    match (s.phase, e) {
        (PhaseView::Idle, EventView::Filesystem { kind, paths }) => {
            lemma_documents_are_documents(paths);
            match intent_of(kind) {
                None => {},
                Some(Intent::Ingest) => {
                    lemma_begin_keeps_inv(
                        MachineView {
                            config: s.config,
                            intent: Intent::Ingest,
                            queue: documents(paths),
                            phase: PhaseView::Idle,
                        },
                    );
                },
                Some(Intent::Remove) => {
                    lemma_begin_keeps_inv(
                        MachineView {
                            config: s.config,
                            intent: Intent::Remove,
                            queue: paths,
                            phase: PhaseView::Idle,
                        },
                    );
                },
            }
        },
        (PhaseView::Extracting { path }, EventView::Extracted(None)) => {
            lemma_begin_keeps_inv(s);
        },
        (PhaseView::Extracting { path }, EventView::Extracted(Some(text))) => {
            lemma_begin_keeps_inv(s);
            lemma_start_chunks_keeps_inv(s, path, paragraphs(text));
            match s.config.segmenter {
                Segmenter::FixedWindow { size } => {
                    lemma_start_chunks_keeps_inv(s, path, fixed_windows(words(text), size as int));
                },
                _ => {},
            }
        },
        (PhaseView::Scoring { path, paragraphs }, EventView::Scored(None)) => {
            lemma_begin_keeps_inv(s);
        },
        (PhaseView::Scoring { path, paragraphs }, EventView::Scored(Some(scores))) => {
            lemma_begin_keeps_inv(s);
            lemma_start_chunks_keeps_inv(s, path, merged(paragraphs, scores));
        },
        (PhaseView::Embedding { path, todo }, EventView::Embedded(produced)) => {
            match embedding_of(todo[0], produced) {
                Err(err) => {
                    lemma_after_chunk_keeps_inv(
                        s,
                        path,
                        todo,
                        NoticeKind::ChunkSkipped(SkipReason::Embedding(err)),
                    );
                },
                Ok(bits) => {},
            }
        },
        (PhaseView::EmbeddingName { path, todo, embedding }, EventView::Embedded(produced)) => {
            match embedding_of(final_segment(path), produced) {
                Err(err) => {
                    lemma_after_chunk_keeps_inv(
                        s,
                        path,
                        todo,
                        NoticeKind::ChunkSkipped(SkipReason::NameEmbedding(err)),
                    );
                },
                Ok(bits) => {},
            }
        },
        (PhaseView::Inserting { path, todo, chunk }, EventView::Inserted(Ok(_))) => {
            lemma_after_chunk_keeps_inv(s, path, todo, NoticeKind::ChunkStored);
        },
        (PhaseView::Inserting { path, todo, chunk }, EventView::Inserted(Err(err))) => {
            lemma_after_chunk_keeps_inv(
                s,
                path,
                todo,
                NoticeKind::ChunkSkipped(SkipReason::Store(err)),
            );
        },
        (PhaseView::Deleting { path }, EventView::Deleted(Ok(rows))) => {
            lemma_begin_keeps_inv(s);
        },
        (PhaseView::Deleting { path }, EventView::Deleted(Err(err))) => {},
        _ => {},
    }
}

/// Whatever the orchestrator hands to the store is a chunk as the store
/// is meant to hold them: its text is not empty, its vectors have the
/// store's dimension, and it goes by the name of the document that is being
/// ingested.
pub proof fn lemma_inserted_chunks_are_sound(s: MachineView)
    requires
        inv(s),
        pending(s) is Insert,
    ensures
        pending(s)->chunk.text.len() > 0,
        pending(s)->chunk.wf(),
        s.phase matches PhaseView::Inserting { path, todo, chunk } && pending(
            s,
        )->chunk.document_name == final_segment(path) && is_document(path),
{
}

/// Nothing but a deletion that fails stops the orchestrator: a file that
/// cannot be read, a chunk that cannot be embedded and a chunk that the
/// store does not take are passed over.
pub proof fn lemma_only_failed_deletion_halts(s: MachineView, e: EventView)
    requires
        !(s.phase is Halted),
    ensures
        react(s, e).0.phase is Halted <==> s.phase is Deleting && e matches EventView::Deleted(
            Err(_),
        ),
{
}

/// An orchestrator that has stopped stays as it is.
pub proof fn lemma_halted_stays(s: MachineView, e: EventView)
    requires
        s.phase is Halted,
    ensures
        react(s, e) == (s, Seq::<NoticeView>::empty()),
{
}

/// While one event is being worked off the next is not taken up: a
/// filesystem event that comes when none was asked for changes nothing.
pub proof fn lemma_one_event_at_a_time(s: MachineView, e: EventView)
    requires
        !(s.phase is Idle),
        e is Filesystem,
    ensures
        react(s, e) == (s, Seq::<NoticeView>::empty()),
{
}

/// Whether an event reports the outcome of the action that a state asks
/// for.
pub open spec fn answers(s: MachineView, e: EventView) -> bool {
    match (s.phase, e) {
        (PhaseView::Idle, EventView::Filesystem { kind, paths }) => true,
        (PhaseView::Extracting { path }, EventView::Extracted(_)) => true,
        (PhaseView::Scoring { path, paragraphs }, EventView::Scored(_)) => true,
        (PhaseView::Embedding { path, todo }, EventView::Embedded(_)) => true,
        (PhaseView::EmbeddingName { path, todo, embedding }, EventView::Embedded(_)) => true,
        (PhaseView::Inserting { path, todo, chunk }, EventView::Inserted(_)) => true,
        (PhaseView::Deleting { path }, EventView::Deleted(_)) => true,
        _ => false,
    }
}

/// The paths of the current event that are not done with.
pub open spec fn paths_left(s: MachineView) -> nat {
    match s.phase {
        PhaseView::Idle => 0,
        PhaseView::Halted { error } => 0,
        _ => s.queue.len() + 1,
    }
}

/// How far the current document is from its chunks: the text is awaited,
/// the similarities are awaited, or the chunks are there.
pub open spec fn steps_to_chunks(s: MachineView) -> nat {
    match s.phase {
        PhaseView::Extracting { path } => 2,
        PhaseView::Scoring { path, paragraphs } => 1,
        _ => 0,
    }
}

/// The chunks of the current document that are not dealt with.
pub open spec fn chunks_left(s: MachineView) -> nat {
    match s.phase {
        PhaseView::Embedding { path, todo } => todo.len(),
        PhaseView::EmbeddingName { path, todo, embedding } => todo.len(),
        PhaseView::Inserting { path, todo, chunk } => todo.len(),
        _ => 0,
    }
}

/// The outcomes that the chunk in hand still waits for.
pub open spec fn outcomes_left(s: MachineView) -> nat {
    match s.phase {
        PhaseView::Embedding { path, todo } => 3,
        PhaseView::EmbeddingName { path, todo, embedding } => 2,
        PhaseView::Inserting { path, todo, chunk } => 1,
        _ => 0,
    }
}

/// An event is worked off in finitely many steps: every outcome that the
/// orchestrator asked for brings it nearer to the end of the event, in the
/// order of paths, then of the way to the chunks, then of chunks, then of
/// the outcomes that a chunk waits for.
pub proof fn lemma_every_answer_is_progress(s: MachineView, e: EventView)
    requires
        inv(s),
        answers(s, e),
        !(s.phase is Idle),
    ensures
        decreases_to!(
            paths_left(s), steps_to_chunks(s), chunks_left(s), outcomes_left(s) =>
            paths_left(react(s, e).0), steps_to_chunks(react(s, e).0), chunks_left(react(s, e).0),
            outcomes_left(react(s, e).0)
        ),
{
}

/// An event that reports no outcome that was asked for changes nothing
/// and leaves no notice.
pub proof fn lemma_other_events_are_ignored(s: MachineView, e: EventView)
    requires
        !answers(s, e),
    ensures
        react(s, e) == (s, Seq::<NoticeView>::empty()),
{
}

/// Deleting is asked for under the name that ingesting stores under: the
/// final segment of the path.
pub proof fn lemma_names_agree(s: MachineView)
    requires
        inv(s),
    ensures
        s.phase matches PhaseView::Deleting { path } ==> pending(s) == (ActionView::Delete {
            document_name: final_segment(path),
        }),
        s.phase matches PhaseView::Inserting { path, todo, chunk } ==> chunk.document_name
            == final_segment(path),
{
}

/// Decides [`intent_of`].
pub fn classify(kind: EventKind) -> (r: Option<Intent>)
    ensures
        r == intent_of(kind),
{
    match kind {
        EventKind::Create => Some(Intent::Ingest),
        EventKind::RenameTo => Some(Intent::Ingest),
        EventKind::Remove => Some(Intent::Remove),
        EventKind::RenameFrom => Some(Intent::Remove),
        EventKind::Other => None,
    }
}

/// A phase with what the machine keeps for it: the candidates of the
/// current document, and how many of them are dealt with.
#[derive(Debug)]
enum Phase {
    Idle,
    Extracting { path: String },
    Scoring { path: String, paragraphs: Vec<String> },
    Embedding { path: String, candidates: Vec<String>, at: usize },
    EmbeddingName { path: String, candidates: Vec<String>, at: usize, embedding: Embedding },
    Inserting { path: String, candidates: Vec<String>, at: usize, chunk: Chunk },
    Deleting { path: String },
    Halted { error: StoreError },
}

impl Phase {
    spec fn bounded(&self) -> bool {
        match self {
            Phase::Embedding { path, candidates, at } => *at < candidates.len(),
            Phase::EmbeddingName { path, candidates, at, embedding } => *at < candidates.len(),
            Phase::Inserting { path, candidates, at, chunk } => *at < candidates.len(),
            _ => true,
        }
    }

    spec fn view(&self) -> PhaseView {
        match self {
            Phase::Idle => PhaseView::Idle,
            Phase::Extracting { path } => PhaseView::Extracting { path: path@ },
            Phase::Scoring { path, paragraphs } => PhaseView::Scoring {
                path: path@,
                paragraphs: texts(paragraphs@),
            },
            Phase::Embedding { path, candidates, at } => PhaseView::Embedding {
                path: path@,
                todo: texts(candidates@).skip(*at as int),
            },
            Phase::EmbeddingName { path, candidates, at, embedding } => PhaseView::EmbeddingName {
                path: path@,
                todo: texts(candidates@).skip(*at as int),
                embedding: embedding@,
            },
            Phase::Inserting { path, candidates, at, chunk } => PhaseView::Inserting {
                path: path@,
                todo: texts(candidates@).skip(*at as int),
                chunk: chunk@,
            },
            Phase::Deleting { path } => PhaseView::Deleting { path: path@ },
            Phase::Halted { error } => PhaseView::Halted { error: *error },
        }
    }
}

/// The machine without its invariant: the state, and the transition on
/// it.  [`Orchestrator`] holds one and vouches for the invariant.
#[derive(Debug)]
struct Machine {
    config: Config,
    intent: Intent,
    queue: Vec<String>,
    next: usize,
    phase: Phase,
}

/// A machine after a step, with the notices of the step.
struct Stepped {
    machine: Machine,
    notices: Vec<Notice>,
}

impl View for Machine {
    type V = MachineView;

    closed spec fn view(&self) -> MachineView {
        MachineView {
            config: self.config,
            intent: self.intent,
            queue: texts(self.queue@).skip(self.next as int),
            phase: self.phase.view(),
        }
    }
}

fn notice(kind: NoticeKind, path: &String) -> (n: Notice)
    ensures
        n@ == (NoticeView { kind, path: path@ }),
{
    Notice { kind, path: path.clone() }
}

fn drop_empty(cands: &Vec<String>) -> (out: Vec<String>)
    ensures
        texts(out@) == nonempty(texts(cands@)),
{
    let mut out: Vec<String> = Vec::new();
    let ghost all = texts(cands@);
    let mut i: usize = 0;
    assert(all.take(0) =~= Seq::<Seq<char>>::empty());
    while i < cands.len()
        invariant
            i <= cands.len(),
            all == texts(cands@),
            texts(out@) == nonempty(all.take(i as int)),
        decreases cands.len() - i,
    {
        proof {
            let upto = all.take(i + 1);
            assert(upto.drop_last() == all.take(i as int));
            assert(upto.last() == cands@[i as int]@);
        }
        if !cands[i].as_str().is_empty() {
            let ghost done = texts(out@);
            let s = cands[i].clone();
            out.push(s);
            assert(texts(out@) == done.push(s@));
        }
        i += 1;
    }
    assert(all.take(cands.len() as int) == all);
    out
}

fn sort_paths(paths: &Vec<String>) -> (r: (Vec<String>, Vec<Notice>))
    ensures
        texts(r.0@) == documents(texts(paths@)),
        notice_views(r.1@) == rejections(texts(paths@)),
{
    let mut taken: Vec<String> = Vec::new();
    let mut notices: Vec<Notice> = Vec::new();
    let ghost all = texts(paths@);
    let mut i: usize = 0;
    assert(all.take(0) =~= Seq::<Seq<char>>::empty());
    while i < paths.len()
        invariant
            i <= paths.len(),
            all == texts(paths@),
            texts(taken@) == documents(all.take(i as int)),
            notice_views(notices@) == rejections(all.take(i as int)),
        decreases paths.len() - i,
    {
        proof {
            let upto = all.take(i + 1);
            assert(upto.drop_last() == all.take(i as int));
            assert(upto.last() == paths@[i as int]@);
        }
        if accepted(paths[i].as_str()) {
            let ghost done = texts(taken@);
            let s = paths[i].clone();
            taken.push(s);
            assert(texts(taken@) == done.push(s@));
        } else {
            let ghost done = notice_views(notices@);
            let n = notice(NoticeKind::NotADocument, &paths[i]);
            notices.push(n);
            assert(notice_views(notices@) == done.push(n@));
        }
        i += 1;
    }
    assert(all.take(paths.len() as int) == all);
    (taken, notices)
}

fn one_notice(n: Notice) -> (v: Vec<Notice>)
    ensures
        notice_views(v@) == seq![n@],
{
    let mut v: Vec<Notice> = Vec::new();
    v.push(n);
    assert(notice_views(v@) =~= seq![n@]);
    v
}

fn two_notices(a: Notice, b: Notice) -> (v: Vec<Notice>)
    ensures
        notice_views(v@) == seq![a@, b@],
{
    let mut v: Vec<Notice> = Vec::new();
    v.push(a);
    v.push(b);
    assert(notice_views(v@) =~= seq![a@, b@]);
    v
}

fn no_notices() -> (v: Vec<Notice>)
    ensures
        notice_views(v@) == Seq::<NoticeView>::empty(),
{
    let v: Vec<Notice> = Vec::new();
    assert(notice_views(v@) =~= Seq::<NoticeView>::empty());
    v
}

impl Machine {
    #[verifier::type_invariant]
    spec fn bounded(&self) -> bool {
        self.next <= self.queue.len() && self.phase.bounded()
    }

    fn new(config: Config) -> (m: Machine)
        ensures
            m@ == initial(config),
    {
        let m = Machine {
            config,
            intent: Intent::Ingest,
            queue: Vec::new(),
            next: 0,
            phase: Phase::Idle,
        };
        assert(m@.queue =~= Seq::<Seq<char>>::empty());
        m
    }

    fn halted(&self) -> (r: bool)
        ensures
            r == (self@.phase is Halted),
    {
        match &self.phase {
            Phase::Halted { error } => true,
            _ => false,
        }
    }

    fn pending(&self) -> (a: Action)
        ensures
            a@ == pending(self@),
    {
        proof {
            use_type_invariant(self);
        }
        match &self.phase {
            Phase::Idle => Action::Await,
            Phase::Extracting { path } => Action::ReadDocument { path: path.clone() },
            Phase::Scoring { path, paragraphs } => Action::ScoreParagraphs {
                paragraphs: copy_strings(paragraphs),
            },
            Phase::Embedding { path, candidates, at } => Action::Embed {
                text: candidates[*at].clone(),
            },
            Phase::EmbeddingName { path, candidates, at, embedding } => Action::Embed {
                text: document_name(path.as_str()),
            },
            Phase::Inserting { path, candidates, at, chunk } => Action::Insert {
                chunk: Chunk {
                    text: chunk.text.clone(),
                    embedding: chunk.embedding.duplicate(),
                    document_name: chunk.document_name.clone(),
                    name_embedding: match &chunk.name_embedding {
                        Some(e) => Some(e.duplicate()),
                        None => None,
                    },
                },
            },
            Phase::Deleting { path } => Action::Delete {
                document_name: document_name(path.as_str()),
            },
            Phase::Halted { error } => Action::Halt { error: *error },
        }
    }

    fn begin(config: Config, intent: Intent, queue: Vec<String>, next: usize) -> (m: Machine)
        requires
            next <= queue.len(),
        ensures
            m@ == begin(config, intent, texts(queue@).skip(next as int)),
    {
        let ghost waiting = texts(queue@).skip(next as int);
        if next == queue.len() {
            let m = Machine { config, intent, queue: Vec::new(), next: 0, phase: Phase::Idle };
            assert(m@.queue =~= waiting);
            m
        } else {
            let path = queue[next].clone();
            assert(path@ == waiting[0]);
            assert(texts(queue@).skip(next + 1) == waiting.drop_first());
            let phase = match intent {
                Intent::Ingest => Phase::Extracting { path },
                Intent::Remove => Phase::Deleting { path },
            };
            Machine { config, intent, queue, next: next + 1, phase }
        }
    }

    fn give_up(
        config: Config,
        intent: Intent,
        queue: Vec<String>,
        next: usize,
        path: String,
        kind: NoticeKind,
    ) -> (r: Stepped)
        requires
            next <= queue.len(),
        ensures
            r.machine@ == begin(config, intent, texts(queue@).skip(next as int)),
            notice_views(r.notices@) == seq![NoticeView { kind, path: path@ }],
    {
        let told = Notice { kind, path };
        Stepped { machine: Machine::begin(config, intent, queue, next), notices: one_notice(told) }
    }

    fn start_chunks(
        config: Config,
        intent: Intent,
        queue: Vec<String>,
        next: usize,
        path: String,
        cands: Vec<String>,
    ) -> (r: Stepped)
        requires
            next <= queue.len(),
        ensures
            (r.machine@, notice_views(r.notices@)) == start_chunks(
                MachineView {
                    config,
                    intent,
                    queue: texts(queue@).skip(next as int),
                    phase: PhaseView::Idle,
                },
                path@,
                texts(cands@),
            ),
    {
        let candidates = drop_empty(&cands);
        let cut = notice(NoticeKind::Segmented { chunks: candidates.len() }, &path);
        if candidates.len() == 0 {
            let done = Notice { kind: NoticeKind::Ingested, path };
            Stepped {
                machine: Machine::begin(config, intent, queue, next),
                notices: two_notices(cut, done),
            }
        } else {
            assert(texts(candidates@).skip(0) == texts(candidates@));
            Stepped {
                machine: Machine {
                    config,
                    intent,
                    queue,
                    next,
                    phase: Phase::Embedding { path, candidates, at: 0 },
                },
                notices: one_notice(cut),
            }
        }
    }

    fn after_chunk(
        config: Config,
        intent: Intent,
        queue: Vec<String>,
        next: usize,
        path: String,
        candidates: Vec<String>,
        at: usize,
        kind: NoticeKind,
    ) -> (r: Stepped)
        requires
            next <= queue.len(),
            at < candidates.len(),
        ensures
            (r.machine@, notice_views(r.notices@)) == after_chunk(
                MachineView {
                    config,
                    intent,
                    queue: texts(queue@).skip(next as int),
                    phase: PhaseView::Idle,
                },
                path@,
                texts(candidates@).skip(at as int),
                kind,
            ),
    {
        let told = notice(kind, &path);
        assert(texts(candidates@).skip(at as int).drop_first() == texts(candidates@).skip(at + 1));
        if at + 1 == candidates.len() {
            let done = Notice { kind: NoticeKind::Ingested, path };
            Stepped {
                machine: Machine::begin(config, intent, queue, next),
                notices: two_notices(told, done),
            }
        } else {
            Stepped {
                machine: Machine {
                    config,
                    intent,
                    queue,
                    next,
                    phase: Phase::Embedding { path, candidates, at: at + 1 },
                },
                notices: one_notice(told),
            }
        }
    }

    fn react(self, event: Event) -> (r: Stepped)
        ensures
            (r.machine@, notice_views(r.notices@)) == react(self@, event@),
    {
        proof {
            use_type_invariant(&self);
        }
        let ghost before = self@;
        let Machine { config, intent, queue, next, phase } = self;
        match (phase, event) {
            (Phase::Idle, Event::Filesystem(fs)) => match classify(fs.kind) {
                None => Stepped {
                    machine: Machine { config, intent, queue, next, phase: Phase::Idle },
                    notices: no_notices(),
                },
                Some(Intent::Ingest) => {
                    let (taken, notices) = sort_paths(&fs.paths);
                    assert(texts(taken@).skip(0) == texts(taken@));
                    Stepped {
                        machine: Machine::begin(config, Intent::Ingest, taken, 0),
                        notices,
                    }
                },
                Some(Intent::Remove) => {
                    assert(texts(fs.paths@).skip(0) == texts(fs.paths@));
                    Stepped {
                        machine: Machine::begin(config, Intent::Remove, fs.paths, 0),
                        notices: no_notices(),
                    }
                },
            },
            (Phase::Extracting { path }, Event::Extracted(None)) => Machine::give_up(
                config,
                intent,
                queue,
                next,
                path,
                NoticeKind::ExtractFailed,
            ),
            (Phase::Extracting { path }, Event::Extracted(Some(text))) => match config.segmenter {
                Segmenter::Paragraphs => {
                    let cands = split_paragraphs(text.as_str());
                    Machine::start_chunks(config, intent, queue, next, path, cands)
                },
                Segmenter::FixedWindow { size } => {
                    match segment(text.as_str(), &Strategy::FixedWindow { size }) {
                        Ok(cands) => Machine::start_chunks(
                            config,
                            intent,
                            queue,
                            next,
                            path,
                            cands,
                        ),
                        Err(err) => Machine::give_up(
                            config,
                            intent,
                            queue,
                            next,
                            path,
                            NoticeKind::SegmentFailed(err),
                        ),
                    }
                },
                Segmenter::SimilarityMerged => {
                    let paragraphs = split_paragraphs(text.as_str());
                    if paragraphs.len() == 0 {
                        Machine::start_chunks(config, intent, queue, next, path, paragraphs)
                    } else {
                        Stepped {
                            machine: Machine {
                                config,
                                intent,
                                queue,
                                next,
                                phase: Phase::Scoring { path, paragraphs },
                            },
                            notices: no_notices(),
                        }
                    }
                },
            },
            (Phase::Scoring { path, paragraphs }, Event::Scored(None)) => Machine::give_up(
                config,
                intent,
                queue,
                next,
                path,
                NoticeKind::ScoringFailed,
            ),
            (Phase::Scoring { path, paragraphs }, Event::Scored(Some(scores))) => {
                match merge_paragraphs(&paragraphs, &scores) {
                    Ok(cands) => Machine::start_chunks(
                        config,
                        intent,
                        queue,
                        next,
                        path,
                        cands,
                    ),
                    Err(err) => Machine::give_up(
                        config,
                        intent,
                        queue,
                        next,
                        path,
                        NoticeKind::SegmentFailed(err),
                    ),
                }
            },
            (Phase::Embedding { path, candidates, at }, Event::Embedded(produced)) => {
                assert(texts(candidates@).skip(at as int)[0] == candidates@[at as int]@);
                match embed_outcome(candidates[at].as_str(), produced) {
                    Err(err) => Machine::after_chunk(
                        config,
                        intent,
                        queue,
                        next,
                        path,
                        candidates,
                        at,
                        NoticeKind::ChunkSkipped(SkipReason::Embedding(err)),
                    ),
                    Ok(embedding) => {
                        let phase = if config.embed_names {
                            Phase::EmbeddingName { path, candidates, at, embedding }
                        } else {
                            let chunk = Chunk {
                                text: candidates[at].clone(),
                                embedding,
                                document_name: document_name(path.as_str()),
                                name_embedding: None,
                            };
                            Phase::Inserting { path, candidates, at, chunk }
                        };
                        Stepped {
                            machine: Machine { config, intent, queue, next, phase },
                            notices: no_notices(),
                        }
                    },
                }
            },
            (
                Phase::EmbeddingName { path, candidates, at, embedding },
                Event::Embedded(produced),
            ) => {
                assert(texts(candidates@).skip(at as int)[0] == candidates@[at as int]@);
                let name = document_name(path.as_str());
                match embed_outcome(name.as_str(), produced) {
                    Err(err) => Machine::after_chunk(
                        config,
                        intent,
                        queue,
                        next,
                        path,
                        candidates,
                        at,
                        NoticeKind::ChunkSkipped(SkipReason::NameEmbedding(err)),
                    ),
                    Ok(name_embedding) => {
                        let chunk = Chunk {
                            text: candidates[at].clone(),
                            embedding,
                            document_name: name,
                            name_embedding: Some(name_embedding),
                        };
                        Stepped {
                            machine: Machine {
                                config,
                                intent,
                                queue,
                                next,
                                phase: Phase::Inserting { path, candidates, at, chunk },
                            },
                            notices: no_notices(),
                        }
                    },
                }
            },
            (Phase::Inserting { path, candidates, at, chunk }, Event::Inserted(Ok(_))) => {
                Machine::after_chunk(
                    config,
                    intent,
                    queue,
                    next,
                    path,
                    candidates,
                    at,
                    NoticeKind::ChunkStored,
                )
            },
            (Phase::Inserting { path, candidates, at, chunk }, Event::Inserted(Err(err))) => {
                Machine::after_chunk(
                    config,
                    intent,
                    queue,
                    next,
                    path,
                    candidates,
                    at,
                    NoticeKind::ChunkSkipped(SkipReason::Store(err)),
                )
            },
            (Phase::Deleting { path }, Event::Deleted(Ok(rows))) => Machine::give_up(
                config,
                intent,
                queue,
                next,
                path,
                NoticeKind::Removed { rows },
            ),
            (Phase::Deleting { path }, Event::Deleted(Err(err))) => Stepped {
                machine: Machine {
                    config,
                    intent,
                    queue,
                    next,
                    phase: Phase::Halted { error: err },
                },
                notices: no_notices(),
            },
            (phase, _) => Stepped {
                machine: Machine { config, intent, queue, next, phase },
                notices: no_notices(),
            },
        }
    }
}


/// The ingestion orchestrator.
///
/// Whatever events it is given, an orchestrator is in a state that [`inv`]
/// holds of.
#[derive(Debug)]
pub struct Orchestrator {
    machine: Machine,
}

/// A step of the orchestrator: the orchestrator after the step, and what
/// the step left to be logged.
#[derive(Debug)]
pub struct Reaction {
    pub machine: Orchestrator,
    pub notices: Vec<Notice>,
}

impl View for Orchestrator {
    type V = MachineView;

    closed spec fn view(&self) -> MachineView {
        self.machine@
    }
}

impl Orchestrator {
    #[verifier::type_invariant]
    spec fn sound(&self) -> bool {
        inv(self.machine@)
    }

    /// An orchestrator that has seen no event.
    pub fn new(config: Config) -> (m: Orchestrator)
        ensures
            m@ == initial(config),
    {
        Orchestrator { machine: Machine::new(config) }
    }

    /// Whether the orchestrator has stopped for good.
    pub fn halted(&self) -> (r: bool)
        ensures
            r == (self@.phase is Halted),
    {
        self.machine.halted()
    }

    /// The action that the orchestrator waits for its caller to perform.
    pub fn pending(&self) -> (a: Action)
        ensures
            a@ == pending(self@),
            inv(self@),
    {
        proof {
            use_type_invariant(self);
        }
        self.machine.pending()
    }

    /// Takes the outcome of the pending action and moves on.
    pub fn react(self, event: Event) -> (r: Reaction)
        ensures
            (r.machine@, notice_views(r.notices@)) == react(self@, event@),
    {
        proof {
            use_type_invariant(&self);
            lemma_react_keeps_inv(self@, event@);
        }
        let Orchestrator { machine } = self;
        let Stepped { machine, notices } = machine.react(event);
        Reaction { machine: Orchestrator { machine }, notices }
    }
}

} // verus!
