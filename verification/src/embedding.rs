//! Embeddings as the pipeline sees them: vectors of a fixed dimension whose
//! components it stores and hands on but never computes with.

use vstd::prelude::*;

verus! {

/// The number of components of every embedding, stored or asked with.
pub const DIMENSION: usize = 384;

/// Why a text has no embedding.
#[derive(Clone, Copy, Debug, PartialEq, Eq, Structural)]
pub enum EmbeddingError {
    /// The text was empty.
    EmptyInput,
    /// The model failed while it ran.
    ModelFailure,
    /// The model answered with a vector of another dimension.
    DimensionMismatch,
}

/// A vector of [`DIMENSION`] single-precision components, each held by its
/// bit pattern.
#[derive(Debug, PartialEq, Eq)]
pub struct Embedding {
    bits: Vec<u32>,
}

impl View for Embedding {
    type V = Seq<u32>;

    closed spec fn view(&self) -> Seq<u32> {
        self.bits@
    }
}

impl Embedding {
    /// Whether the vector has the dimension that every embedding has.
    #[verifier::type_invariant]
    pub open spec fn wf(&self) -> bool {
        self@.len() == DIMENSION
    }

    /// The embedding with the given components, if they are as many as an
    /// embedding has.
    pub fn new(bits: Vec<u32>) -> (r: Option<Embedding>)
        ensures
            r is Some <==> bits@.len() == DIMENSION,
            r matches Some(e) ==> e@ == bits@ && e.wf(),
    {
        if bits.len() == DIMENSION {
            Some(Embedding { bits })
        } else {
            None
        }
    }

    /// The components, in order.
    pub fn components(&self) -> (bits: &Vec<u32>)
        ensures
            bits@ == self@,
            bits@.len() == DIMENSION,
    {
        proof {
            use_type_invariant(self);
        }
        &self.bits
    }

    /// A copy of the embedding.
    pub fn duplicate(&self) -> (e: Embedding)
        ensures
            e@ == self@,
            e.wf(),
    {
        proof {
            use_type_invariant(self);
        }
        Embedding { bits: self.bits.clone() }
    }
}

/// What the embedding provider answers for `text`, given what the model
/// produced for it: `None` where the model failed, else the components.
pub open spec fn embedding_of(text: Seq<char>, produced: Option<Seq<u32>>) -> Result<
    Seq<u32>,
    EmbeddingError,
> {
    if text.len() == 0 {
        Err(EmbeddingError::EmptyInput)
    } else {
        match produced {
            None => Err(EmbeddingError::ModelFailure),
            Some(bits) => if bits.len() == DIMENSION {
                Ok(bits)
            } else {
                Err(EmbeddingError::DimensionMismatch)
            },
        }
    }
}

/// Whether a text may be handed to the model at all: it is not empty.
pub fn accepts(text: &str) -> (r: bool)
    ensures
        r == (text@.len() > 0),
{
    !text.is_empty()
}

/// Judges what the model produced for `text`.
///
/// An empty text has no embedding, whatever the model said.  For any other
/// text the answer is the model's vector, if there is one and it has
/// [`DIMENSION`] components.
pub fn embed_outcome(text: &str, produced: Option<Vec<u32>>) -> (r: Result<
    Embedding,
    EmbeddingError,
>)
    ensures
        match r {
            Ok(e) => e.wf() && embedding_of(text@, view_of(produced)) == Ok::<
                Seq<u32>,
                EmbeddingError,
            >(e@),
            Err(err) => embedding_of(text@, view_of(produced)) == Err::<
                Seq<u32>,
                EmbeddingError,
            >(err),
        },
{
    if text.is_empty() {
        return Err(EmbeddingError::EmptyInput);
    }
    match produced {
        None => Err(EmbeddingError::ModelFailure),
        Some(bits) => match Embedding::new(bits) {
            Some(e) => Ok(e),
            None => Err(EmbeddingError::DimensionMismatch),
        },
    }
}

/// The view of what the model produced.
pub open spec fn view_of(produced: Option<Vec<u32>>) -> Option<Seq<u32>> {
    match produced {
        None => None,
        Some(bits) => Some(bits@),
    }
}

} // verus!
