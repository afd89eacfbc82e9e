//! A small retrieval-augmented indexing and query core for a local
//! source-code corpus.
//!
//! The crate holds the decision logic of the two pipelines: which files an
//! ingest walk keeps, which language tag a path gets, how an embedding
//! vector is written as text for the store and read back, how a reranker
//! response is parsed into a score line, how scored candidates are ordered,
//! and how the final report is rendered. The surrounding I/O (walking the
//! tree, the model host, the store connection) stays outside the crate and
//! hands in plain strings and vectors.

pub mod text;

pub mod lang;

pub mod filter;

pub mod store;

pub mod codec;

pub mod rerank;

pub mod order;

pub mod present;


use vstd::prelude::*;

verus! {

/// The model identifier sent with every embedding request.
pub fn embedding_model_id() -> (r: &'static str)
    ensures
        r@ == "dengcao/Qwen3-Embedding-4B:Q4_K_M"@,
{
    "dengcao/Qwen3-Embedding-4B:Q4_K_M"
}

/// The model identifier sent with every rerank completion request.
pub fn reranker_model_id() -> (r: &'static str)
    ensures
        r@ == "hf.co/mradermacher/Qwen3-Reranker-4B-GGUF:Q4_K_M"@,
{
    "hf.co/mradermacher/Qwen3-Reranker-4B-GGUF:Q4_K_M"
}

} // verus!
