//! Client of the generation backend, whichever is configured.

use vstd::prelude::*;
use vstd::std_specs::iter::IteratorSpec;
use crate::clients::Client;
use crate::clients::errors::Error;

verus! {

/// The backend that serves generation.
#[derive(Clone)]
pub enum GenerationClientInner<T, N> {
    Tgis(T),
    Nlp(N),
}

/// A generation client over a TGIS client `T` or an NLP client `N`, or over
/// none where generation is not configured.
#[derive(Clone)]
pub struct GenerationClient<T, N>(Option<GenerationClientInner<T, N>>);

impl<T, N> GenerationClient<T, N> {
    /// The backend, where one is configured.
    pub closed spec fn inner(&self) -> Option<GenerationClientInner<T, N>> {
        self.0
    }

    pub fn tgis(client: T) -> (r: Self)
        ensures
            r.inner() == Some(GenerationClientInner::<T, N>::Tgis(client)),
    {
        GenerationClient(Some(GenerationClientInner::Tgis(client)))
    }

    pub fn nlp(client: N) -> (r: Self)
        ensures
            r.inner() == Some(GenerationClientInner::<T, N>::Nlp(client)),
    {
        GenerationClient(Some(GenerationClientInner::Nlp(client)))
    }

    pub fn not_configured() -> (r: Self)
        ensures
            r.inner() is None,
    {
        GenerationClient(None)
    }

    /// Whether a backend is configured.
    pub fn is_configured(&self) -> (r: bool)
        ensures
            r == self.inner() is Some,
    {
        self.0.is_some()
    }

    /// The backend that a request for `model_id` goes to. Where none is
    /// configured the model cannot be found.
    pub fn backend(&self, model_id: String) -> (r: Result<&GenerationClientInner<T, N>, Error>)
        ensures
            match self.inner() {
                Some(inner) => r matches Ok(backend) && *backend == inner,
                None => r matches Err(Error::ModelNotFound { model_id: id }) && id == model_id,
            },
    {
        match &self.0 {
            Some(inner) => Ok(inner),
            None => Err(Error::ModelNotFound { model_id }),
        }
    }
}

impl<T: Send + Sync + 'static, N: Send + Sync + 'static> Client for GenerationClient<T, N> {
    fn name(&self) -> (r: &str)
        ensures
            r@ == "generation"@,
    {
        "generation"
    }
}

/// One tokenization that TGIS answers with.
#[derive(Clone, Debug, PartialEq)]
pub struct TokenizeResponse {
    pub token_count: u32,
    pub tokens: Vec<String>,
}

/// One token that the NLP service answers with.
#[derive(Clone, Debug, PartialEq)]
pub struct Token {
    pub start: i64,
    pub end: i64,
    pub text: String,
}

/// The tokenization of the one text that was sent to TGIS: the first of
/// its answers.
pub fn tgis_tokens(responses: Vec<TokenizeResponse>) -> (r: (u32, Vec<String>))
    requires
        responses@.len() >= 1,
    ensures
        r.0 == responses@[0].token_count,
        r.1 == responses@[0].tokens,
{
    let mut responses = responses;
    let response = responses.swap_remove(0);
    (response.token_count, response.tokens)
}

/// The tokenization that the NLP service answers with: the count of tokens,
/// cut down to 32 bits, and the text of each token in order.
pub fn nlp_tokens(results: Vec<Token>, token_count: i64) -> (r: (u32, Vec<String>))
    ensures
        r.0 == token_count as u32,
        r.1@.len() == results@.len(),
        forall|i: int| 0 <= i < results@.len() ==> r.1@[i] == results@[i].text,
{
    let mut tokens: Vec<String> = Vec::new();
    for token in it: results.into_iter()
        invariant
            it.seq() == results@,
            tokens@.len() == it.index(),
            forall|i: int| 0 <= i < it.index() ==> tokens@[i] == results@[i].text,
    {
        tokens.push(token.text);
    }
    let count = #[verifier::truncate]
    (token_count as u32);
    (count, tokens)
}

} // verus!
