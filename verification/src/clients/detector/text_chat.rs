//! Client of a detector that serves the text chat endpoint.

use vstd::prelude::*;
use crate::clients::Client;

verus! {

/// Path of the endpoint.
pub const CHAT_DETECTOR_ENDPOINT: &'static str = "/api/v1/text/chat";

/// A detector client over transport `H`, with a second client for health
/// checks where the detector serves them elsewhere.
#[derive(Clone)]
pub struct TextChatDetectorClient<H> {
    client: H,
    health_client: Option<H>,
}

impl<H> TextChatDetectorClient<H> {
    /// The client that requests go through.
    pub closed spec fn spec_client(&self) -> H {
        self.client
    }

    /// The client for health checks, where there is one.
    pub closed spec fn spec_health_client(&self) -> Option<H> {
        self.health_client
    }

    /// A detector client that sends its requests through `client`, and its
    /// health checks through `health_client` where that is given.
    pub fn new(client: H, health_client: Option<H>) -> (r: Self)
        ensures
            r.spec_client() == client,
            r.spec_health_client() == health_client,
    {
        TextChatDetectorClient { client, health_client }
    }

    /// The client that requests go through.
    pub fn client(&self) -> (r: &H)
        ensures
            *r == self.spec_client(),
    {
        &self.client
    }

    /// The client that requests go through.
    pub fn inner(&self) -> (r: &H)
        ensures
            *r == self.spec_client(),
    {
        self.client()
    }

    /// The client that a health check goes through: the one for health
    /// checks where there is one, else the one for requests.
    pub fn health_target(&self) -> (r: &H)
        ensures
            *r == (match self.spec_health_client() {
                Some(health_client) => health_client,
                None => self.spec_client(),
            }),
    {
        match &self.health_client {
            Some(health_client) => health_client,
            None => &self.client,
        }
    }

    /// Path that a text chat request is posted to.
    pub fn endpoint(&self) -> (r: &'static str)
        ensures
            r@ == CHAT_DETECTOR_ENDPOINT@,
    {
        CHAT_DETECTOR_ENDPOINT
    }
}

impl<H: Send + Sync + 'static> Client for TextChatDetectorClient<H> {
    fn name(&self) -> (r: &str)
        ensures
            r@ == "text_chat_detector"@,
    {
        "text_chat_detector"
    }
}

/// A struct representing a request to a detector compatible with the
/// /api/v1/text/chat endpoint.
#[derive(Debug, Clone)]
pub struct ChatDetectionRequest<M, T, P> {
    /// Chat messages to run detection on
    pub messages: Vec<M>,
    /// Optional list of tool definitions
    pub tools: Vec<T>,
    /// Detector parameters (available parameters depend on the detector)
    pub detector_params: P,
}

impl<M, T, P> ChatDetectionRequest<M, T, P> {
    pub fn new(messages: Vec<M>, tools: Vec<T>, detector_params: P) -> (r: Self)
        ensures
            r.messages == messages,
            r.tools == tools,
            r.detector_params == detector_params,
    {
        ChatDetectionRequest { messages, tools, detector_params }
    }
}

} // verus!
