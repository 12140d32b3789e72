//! The language model provider's settings, and what its replies are read into.
use vstd::prelude::*;

verus! {

/// A reply of the language model: its text and, when reported, the output token count.
#[derive(Debug, Clone)]
pub struct LlmResponse {
    pub content: String,
    pub tokens_used: Option<u32>,
}

/// Messages API settings: the API key and the model to ask.
pub struct ClaudeProvider {
    api_key: String,
    model: String,
}

impl ClaudeProvider {
    pub closed spec fn key_view(&self) -> Seq<char> {
        self.api_key@
    }

    pub closed spec fn model_view(&self) -> Seq<char> {
        self.model@
    }

    /// Settings with the API key and the model identifier that requests name.
    pub fn new(api_key: String, model: String) -> (r: Self)
        ensures
            r.key_view() == api_key@,
            r.model_view() == model@,
    {
        Self { api_key, model }
    }

    pub fn with_model(self, model: String) -> (r: Self)
        ensures
            r.key_view() == self.key_view(),
            r.model_view() == model@,
    {
        let mut s = self;
        s.model = model;
        s
    }

    /// The API key.
    pub fn api_key(&self) -> (r: &str)
        ensures
            r@ == self.key_view(),
    {
        self.api_key.as_str()
    }

    /// The model name.
    pub fn model(&self) -> (r: &str)
        ensures
            r@ == self.model_view(),
    {
        self.model.as_str()
    }

    /// Provider name for logging.
    pub fn name(&self) -> (r: &'static str)
        ensures
            r@ == "Anthropic"@,
    {
        "Anthropic"
    }
}

/// The parts of an API reply that the response keeps: the text of its first content
/// block, and its output token count.
pub struct ReplyParts {
    pub first_text: Option<String>,
    pub output_tokens: Option<u64>,
}

/// The response a reply gives: the first block's text (empty without one), and the token
/// count cut to 32 bits, as an `as u32` cast does.
pub fn response_from_reply(reply: ReplyParts) -> (r: LlmResponse)
    ensures
        r.content@ == (match reply.first_text {
            Some(t) => t@,
            None => Seq::empty(),
        }),
        r.tokens_used == (match reply.output_tokens {
            Some(t) => Some(t as u32),
            None => None::<u32>,
        }),
{
    let content = match reply.first_text {
        Some(t) => t,
        None => String::new(),
    };
    let tokens_used = match reply.output_tokens {
        Some(t) => Some(t as u32),
        None => None,
    };
    LlmResponse { content, tokens_used }
}

} // verus!
