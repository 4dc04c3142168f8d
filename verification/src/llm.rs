//! LLM completions, and the no-op provider used when no API keys are
//! configured: it is always available and completes to the empty string.
use vstd::prelude::*;
use crate::text::{copy_string, owned};

verus! {

broadcast use vstd::string::group_string_axioms;

/// Token usage of a completion.
#[derive(Clone, Copy, PartialEq, Eq, Structural, Debug)]
pub struct LlmUsage {
    pub prompt_tokens: u64,
    pub completion_tokens: u64,
    pub total_tokens: u64,
}

/// A completion returned by a provider.
pub struct LlmCompletion {
    pub text: String,
    pub model: String,
    pub provider: String,
    pub usage: Option<LlmUsage>,
}

/// Provider that always returns empty completions.
pub struct NoopProvider {
    model: String,
}

impl NoopProvider {
    pub closed spec fn model_name(&self) -> Seq<char> {
        self.model@
    }

    /// A provider with an empty model name.
    pub fn new() -> (r: Self)
        ensures
            r.model_name() == Seq::<char>::empty(),
    {
        NoopProvider { model: String::new() }
    }

    /// A provider reporting the given model name.
    pub fn with_model(model: String) -> (r: Self)
        ensures
            r.model_name() == model@,
    {
        NoopProvider { model }
    }

    /// The provider's name, `"noop"`.
    pub fn name(&self) -> (r: &'static str)
        ensures
            r@ == "noop"@,
    {
        "noop"
    }

    /// The model name.
    pub fn model(&self) -> (r: &str)
        ensures
            r@ == self.model_name(),
    {
        self.model.as_str()
    }

    /// An empty completion without error, whatever the prompts, with zero
    /// token usage.
    pub fn complete(&self, system: &str, user: &str) -> (r: LlmCompletion)
        ensures
            r.text@ == Seq::<char>::empty(),
            r.model@ == self.model_name(),
            r.provider@ == "noop"@,
            r.usage == Some(LlmUsage { prompt_tokens: 0, completion_tokens: 0, total_tokens: 0 }),
    {
        LlmCompletion {
            text: String::new(),
            model: copy_string(&self.model),
            provider: owned("noop"),
            usage: Some(LlmUsage { prompt_tokens: 0, completion_tokens: 0, total_tokens: 0 }),
        }
    }

    /// The no-op provider is always available.
    pub fn check_available(&self) -> (r: Result<(), String>)
        ensures
            r is Ok,
    {
        Ok(())
    }
}

} // verus!
