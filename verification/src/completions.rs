//! Request and response shapes for the completions endpoint, and the
//! field-level validation that runs before a request is dispatched.

use vstd::prelude::*;

verus! {

/// The prompt of a completion request. The wire format allows exactly one of
/// these four shapes ("oneOf"): a single text, a list of texts, a single
/// tokenized prompt, or a list of tokenized prompts. The invariant that
/// exactly one field is populated is not enforced at construction time; it is
/// checked by [`CreateCompletionRequest::validate`].
#[derive(Debug)]
pub struct CompletionPrompt {
    pub prompt_text: Option<String>,
    pub prompt_texts: Option<Vec<String>>,
    pub prompt_list: Option<Vec<i64>>,
    pub prompt_lists: Option<Vec<Vec<i64>>>,
}

/// The stop-word field of a completion request: either one stop word or a
/// list of at most [`MAX_STOP_WORDS`] stop words ("oneOf"). As with the
/// prompt, exactly-one-populated is checked by validation, not construction.
#[derive(Debug)]
pub struct StopWords {
    pub stop_word: Option<String>,
    pub stop_words: Option<Vec<String>>,
}

/// Largest admissible length of the stop-word list.
pub const MAX_STOP_WORDS: usize = 4;

/// How many of the four prompt shapes are populated.
pub open spec fn prompt_variant_count(p: &CompletionPrompt) -> int {
    (if p.prompt_text is Some { 1int } else { 0int })
        + (if p.prompt_texts is Some { 1int } else { 0int })
        + (if p.prompt_list is Some { 1int } else { 0int })
        + (if p.prompt_lists is Some { 1int } else { 0int })
}

/// How many of the two stop-word shapes are populated.
pub open spec fn stop_variant_count(s: &StopWords) -> int {
    (if s.stop_word is Some { 1int } else { 0int })
        + (if s.stop_words is Some { 1int } else { 0int })
}

impl CompletionPrompt {
    /// Number of populated prompt shapes, as counted by the validator.
    pub fn variant_count(&self) -> (n: u32)
        ensures
            n as int == prompt_variant_count(self),
    {
        let mut n: u32 = 0;
        if self.prompt_text.is_some() {
            n = n + 1;
        }
        if self.prompt_texts.is_some() {
            n = n + 1;
        }
        if self.prompt_list.is_some() {
            n = n + 1;
        }
        if self.prompt_lists.is_some() {
            n = n + 1;
        }
        n
    }
}

impl StopWords {
    /// Number of populated stop-word shapes, as counted by the validator.
    pub fn variant_count(&self) -> (n: u32)
        ensures
            n as int == stop_variant_count(self),
    {
        let mut n: u32 = 0;
        if self.stop_word.is_some() {
            n = n + 1;
        }
        if self.stop_words.is_some() {
            n = n + 1;
        }
        n
    }
}

/// Why a request was rejected before any network traffic.
#[derive(Debug, Clone, Copy, PartialEq, Eq, Structural)]
pub enum ValidationError {
    /// The model identifier is empty.
    EmptyModel,
    /// Zero or several prompt shapes are populated.
    AmbiguousPrompt,
    /// Zero or both stop-word shapes are populated.
    AmbiguousStop,
    /// The stop-word list holds more than [`MAX_STOP_WORDS`] entries.
    TooManyStopWords,
}

/// A completion request as the caller assembles it.
///
/// The crate never computes with the sampling parameters `temperature`,
/// `top_p`, `presence_penalty`, `frequency_penalty` and the logit-bias
/// values; they are carried to the wire verbatim. Each is therefore held as
/// the decimal text that is to appear in the request body (for example
/// `"0.7"`), not as a machine float.
#[derive(Debug)]
pub struct CreateCompletionRequest {
    pub model: String,
    pub prompt: CompletionPrompt,
    pub suffix: String,
    pub max_tokens: i32,
    pub temperature: String,
    pub top_p: String,
    pub n: i32,
    pub stream: bool,
    pub logprobs: i32,
    pub echo: bool,
    pub stop: StopWords,
    pub presence_penalty: String,
    pub frequency_penalty: String,
    pub best_of: i32,
    /// Additive sampling adjustment per token id, as (token id, decimal text).
    pub logit_bias: Vec<(i64, String)>,
    pub user: String,
}

/// Outcome of the prompt step of validation: exactly one prompt shape must be
/// populated.
pub open spec fn spec_check_prompt(p: &CompletionPrompt) -> Result<(), ValidationError> {
    if prompt_variant_count(p) != 1 {
        Err(ValidationError::AmbiguousPrompt)
    } else {
        Ok(())
    }
}

/// Outcome of the stop-word step of validation: exactly one stop shape must
/// be populated, and a stop-word list may hold at most [`MAX_STOP_WORDS`]
/// entries. A single stop word passes with no further check.
pub open spec fn spec_check_stop(s: &StopWords) -> Result<(), ValidationError> {
    if stop_variant_count(s) != 1 {
        Err(ValidationError::AmbiguousStop)
    } else if s.stop_words is Some && s.stop_words->0@.len() > MAX_STOP_WORDS {
        Err(ValidationError::TooManyStopWords)
    } else {
        Ok(())
    }
}

/// Outcome of validating a whole request: an empty model identifier is
/// rejected first, then the prompt step, then the stop-word step.
pub open spec fn spec_validate(r: &CreateCompletionRequest) -> Result<(), ValidationError> {
    if r.model@.len() == 0 {
        Err(ValidationError::EmptyModel)
    } else if spec_check_prompt(&r.prompt) is Err {
        spec_check_prompt(&r.prompt)
    } else {
        spec_check_stop(&r.stop)
    }
}

impl CreateCompletionRequest {
    /// Rejects a malformed request before any network call: the model
    /// identifier must be non-empty, exactly one prompt shape and exactly one
    /// stop shape must be populated, and a stop-word list must hold at most
    /// [`MAX_STOP_WORDS`] entries. Purely a predicate over the request's
    /// fields; no side effects.
    pub fn validate(&self) -> (r: Result<(), ValidationError>)
        ensures
            r == spec_validate(self),
    {
        if self.model.as_str().is_empty() {
            return Err(ValidationError::EmptyModel);
        }
        if self.prompt.variant_count() != 1 {
            return Err(ValidationError::AmbiguousPrompt);
        }
        if self.stop.variant_count() != 1 {
            return Err(ValidationError::AmbiguousStop);
        }
        if let Some(words) = &self.stop.stop_words {
            if words.len() > MAX_STOP_WORDS {
                return Err(ValidationError::TooManyStopWords);
            }
        }
        Ok(())
    }
}

/// Per-token log-probability detail of one generated completion.
///
/// The four sequences run in parallel, one entry per emitted token. As in the
/// request, log-probabilities are carried as the decimal text read from the
/// wire, since this crate never computes with them.
#[derive(Debug)]
pub struct LogProbs {
    pub tokens: Vec<String>,
    pub token_log_probs: Vec<String>,
    /// For each emitted token, the candidate tokens the service considered,
    /// each with the decimal text of its log-probability.
    pub top_log_probs: Vec<Vec<(String, String)>>,
    pub text_offset: Vec<i64>,
}

impl LogProbs {
    /// The parallel sequences hold one entry per emitted token.
    pub open spec fn wf(&self) -> bool {
        &&& self.token_log_probs@.len() == self.tokens@.len()
        &&& self.top_log_probs@.len() == self.tokens@.len()
        &&& self.text_offset@.len() == self.tokens@.len()
    }

    /// Decides [`LogProbs::wf`]: whether the four sequences run in parallel.
    /// A decoded response should be held to this before its detail is read.
    pub fn check_wf(&self) -> (r: bool)
        ensures
            r == self.wf(),
    {
        self.token_log_probs.len() == self.tokens.len() && self.top_log_probs.len()
            == self.tokens.len() && self.text_offset.len() == self.tokens.len()
    }
}

/// One generated completion within a response.
#[derive(Debug)]
pub struct Choice {
    pub text: String,
    /// Position of this entry within the response's choice sequence.
    pub index: i32,
    pub log_probs: Option<LogProbs>,
    /// Why generation stopped, e.g. `"length"` or `"stop"`.
    pub finish_reason: String,
}

/// Token accounting for one completed request.
#[derive(Debug)]
pub struct Usage {
    pub prompt_tokens: i32,
    pub completed_tokens: i32,
    pub total_tokens: i32,
}

impl Choice {
    /// A choice is well-formed when its log-probability detail, if present,
    /// is.
    pub open spec fn wf(&self) -> bool {
        match self.log_probs {
            Some(lp) => lp.wf(),
            None => true,
        }
    }
}

/// A parsed response of the completions endpoint. Constructed solely from a
/// response body; never mutated.
#[derive(Debug)]
pub struct CreateCompletionResponse {
    pub id: String,
    pub object: String,
    pub created: i64,
    pub model: String,
    pub choices: Vec<Choice>,
    pub usage: Usage,
}

impl CreateCompletionResponse {
    /// A response is well-formed when every choice is.
    pub open spec fn wf(&self) -> bool {
        forall|k: int| 0 <= k < self.choices@.len() ==> (#[trigger] self.choices@[k]).wf()
    }

    /// Decides [`CreateCompletionResponse::wf`]: every choice's
    /// log-probability detail, if present, runs in parallel with its tokens.
    pub fn check_wf(&self) -> (r: bool)
        ensures
            r == self.wf(),
    {
        let mut i: usize = 0;
        while i < self.choices.len()
            invariant
                i <= self.choices@.len(),
                forall|k: int| 0 <= k < i ==> (#[trigger] self.choices@[k]).wf(),
            decreases self.choices@.len() - i,
        {
            let ok = match &self.choices[i].log_probs {
                Some(lp) => lp.check_wf(),
                None => true,
            };
            if !ok {
                return false;
            }
            i = i + 1;
        }
        true
    }
}

/// A request whose model identifier is empty is always rejected with
/// `EmptyModel`, whatever its other fields hold.
pub proof fn lemma_empty_model_rejected(r: &CreateCompletionRequest)
    requires
        r.model@.len() == 0,
    ensures
        spec_validate(r) == Err::<(), ValidationError>(ValidationError::EmptyModel),
{
}

/// With exactly one prompt shape populated the prompt step passes, whichever
/// of the four shapes it is.
pub proof fn lemma_one_prompt_shape_accepted(p: &CompletionPrompt)
    requires
        prompt_variant_count(p) == 1,
    ensures
        spec_check_prompt(p) == Ok::<(), ValidationError>(()),
{
}

/// With zero or several prompt shapes populated, validation fails with
/// `AmbiguousPrompt` (on any request whose model identifier is non-empty;
/// an empty model identifier is reported as `EmptyModel` first).
pub proof fn lemma_ambiguous_prompt_rejected(r: &CreateCompletionRequest)
    requires
        r.model@.len() > 0,
        prompt_variant_count(&r.prompt) != 1,
    ensures
        spec_validate(r) == Err::<(), ValidationError>(ValidationError::AmbiguousPrompt),
{
}

/// With the single-stop-word shape populated (and the list shape not), the
/// stop step passes, whatever the word holds.
pub proof fn lemma_single_stop_word_accepted(s: &StopWords)
    requires
        s.stop_word is Some,
        s.stop_words is None,
    ensures
        spec_check_stop(s) == Ok::<(), ValidationError>(()),
{
}

/// With the stop-word-list shape populated (and the single-word shape not),
/// the stop step passes exactly when the list holds at most
/// [`MAX_STOP_WORDS`] entries, and otherwise fails with `TooManyStopWords`.
pub proof fn lemma_stop_word_list_limit(s: &StopWords)
    requires
        s.stop_word is None,
        s.stop_words is Some,
    ensures
        spec_check_stop(s) == (if s.stop_words->0@.len() > MAX_STOP_WORDS {
            Err::<(), ValidationError>(ValidationError::TooManyStopWords)
        } else {
            Ok::<(), ValidationError>(())
        }),
{
}

/// A request passes validation exactly when its model identifier is
/// non-empty, exactly one prompt shape and one stop shape are populated, and
/// a populated stop-word list holds at most [`MAX_STOP_WORDS`] entries.
pub proof fn lemma_validate_ok(r: &CreateCompletionRequest)
    ensures
        spec_validate(r) == Ok::<(), ValidationError>(()) <==> {
            &&& r.model@.len() > 0
            &&& prompt_variant_count(&r.prompt) == 1
            &&& stop_variant_count(&r.stop) == 1
            &&& (r.stop.stop_words is Some ==> r.stop.stop_words->0@.len() <= MAX_STOP_WORDS)
        },
{
}

} // verus!
