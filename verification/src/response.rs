use crate::chat_template::optional_text;
use crate::finish_reason::{truncate_at_marker, truncated, FinishReason};
use crate::types::{
    ChatCompletionsChoice, ChatCompletionsChoiceDelta, ChatCompletionsMessage,
    ChatCompletionsResponse, ChatCompletionsUsage,
};
use vstd::prelude::*;
use vstd::string::*;

verus! {

/// What every response to one request carries: the request's identifier, the time it
/// was taken in, and the model asked for.
#[derive(Debug)]
pub struct ResponseMeta {
    pub id: String,
    pub created: u64,
    pub model: String,
}

/// What one chunk of a streamed reply says.
pub struct ChunkSpec {
    /// Whether the chunk names the assistant as the speaker.
    pub role: bool,
    /// The text that the chunk adds, if any.
    pub content: Option<Seq<char>>,
    /// Why the reply ends, on its last chunk.
    pub finish: Option<FinishReason>,
}

/// The text as content, or no content where it is empty.
pub open spec fn content_of(text: Seq<char>) -> Option<Seq<char>> {
    if text.len() > 0 {
        Some(text)
    } else {
        None
    }
}

/// The name of the reason, where there is one.
pub open spec fn reason_text(reason: Option<FinishReason>) -> Option<Seq<char>> {
    match reason {
        Some(r) => Some(r.text()),
        None => None,
    }
}

/// `resp` is the chunk that says `chunk` for the request of `meta`: one choice with a
/// delta and no message, and no usage.
pub open spec fn is_stream_chunk(resp: ChatCompletionsResponse, meta: ResponseMeta, chunk: ChunkSpec)
    -> bool {
    &&& resp.id@ == meta.id@
    &&& resp.object@ == "chat.completion.chunk"@
    &&& resp.created == meta.created
    &&& resp.model@ == meta.model@
    &&& resp.system_fingerprint is None
    &&& resp.usage is None
    &&& resp.choices@.len() == 1
    &&& resp.choices@[0].index == 0
    &&& resp.choices@[0].message is None
    &&& resp.choices@[0].logprobs is None
    &&& optional_text(resp.choices@[0].finish_reason) == reason_text(chunk.finish)
    &&& resp.choices@[0].delta matches Some(d) && optional_text(d.role) == (if chunk.role {
        Some("assistant"@)
    } else {
        None
    }) && optional_text(d.content) == chunk.content
}

/// `resp` is the whole reply `text`, ended for `reason`, to the request of `meta`: one
/// choice with the assistant's message and no delta, and a usage of zeros.
pub open spec fn is_batch_response(
    resp: ChatCompletionsResponse,
    meta: ResponseMeta,
    text: Seq<char>,
    reason: FinishReason,
) -> bool {
    &&& resp.id@ == meta.id@
    &&& resp.object@ == "chat.completion"@
    &&& resp.created == meta.created
    &&& resp.model@ == meta.model@
    &&& resp.system_fingerprint is None
    &&& resp.usage matches Some(u) && u.prompt_tokens == 0 && u.completion_tokens == 0
        && u.total_tokens == 0
    &&& resp.choices@.len() == 1
    &&& resp.choices@[0].index == 0
    &&& resp.choices@[0].delta is None
    &&& resp.choices@[0].logprobs is None
    &&& optional_text(resp.choices@[0].finish_reason) == Some(reason.text())
    &&& resp.choices@[0].message matches Some(m) && m.role@ == "assistant"@ && m.content@ == text
}

/// Builds one chunk of a streamed reply. Empty content is left out.
pub fn stream_chunk(meta: &ResponseMeta, role: bool, content: String, finish: Option<FinishReason>) -> (resp:
    ChatCompletionsResponse)
    ensures
        is_stream_chunk(
            resp,
            *meta,
            ChunkSpec { role: role, content: content_of(content@), finish: finish },
        ),
{
    let delta = ChatCompletionsChoiceDelta {
        role: if role {
            Some("assistant".to_owned())
        } else {
            None
        },
        content: if !content.as_str().is_empty() {
            Some(content)
        } else {
            None
        },
    };
    let choice = ChatCompletionsChoice {
        index: 0,
        message: None,
        delta: Some(delta),
        logprobs: None,
        finish_reason: match finish {
            Some(r) => Some(r.as_str().to_owned()),
            None => None,
        },
    };
    let mut choices: Vec<ChatCompletionsChoice> = Vec::new();
    choices.push(choice);
    ChatCompletionsResponse {
        id: meta.id.clone(),
        object: "chat.completion.chunk".to_owned(),
        created: meta.created,
        model: meta.model.clone(),
        system_fingerprint: None,
        choices,
        usage: None,
    }
}

/// Builds the whole reply to a request that is not streamed.
pub fn batch_response(meta: &ResponseMeta, text: String, reason: FinishReason) -> (resp:
    ChatCompletionsResponse)
    ensures
        is_batch_response(resp, *meta, text@, reason),
{
    let choice = ChatCompletionsChoice {
        index: 0,
        message: Some(ChatCompletionsMessage { role: "assistant".to_owned(), content: text }),
        delta: None,
        logprobs: None,
        finish_reason: Some(reason.as_str().to_owned()),
    };
    let mut choices: Vec<ChatCompletionsChoice> = Vec::new();
    choices.push(choice);
    ChatCompletionsResponse {
        id: meta.id.clone(),
        object: "chat.completion".to_owned(),
        created: meta.created,
        model: meta.model.clone(),
        system_fingerprint: None,
        choices,
        usage: Some(ChatCompletionsUsage::default()),
    }
}

/// Turns the text that the backend generated into the whole reply: the text up to the
/// end-of-turn marker with the reason `stop`, or all of it with the reason `length`
/// where the marker does not stand in it.
pub fn complete_batch(meta: &ResponseMeta, generated_text: &str, marker: &str) -> (resp:
    ChatCompletionsResponse)
    ensures
        is_batch_response(
            resp,
            *meta,
            truncated(generated_text@, marker@).0,
            truncated(generated_text@, marker@).1,
        ),
{
    let (text, reason) = truncate_at_marker(generated_text, marker);
    batch_response(meta, text, reason)
}

} // verus!
