use vstd::prelude::*;
use vstd::string::*;

verus! {

/// One turn of a conversation: who speaks, and what is said.
#[derive(Debug)]
pub struct ChatCompletionsMessage {
    pub role: String,
    pub content: String,
}

impl ChatCompletionsMessage {
    /// A message with the given role and content.
    pub fn new(role: &str, content: &str) -> (m: ChatCompletionsMessage)
        ensures
            m.role@ == role@,
            m.content@ == content@,
    {
        ChatCompletionsMessage { role: role.to_owned(), content: content.to_owned() }
    }
}

/// What goes out to a client: one chunk of a streamed reply, or a whole reply.
#[derive(Debug)]
pub struct ChatCompletionsResponse {
    pub id: String,
    pub object: String,
    pub created: u64,
    pub model: String,
    pub system_fingerprint: Option<String>,
    pub choices: Vec<ChatCompletionsChoice>,
    pub usage: Option<ChatCompletionsUsage>,
}

impl Default for ChatCompletionsResponse {
    fn default() -> (r: ChatCompletionsResponse)
        ensures
            r.id@.len() == 0,
            r.object@.len() == 0,
            r.created == 0,
            r.model@.len() == 0,
            r.system_fingerprint is None,
            r.choices@.len() == 0,
            r.usage is None,
    {
        ChatCompletionsResponse {
            id: String::new(),
            object: String::new(),
            created: 0,
            model: String::new(),
            system_fingerprint: None,
            choices: Vec::new(),
            usage: None,
        }
    }
}

/// One choice of a reply: a whole message, or the delta of a chunk.
#[derive(Debug)]
pub struct ChatCompletionsChoice {
    pub index: i32,
    pub message: Option<ChatCompletionsMessage>,
    pub delta: Option<ChatCompletionsChoiceDelta>,
    pub logprobs: Option<i32>,
    pub finish_reason: Option<String>,
}

/// What a chunk adds to the reply.
#[derive(Debug)]
pub struct ChatCompletionsChoiceDelta {
    pub role: Option<String>,
    pub content: Option<String>,
}

impl Default for ChatCompletionsChoiceDelta {
    fn default() -> (d: ChatCompletionsChoiceDelta)
        ensures
            d.role is None,
            d.content is None,
    {
        ChatCompletionsChoiceDelta { role: None, content: None }
    }
}

/// The token counts of a reply. This library counts no tokens: every count it reports
/// is zero.
#[derive(Debug)]
pub struct ChatCompletionsUsage {
    pub prompt_tokens: i64,
    pub completion_tokens: i64,
    pub total_tokens: i64,
}

impl Default for ChatCompletionsUsage {
    fn default() -> (u: ChatCompletionsUsage)
        ensures
            u.prompt_tokens == 0,
            u.completion_tokens == 0,
            u.total_tokens == 0,
    {
        ChatCompletionsUsage { prompt_tokens: 0, completion_tokens: 0, total_tokens: 0 }
    }
}

/// The reply of the primary backend to a batch request.
#[derive(Debug)]
pub struct SMPredictionOutput {
    pub generated_text: String,
}

/// The reply of the alternative backend to a batch request.
#[derive(Debug)]
pub struct BedrockResponse {
    pub generation: String,
    pub stop_reason: String,
}

impl Default for BedrockResponse {
    fn default() -> (r: BedrockResponse)
        ensures
            r.generation@.len() == 0,
            r.stop_reason@.len() == 0,
    {
        BedrockResponse { generation: String::new(), stop_reason: String::new() }
    }
}

} // verus!
