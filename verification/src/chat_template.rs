use crate::error::{text_outcome, RelayError, RelayFault};
use crate::text::{
    ascii_lowercase, chars_of, find, find_chars, starts_with_chars, str_eq, to_ascii_lowercase,
};
use crate::types::ChatCompletionsMessage;
use vstd::prelude::*;
use vstd::string::*;

verus! {

/// One message as the header-delimited template writes it.
pub open spec fn llama3_turn(m: ChatCompletionsMessage) -> Seq<char> {
    "<|start_header_id|>"@ + m.role@ + "<|end_header_id|>"@ + "\n\n"@ + m.content@
        + "<|eot_id|>"@
}

/// The messages as the header-delimited template writes them, in order.
pub open spec fn llama3_turns(messages: Seq<ChatCompletionsMessage>) -> Seq<char>
    decreases messages.len(),
{
    if messages.len() == 0 {
        Seq::empty()
    } else {
        llama3_turns(messages.drop_last()) + llama3_turn(messages.last())
    }
}

/// The prompt of the header-delimited template: the begin marker, every message under
/// a header of its role, and an empty assistant header for the model to go on from.
pub open spec fn llama3_prompt(messages: Seq<ChatCompletionsMessage>) -> Seq<char> {
    "<|begin_of_text|>"@ + llama3_turns(messages)
        + "<|start_header_id|>assistant<|end_header_id|>\n\n"@
}

/// Renders a conversation for the Llama 3 family. Roles are written as they are.
pub fn apply_chat_template_llama3(messages: &[ChatCompletionsMessage]) -> (s: String)
    ensures
        s@ == llama3_prompt(messages@),
{
    let mut s = String::new();
    s.append("<|begin_of_text|>");
    let mut i: usize = 0;
    assert(s@ =~= "<|begin_of_text|>"@ + llama3_turns(messages@.take(0)));
    while i < messages.len()
        invariant
            i <= messages@.len(),
            s@ == "<|begin_of_text|>"@ + llama3_turns(messages@.take(i as int)),
        decreases messages@.len() - i,
    {
        let m = &messages[i];
        s.append("<|start_header_id|>");
        s.append(m.role.as_str());
        s.append("<|end_header_id|>");
        s.append("\n\n");
        s.append(m.content.as_str());
        s.append("<|eot_id|>");
        proof {
            let next = messages@.take(i + 1);
            assert(next.drop_last() =~= messages@.take(i as int));
            assert(next.last() == messages@[i as int]);
            assert(s@ =~= "<|begin_of_text|>"@ + llama3_turns(next));
        }
        i += 1;
    }
    assert(messages@.take(i as int) =~= messages@);
    s.append("<|start_header_id|>assistant<|end_header_id|>\n\n");
    s
}

/// Whether the alternation template writes a message of this role as a user turn.
pub open spec fn phi3_user_role(role: Seq<char>) -> bool {
    role == "user"@ || role == "system"@
}

/// One message as the alternation template writes it: user and system messages under
/// the user marker, assistant messages under the assistant marker, each followed by the
/// end marker and a fresh assistant marker; a message of any other role is left out.
pub open spec fn phi3_turn(m: ChatCompletionsMessage) -> Seq<char> {
    if phi3_user_role(m.role@) {
        "<|user|>\n"@ + m.content@ + "<|end|>\n<|assistant|>\n"@
    } else if m.role@ == "assistant"@ {
        "<|assistant|>\n"@ + m.content@ + "<|end|>\n<|assistant|>\n"@
    } else {
        Seq::empty()
    }
}

/// The prompt of the alternation template: the messages as it writes them, in order.
pub open spec fn phi3_prompt(messages: Seq<ChatCompletionsMessage>) -> Seq<char>
    decreases messages.len(),
{
    if messages.len() == 0 {
        Seq::empty()
    } else {
        phi3_prompt(messages.drop_last()) + phi3_turn(messages.last())
    }
}

/// Renders a conversation for the Phi-3 family. Messages whose role is not `user`,
/// `system` or `assistant` are skipped.
pub fn apply_chat_template_phi3(messages: &[ChatCompletionsMessage]) -> (s: String)
    ensures
        s@ == phi3_prompt(messages@),
{
    let mut s = String::new();
    let mut i: usize = 0;
    assert(s@ =~= phi3_prompt(messages@.take(0)));
    while i < messages.len()
        invariant
            i <= messages@.len(),
            s@ == phi3_prompt(messages@.take(i as int)),
        decreases messages@.len() - i,
    {
        let m = &messages[i];
        let ghost before = s@;
        let role = m.role.as_str();
        if str_eq(role, "user") || str_eq(role, "system") {
            s.append("<|user|>\n");
            s.append(m.content.as_str());
            s.append("<|end|>\n<|assistant|>\n");
        } else if str_eq(role, "assistant") {
            s.append("<|assistant|>\n");
            s.append(m.content.as_str());
            s.append("<|end|>\n<|assistant|>\n");
        }
        proof {
            let next = messages@.take(i + 1);
            assert(next.drop_last() =~= messages@.take(i as int));
            assert(next.last() == messages@[i as int]);
            assert(s@ =~= before + phi3_turn(messages@[i as int]));
        }
        i += 1;
    }
    assert(messages@.take(i as int) =~= messages@);
    s
}

/// Whether the labeled-turn template accepts a message of this role.
pub open spec fn chatqa_role(role: Seq<char>) -> bool {
    role == "system"@ || role == "user"@ || role == "assistant"@
}

/// One message as the labeled-turn template writes it: a capitalised label, the content
/// and a blank line; behind a system message, the context as a paragraph of its own,
/// where one is given.
pub open spec fn chatqa_turn(m: ChatCompletionsMessage, context: Option<Seq<char>>) -> Seq<
    char,
> {
    if m.role@ == "system"@ {
        "System: "@ + m.content@ + "\n\n"@ + match context {
            Some(c) => c + "\n\n"@,
            None => Seq::empty(),
        }
    } else if m.role@ == "user"@ {
        "User: "@ + m.content@ + "\n\n"@
    } else {
        "Assistant: "@ + m.content@ + "\n\n"@
    }
}

/// The messages as the labeled-turn template writes them, in order.
pub open spec fn chatqa_turns(messages: Seq<ChatCompletionsMessage>, context: Option<Seq<char>>)
    -> Seq<char>
    decreases messages.len(),
{
    if messages.len() == 0 {
        Seq::empty()
    } else {
        chatqa_turns(messages.drop_last(), context) + chatqa_turn(messages.last(), context)
    }
}

/// The prompt of the labeled-turn template: the messages, and the cue for the assistant
/// to go on from.
pub open spec fn chatqa_prompt(messages: Seq<ChatCompletionsMessage>, context: Option<Seq<char>>)
    -> Seq<char> {
    chatqa_turns(messages, context) + "Assistant: "@
}

/// The place of the first message whose role the labeled-turn template does not
/// accept, or the number of messages where it accepts them all.
pub open spec fn chatqa_first_unknown(messages: Seq<ChatCompletionsMessage>) -> int
    decreases messages.len(),
{
    if messages.len() == 0 {
        0
    } else {
        let before = chatqa_first_unknown(messages.drop_last());
        if before < messages.len() - 1 || !chatqa_role(messages.last().role@) {
            before
        } else {
            messages.len() as int
        }
    }
}

/// `chatqa_first_unknown` is the first place of a role that is not accepted.
pub proof fn lemma_chatqa_first_unknown(messages: Seq<ChatCompletionsMessage>)
    ensures
        0 <= chatqa_first_unknown(messages) <= messages.len(),
        forall|i: int|
            0 <= i < chatqa_first_unknown(messages) ==> chatqa_role(#[trigger] messages[i].role@),
        chatqa_first_unknown(messages) < messages.len() ==> !chatqa_role(
            messages[chatqa_first_unknown(messages)].role@,
        ),
    decreases messages.len(),
{
    if messages.len() > 0 {
        let front = messages.drop_last();
        lemma_chatqa_first_unknown(front);
        assert forall|i: int| 0 <= i < chatqa_first_unknown(messages) implies chatqa_role(
            #[trigger] messages[i].role@,
        ) by {
            if i < front.len() {
                assert(front[i] == messages[i]);
                assert(chatqa_role(front[i].role@));
            }
        }
        if chatqa_first_unknown(messages) < front.len() {
            assert(front[chatqa_first_unknown(front)] == messages[chatqa_first_unknown(front)]);
        }
    }
}

/// What the labeled-turn template makes of a conversation: the prompt where every role
/// is accepted, otherwise the first role that is not.
pub open spec fn chatqa_rendered(
    messages: Seq<ChatCompletionsMessage>,
    context: Option<Seq<char>>,
) -> Result<Seq<char>, RelayFault> {
    let k = chatqa_first_unknown(messages);
    if k == messages.len() {
        Ok(chatqa_prompt(messages, context))
    } else {
        Err(RelayFault::UnknownRole(messages[k].role@))
    }
}

/// Renders a conversation for Llama3-ChatQA-1.5-8B, with the context behind each system
/// message. A role other than `system`, `user` and `assistant` is an error, and the
/// error names the first such role.
pub fn apply_chat_template_nvidia_llama3_chatqa(
    messages: &[ChatCompletionsMessage],
    context: Option<&str>,
) -> (r: Result<String, RelayError>)
    ensures
        text_outcome(r) == chatqa_rendered(
            messages@,
            match context {
                Some(c) => Some(c@),
                None => None,
            },
        ),
{
    let ghost ctx: Option<Seq<char>> = match context {
        Some(c) => Some(c@),
        None => None,
    };
    let mut s = String::new();
    let mut i: usize = 0;
    assert(s@ =~= chatqa_turns(messages@.take(0), ctx));
    while i < messages.len()
        invariant
            i <= messages@.len(),
            ctx == match context {
                Some(c) => Some(c@),
                None => None::<Seq<char>>,
            },
            chatqa_first_unknown(messages@.take(i as int)) == i,
            s@ == chatqa_turns(messages@.take(i as int), ctx),
        decreases messages@.len() - i,
    {
        let m = &messages[i];
        let ghost before = s@;
        let role = m.role.as_str();
        proof {
            let next = messages@.take(i + 1);
            assert(next.drop_last() =~= messages@.take(i as int));
            assert(next.last() == messages@[i as int]);
        }
        if str_eq(role, "system") {
            s.append("System: ");
            s.append(m.content.as_str());
            s.append("\n\n");
            match context {
                Some(c) => {
                    s.append(c);
                    s.append("\n\n");
                },
                None => {},
            }
        } else if str_eq(role, "user") {
            s.append("User: ");
            s.append(m.content.as_str());
            s.append("\n\n");
        } else if str_eq(role, "assistant") {
            s.append("Assistant: ");
            s.append(m.content.as_str());
            s.append("\n\n");
        } else {
            proof {
                lemma_chatqa_stops_at(messages@, i as int);
            }
            return Err(RelayError::UnknownRole(role.to_owned()));
        }
        proof {
            assert(s@ =~= before + chatqa_turn(messages@[i as int], ctx));
        }
        i += 1;
    }
    assert(messages@.take(i as int) =~= messages@);
    s.append("Assistant: ");
    Ok(s)
}

/// Where the first `i` roles are accepted and the next one is not, `i` is the place
/// of the first role that is not accepted.
proof fn lemma_chatqa_stops_at(messages: Seq<ChatCompletionsMessage>, i: int)
    requires
        0 <= i < messages.len(),
        chatqa_first_unknown(messages.take(i)) == i,
        !chatqa_role(messages[i].role@),
    ensures
        chatqa_first_unknown(messages) == i,
    decreases messages.len(),
{
    if messages.len() == i + 1 {
        assert(messages.drop_last() =~= messages.take(i));
    } else {
        assert(messages.drop_last().take(i) =~= messages.take(i));
        lemma_chatqa_stops_at(messages.drop_last(), i);
    }
}

/// The chat templates that a model can be rendered with.
#[derive(Clone, Copy, Debug, PartialEq, Eq, Structural)]
pub enum TemplateFamily {
    /// Header-delimited turns.
    Llama3,
    /// User and assistant alternation.
    Phi3,
    /// Labeled turns with injected context.
    ChatQa,
}

/// The template of a model, by its name without regard to the case of ASCII letters:
/// a name that begins with `llama-3` or `phi-3`, or the name `llama3-chatqa-1.5-8b`.
pub open spec fn template_family(model: Seq<char>) -> Option<TemplateFamily> {
    let lower = ascii_lowercase(model);
    if "llama-3"@.is_prefix_of(lower) {
        Some(TemplateFamily::Llama3)
    } else if "phi-3"@.is_prefix_of(lower) {
        Some(TemplateFamily::Phi3)
    } else if lower == "llama3-chatqa-1.5-8b"@ {
        Some(TemplateFamily::ChatQa)
    } else {
        None
    }
}

/// Selects the template of a model.
pub fn select_template(model: &str) -> (f: Option<TemplateFamily>)
    ensures
        f == template_family(model@),
{
    let name = chars_of(model);
    let lower = to_ascii_lowercase(name.as_slice());
    let llama = chars_of("llama-3");
    let phi = chars_of("phi-3");
    let chatqa = chars_of("llama3-chatqa-1.5-8b");
    if starts_with_chars(lower.as_slice(), llama.as_slice()) {
        Some(TemplateFamily::Llama3)
    } else if starts_with_chars(lower.as_slice(), phi.as_slice()) {
        Some(TemplateFamily::Phi3)
    } else if lower.len() == chatqa.len() && starts_with_chars(
        lower.as_slice(),
        chatqa.as_slice(),
    ) {
        assert(lower@ =~= chatqa@);
        Some(TemplateFamily::ChatQa)
    } else {
        None
    }
}

/// What rendering makes of a conversation for a model: the prompt of the model's
/// template, or the error of a model that has none.
pub open spec fn template_rendered(
    model: Seq<char>,
    messages: Seq<ChatCompletionsMessage>,
    context: Option<Seq<char>>,
) -> Result<Seq<char>, RelayFault> {
    match template_family(model) {
        Some(TemplateFamily::Llama3) => Ok(llama3_prompt(messages)),
        Some(TemplateFamily::Phi3) => Ok(phi3_prompt(messages)),
        Some(TemplateFamily::ChatQa) => chatqa_rendered(messages, context),
        None => Err(RelayFault::UnsupportedModel(model)),
    }
}

/// The text of an optional string.
pub open spec fn optional_text(s: Option<String>) -> Option<Seq<char>> {
    match s {
        Some(c) => Some(c@),
        None => None,
    }
}

/// Renders a conversation with the template of the model. The context is used by the
/// labeled-turn template alone.
pub fn apply_chat_template(
    model: &str,
    messages: &[ChatCompletionsMessage],
    context: Option<String>,
) -> (r: Result<String, RelayError>)
    ensures
        text_outcome(r) == template_rendered(model@, messages@, optional_text(context)),
{
    match select_template(model) {
        Some(TemplateFamily::Llama3) => Ok(apply_chat_template_llama3(messages)),
        Some(TemplateFamily::Phi3) => Ok(apply_chat_template_phi3(messages)),
        Some(TemplateFamily::ChatQa) => match &context {
            Some(c) => apply_chat_template_nvidia_llama3_chatqa(messages, Some(c.as_str())),
            None => apply_chat_template_nvidia_llama3_chatqa(messages, None),
        },
        None => Err(RelayError::UnsupportedModel(model.to_owned())),
    }
}

/// Whether a model takes a chat template: its name holds `-instruct`, without regard to
/// the case of ASCII letters, or is `Llama3-ChatQA-1.5-8B`.
pub open spec fn is_instruct_model(model: Seq<char>) -> bool {
    find(ascii_lowercase(model), "-instruct"@) is Some || model == "Llama3-ChatQA-1.5-8B"@
}

/// Whether a model takes a chat template.
pub fn takes_chat_template(model: &str) -> (r: bool)
    ensures
        r == is_instruct_model(model@),
{
    let name = chars_of(model);
    let lower = to_ascii_lowercase(name.as_slice());
    let tag = chars_of("-instruct");
    find_chars(lower.as_slice(), tag.as_slice()).is_some() || str_eq(
        model,
        "Llama3-ChatQA-1.5-8B",
    )
}

/// The contents of the messages, one to a line.
pub open spec fn joined_contents(messages: Seq<ChatCompletionsMessage>) -> Seq<char>
    decreases messages.len(),
{
    if messages.len() == 0 {
        Seq::empty()
    } else if messages.len() == 1 {
        messages.last().content@
    } else {
        joined_contents(messages.drop_last()) + "\n"@ + messages.last().content@
    }
}

/// Joins the contents of the messages with newlines, for a model that takes no chat
/// template.
pub fn join_contents(messages: &[ChatCompletionsMessage]) -> (s: String)
    ensures
        s@ == joined_contents(messages@),
{
    let mut s = String::new();
    let mut i: usize = 0;
    assert(s@ =~= joined_contents(messages@.take(0)));
    while i < messages.len()
        invariant
            i <= messages@.len(),
            s@ == joined_contents(messages@.take(i as int)),
        decreases messages@.len() - i,
    {
        let ghost before = s@;
        if i > 0 {
            s.append("\n");
        }
        s.append(messages[i].content.as_str());
        proof {
            let next = messages@.take(i + 1);
            assert(next.drop_last() =~= messages@.take(i as int));
            assert(next.last() == messages@[i as int]);
            if i == 0 {
                assert(s@ =~= messages@[0].content@);
            } else {
                assert(s@ =~= before + "\n"@ + messages@[i as int].content@);
            }
        }
        i += 1;
    }
    assert(messages@.take(i as int) =~= messages@);
    s
}

/// The prompt sent to the backend: the conversation rendered with the model's chat
/// template where the model takes one, otherwise the contents of the messages one to
/// a line.
pub open spec fn prompt_rendered(
    model: Seq<char>,
    messages: Seq<ChatCompletionsMessage>,
    context: Option<Seq<char>>,
) -> Result<Seq<char>, RelayFault> {
    if is_instruct_model(model) {
        template_rendered(model, messages, context)
    } else {
        Ok(joined_contents(messages))
    }
}

/// Renders the prompt for a model.
pub fn render_prompt(model: &str, messages: &[ChatCompletionsMessage], context: Option<String>) -> (r:
    Result<String, RelayError>)
    ensures
        text_outcome(r) == prompt_rendered(model@, messages@, optional_text(context)),
{
    if takes_chat_template(model) {
        apply_chat_template(model, messages, context)
    } else {
        Ok(join_contents(messages))
    }
}

/// The end-of-turn marker of a model, by the beginning of its name: `<|eot_id|>` for
/// `Llama`, `<|end|>` for `Phi-3`.
pub open spec fn marker_of(model: Seq<char>) -> Option<Seq<char>> {
    if "Llama"@.is_prefix_of(model) {
        Some("<|eot_id|>"@)
    } else if "Phi-3"@.is_prefix_of(model) {
        Some("<|end|>"@)
    } else {
        None
    }
}

/// Resolves the end-of-turn marker of a model.
pub fn end_of_turn_marker(model: &str) -> (r: Option<&'static str>)
    ensures
        match r {
            Some(marker) => marker_of(model@) == Some(marker@),
            None => marker_of(model@) is None,
        },
{
    let name = chars_of(model);
    let llama = chars_of("Llama");
    let phi = chars_of("Phi-3");
    if starts_with_chars(name.as_slice(), llama.as_slice()) {
        Some("<|eot_id|>")
    } else if starts_with_chars(name.as_slice(), phi.as_slice()) {
        Some("<|end|>")
    } else {
        None
    }
}

} // verus!
