use crate::chat_template::{
    chatqa_first_unknown, chatqa_rendered, chatqa_turn, chatqa_turns, joined_contents,
    lemma_chatqa_first_unknown, llama3_prompt, llama3_turn, llama3_turns, phi3_prompt,
    phi3_turn, prompt_rendered, template_family, template_rendered,
};
use crate::text::ascii_lowercase;
use crate::types::ChatCompletionsMessage;
use vstd::prelude::*;

verus! {

/// Two conversations say the same: they have as many messages, with the same roles and
/// the same contents in the same order.
pub open spec fn same_conversation(
    a: Seq<ChatCompletionsMessage>,
    b: Seq<ChatCompletionsMessage>,
) -> bool {
    &&& a.len() == b.len()
    &&& forall|i: int|
        0 <= i < a.len() ==> (#[trigger] a[i]).role@ == b[i].role@ && a[i].content@
            == b[i].content@
}

proof fn lemma_same_front(a: Seq<ChatCompletionsMessage>, b: Seq<ChatCompletionsMessage>)
    requires
        same_conversation(a, b),
        a.len() > 0,
    ensures
        same_conversation(a.drop_last(), b.drop_last()),
        a.last().role@ == b.last().role@,
        a.last().content@ == b.last().content@,
{
    assert forall|i: int| 0 <= i < a.drop_last().len() implies (#[trigger] a.drop_last()[i]).role@
        == b.drop_last()[i].role@ && a.drop_last()[i].content@ == b.drop_last()[i].content@ by {
        assert(a[i].role@ == b[i].role@);
    }
    assert(a[a.len() - 1].role@ == b[a.len() - 1].role@);
}

proof fn lemma_same_turns(
    a: Seq<ChatCompletionsMessage>,
    b: Seq<ChatCompletionsMessage>,
    context: Option<Seq<char>>,
)
    requires
        same_conversation(a, b),
    ensures
        llama3_turns(a) == llama3_turns(b),
        phi3_prompt(a) == phi3_prompt(b),
        chatqa_turns(a, context) == chatqa_turns(b, context),
        chatqa_first_unknown(a) == chatqa_first_unknown(b),
        joined_contents(a) == joined_contents(b),
    decreases a.len(),
{
    if a.len() > 0 {
        lemma_same_front(a, b);
        lemma_same_turns(a.drop_last(), b.drop_last(), context);
        assert(llama3_turn(a.last()) == llama3_turn(b.last()));
        assert(phi3_turn(a.last()) == phi3_turn(b.last()));
        assert(chatqa_turn(a.last(), context) == chatqa_turn(b.last(), context));
    }
}

/// Rendering is a function of what the request says: the same model, the same
/// conversation and the same context give the same prompt, or the same error.
pub proof fn lemma_prompt_is_determined(
    model: Seq<char>,
    a: Seq<ChatCompletionsMessage>,
    b: Seq<ChatCompletionsMessage>,
    context: Option<Seq<char>>,
)
    requires
        same_conversation(a, b),
    ensures
        llama3_prompt(a) == llama3_prompt(b),
        phi3_prompt(a) == phi3_prompt(b),
        chatqa_rendered(a, context) == chatqa_rendered(b, context),
        template_rendered(model, a, context) == template_rendered(model, b, context),
        prompt_rendered(model, a, context) == prompt_rendered(model, b, context),
{
    lemma_same_turns(a, b, context);
    let k = chatqa_first_unknown(a);
    lemma_chatqa_first_unknown(a);
    if k < a.len() {
        assert(a[k].role@ == b[k].role@);
    }
}

/// The template of a model does not depend on the case of the ASCII letters in its
/// name.
pub proof fn lemma_template_selection_ignores_case(a: Seq<char>, b: Seq<char>)
    requires
        ascii_lowercase(a) == ascii_lowercase(b),
    ensures
        template_family(a) == template_family(b),
{
}

} // verus!
