use chat_relay::endpoint_loader::{Endpoint, EndpointLoader, ModelEndpoints};
use chat_relay::error::RelayError;
use chat_relay::request::plan_request;
use chat_relay::response::{batch_response, complete_batch, stream_chunk, ResponseMeta};
use chat_relay::finish_reason::FinishReason;
use chat_relay::stream::{BackendEvent, StreamState};
use chat_relay::types::{
    BedrockResponse, ChatCompletionsChoiceDelta, ChatCompletionsMessage, ChatCompletionsResponse,
    ChatCompletionsUsage, SMPredictionOutput,
};

fn meta() -> ResponseMeta {
    ResponseMeta { id: "req-1".to_owned(), created: 1720000000, model: "Llama-3-70B-Instruct".to_owned() }
}

fn directory() -> EndpointLoader {
    EndpointLoader::new(ModelEndpoints {
        models: vec![
            Endpoint {
                model: "Llama-3-70B-Instruct".to_owned(),
                endpoint_name: "lmi-llama-3-70b-instruct".to_owned(),
                target_model: None,
                inference_component: Some("ic-llama".to_owned()),
                backend: "LMI".to_owned(),
            },
            Endpoint {
                model: "Phi-3-mini-4k-instruct".to_owned(),
                endpoint_name: "lmi-mme".to_owned(),
                target_model: Some("phi-3-mini-4k-instruct.tar.gz".to_owned()),
                inference_component: None,
                backend: "LMI".to_owned(),
            },
            Endpoint {
                model: "Mistral-7B".to_owned(),
                endpoint_name: "lmi-mistral".to_owned(),
                target_model: None,
                inference_component: None,
                backend: "LMI".to_owned(),
            },
            Endpoint {
                model: "Llama3-ChatQA-1.5-8B".to_owned(),
                endpoint_name: "lmi-chatqa".to_owned(),
                target_model: None,
                inference_component: None,
                backend: "LMI".to_owned(),
            },
        ],
    })
}

fn pirate() -> Vec<ChatCompletionsMessage> {
    vec![
        ChatCompletionsMessage::new("system", "You are a pirate..."),
        ChatCompletionsMessage::new("user", "Who are you?"),
    ]
}

/// The role, the content and the finish reason of a chunk, after a look at the rest.
fn chunk(resp: &ChatCompletionsResponse) -> (Option<&str>, Option<&str>, Option<&str>) {
    assert_eq!(resp.id, "req-1");
    assert_eq!(resp.object, "chat.completion.chunk");
    assert_eq!(resp.created, 1720000000);
    assert_eq!(resp.model, "Llama-3-70B-Instruct");
    assert!(resp.system_fingerprint.is_none());
    assert!(resp.usage.is_none());
    assert_eq!(resp.choices.len(), 1);
    let choice = &resp.choices[0];
    assert_eq!(choice.index, 0);
    assert!(choice.message.is_none());
    assert!(choice.logprobs.is_none());
    let delta = choice.delta.as_ref().unwrap();
    (delta.role.as_deref(), delta.content.as_deref(), choice.finish_reason.as_deref())
}

fn chunks(sent: &[ChatCompletionsResponse]) -> Vec<(Option<&str>, Option<&str>, Option<&str>)> {
    sent.iter().map(chunk).collect()
}

#[test]
fn batch_scenario_ends_at_the_marker() {
    let messages = pirate();
    let plan = plan_request(&directory(), "Llama-3-70B-Instruct", &messages, None, Some(false)).unwrap();
    assert!(!plan.stream);
    assert_eq!(plan.endpoint_name, "lmi-llama-3-70b-instruct");
    assert_eq!(plan.marker, "<|eot_id|>");
    let resp = complete_batch(&meta(), "Ahoy!<|eot_id|>", &plan.marker);
    assert_eq!(resp.id, "req-1");
    assert_eq!(resp.object, "chat.completion");
    assert_eq!(resp.created, 1720000000);
    assert_eq!(resp.model, "Llama-3-70B-Instruct");
    assert!(resp.system_fingerprint.is_none());
    assert_eq!(resp.choices.len(), 1);
    let choice = &resp.choices[0];
    assert_eq!(choice.index, 0);
    assert!(choice.delta.is_none());
    assert!(choice.logprobs.is_none());
    let message = choice.message.as_ref().unwrap();
    assert_eq!(message.role, "assistant");
    assert_eq!(message.content, "Ahoy!");
    assert_eq!(choice.finish_reason.as_deref(), Some("stop"));
    let usage = resp.usage.as_ref().unwrap();
    assert_eq!(usage.prompt_tokens, 0);
    assert_eq!(usage.completion_tokens, 0);
    assert_eq!(usage.total_tokens, 0);
}

#[test]
fn batch_without_marker_is_length() {
    let resp = complete_batch(&meta(), "Ahoy!", "<|eot_id|>");
    let choice = &resp.choices[0];
    assert_eq!(choice.message.as_ref().unwrap().content, "Ahoy!");
    assert_eq!(choice.finish_reason.as_deref(), Some("length"));
}

#[test]
fn batch_response_is_built_as_given() {
    let resp = batch_response(&meta(), "text".to_owned(), FinishReason::Length);
    assert_eq!(resp.object, "chat.completion");
    assert_eq!(resp.choices[0].message.as_ref().unwrap().content, "text");
    assert_eq!(resp.choices[0].message.as_ref().unwrap().role, "assistant");
    assert_eq!(resp.choices[0].finish_reason.as_deref(), Some("length"));
}

#[test]
fn stream_scenario_ends_at_the_marker() {
    let messages = pirate();
    let plan = plan_request(&directory(), "Llama-3-70B-Instruct", &messages, None, Some(true)).unwrap();
    assert!(plan.stream);
    let mut state = StreamState::new(meta(), &plan.marker);
    let first = state.on_fragment(b"Ahoy").unwrap();
    assert_eq!(chunks(&first), vec![(Some("assistant"), Some("Ahoy"), None)]);
    let second = state.on_fragment(b"! <|eot").unwrap();
    assert_eq!(chunks(&second), vec![(None, Some("! "), None)]);
    assert!(!state.is_done());
    let third = state.on_fragment(b"_id|>").unwrap();
    assert_eq!(chunks(&third), vec![(None, None, Some("stop"))]);
    assert!(state.is_done());
    assert!(state.on_fragment(b"more").unwrap().is_empty());
    assert!(state.on_end().unwrap().is_empty());
    assert!(state.on_failure().unwrap().is_empty());
}

#[test]
fn stream_of_a_framed_document_ends_with_length() {
    let mut state = StreamState::new(meta(), "<|eot_id|>");
    let first = state.on_fragment(b"{\"generated_text\": \"").unwrap();
    assert_eq!(chunks(&first), vec![(Some("assistant"), None, None)]);
    let second = state.on_fragment(b"Ahoy").unwrap();
    assert_eq!(chunks(&second), vec![(None, Some("Ahoy"), None)]);
    let third = state.on_fragment(b"!\"}").unwrap();
    assert_eq!(chunks(&third), vec![(None, Some("!"), None)]);
    let last = state.on_end().unwrap();
    assert_eq!(chunks(&last), vec![(None, None, Some("length"))]);
    assert!(state.is_done());
}

#[test]
fn text_before_the_marker_goes_out_with_the_reason() {
    let mut state = StreamState::new(meta(), "<|eot_id|>");
    let first = state.on_fragment(b"{\"generated_text\": \"Ahoy!<|eot_id|>\"}").unwrap();
    assert_eq!(chunks(&first), vec![(Some("assistant"), Some("Ahoy!"), Some("stop"))]);
    assert!(state.is_done());
}

#[test]
fn fragments_that_release_nothing_make_no_chunk() {
    let mut state = StreamState::new(meta(), "<|eot_id|>");
    let first = state.on_fragment(b"a\"").unwrap();
    assert_eq!(chunks(&first), vec![(Some("assistant"), Some("a"), None)]);
    assert!(state.on_fragment(b"").unwrap().is_empty());
    assert!(state.on_fragment(b"}").unwrap().is_empty());
    let last = state.on_end().unwrap();
    assert_eq!(chunks(&last), vec![(None, None, Some("length"))]);
}

#[test]
fn what_was_held_back_goes_out_before_the_last_chunk() {
    let mut state = StreamState::new(meta(), "<|eot_id|>");
    let first = state.on_fragment(b"Ahoy<|eot").unwrap();
    assert_eq!(chunks(&first), vec![(Some("assistant"), Some("Ahoy"), None)]);
    let last = state.on_end().unwrap();
    assert_eq!(chunks(&last), vec![(None, Some("<|eot"), None), (None, None, Some("length"))]);
}

#[test]
fn a_marker_completed_at_the_end_stops_the_reply() {
    let mut state = StreamState::new(meta(), "<|end|>");
    let first = state.on_fragment(b"{\"generated_text\": \"Hi<|end|\"").unwrap();
    assert_eq!(chunks(&first), vec![(Some("assistant"), Some("Hi"), None)]);
    assert!(state.on_fragment(b"}").unwrap().is_empty());
    let last = state.on_end().unwrap();
    assert_eq!(chunks(&last), vec![(None, Some("<|end|"), None), (None, None, Some("length"))]);

    let mut state = StreamState::new(meta(), "<|end|>");
    let first = state.on_fragment(b"Hi<|end|").unwrap();
    assert_eq!(chunks(&first), vec![(Some("assistant"), Some("Hi"), None)]);
    assert!(state.on_fragment(b">\"").unwrap().len() == 1);
    assert!(state.is_done());
}

#[test]
fn an_empty_reply_is_one_chunk() {
    let mut state = StreamState::new(meta(), "<|eot_id|>");
    let last = state.on_end().unwrap();
    assert_eq!(chunks(&last), vec![(Some("assistant"), None, Some("length"))]);
    assert!(state.is_done());
}

#[test]
fn a_reply_that_arrives_at_the_end_names_the_assistant_once() {
    let mut state = StreamState::new(meta(), "<|eot_id|>");
    let last = state.step(&BackendEvent::End).unwrap();
    assert_eq!(last.len(), 1);
    let mut state = StreamState::new(meta(), "<|x|>");
    let first = state.on_fragment(b"{\"generated_text\": \"<|x").unwrap();
    assert_eq!(chunks(&first), vec![(Some("assistant"), None, None)]);
    let last = state.on_end().unwrap();
    assert_eq!(chunks(&last), vec![(None, Some("<|x"), None), (None, None, Some("length"))]);
}

#[test]
fn events_are_taken_one_by_one() {
    let mut state = StreamState::new(meta(), "<|eot_id|>");
    let first = state.step(&BackendEvent::Fragment(b"Ahoy".to_vec())).unwrap();
    assert_eq!(chunks(&first), vec![(Some("assistant"), Some("Ahoy"), None)]);
    let last = state.step(&BackendEvent::End).unwrap();
    assert_eq!(chunks(&last), vec![(None, None, Some("length"))]);
    assert!(state.step(&BackendEvent::Failure).unwrap().is_empty());
}

#[test]
fn a_failure_of_the_backend_ends_the_reply() {
    let mut state = StreamState::new(meta(), "<|eot_id|>");
    state.on_fragment(b"Ahoy").unwrap();
    assert!(matches!(state.step(&BackendEvent::Failure), Err(RelayError::BackendInvocationFailure)));
    assert!(state.is_done());
    assert!(state.on_fragment(b"more").unwrap().is_empty());
    assert!(state.on_end().unwrap().is_empty());
}

#[test]
fn a_malformed_frame_ends_the_reply() {
    let mut state = StreamState::new(meta(), "<|eot_id|>");
    assert!(matches!(state.on_fragment(b"\xFF\xFF\xFF\xFF\xFF"), Err(RelayError::MalformedBackendFrame)));
    assert!(state.is_done());
    assert!(state.on_end().unwrap().is_empty());

    let mut state = StreamState::new(meta(), "<|eot_id|>");
    state.on_fragment(b"caf\xC3").unwrap();
    assert!(matches!(state.on_end(), Err(RelayError::MalformedBackendFrame)));
    assert!(state.is_done());
}

#[test]
fn a_character_split_over_fragments_goes_out_whole() {
    let mut state = StreamState::new(meta(), "<|eot_id|>");
    let first = state.on_fragment(b"caf\xC3").unwrap();
    assert_eq!(chunks(&first), vec![(Some("assistant"), Some("caf"), None)]);
    let second = state.on_fragment(b"\xA9").unwrap();
    assert_eq!(chunks(&second), vec![(None, Some("é"), None)]);
}

#[test]
fn chunks_are_built_as_given() {
    let resp = stream_chunk(&meta(), true, "Hi".to_owned(), None);
    assert_eq!(chunk(&resp), (Some("assistant"), Some("Hi"), None));
    let resp = stream_chunk(&meta(), false, "".to_owned(), Some(FinishReason::Stop));
    assert_eq!(chunk(&resp), (None, None, Some("stop")));
    let resp = stream_chunk(&meta(), false, "x".to_owned(), Some(FinishReason::Length));
    assert_eq!(chunk(&resp), (None, Some("x"), Some("length")));
}

#[test]
fn plan_holds_the_route_the_prompt_and_the_marker() {
    let messages = [ChatCompletionsMessage::new("user", "Hi")];
    let plan = plan_request(&directory(), "Phi-3-mini-4k-instruct", &messages, None, None).unwrap();
    assert_eq!(plan.endpoint_name, "lmi-mme");
    assert_eq!(plan.target_model.as_deref(), Some("phi-3-mini-4k-instruct.tar.gz"));
    assert_eq!(plan.inference_component, None);
    assert_eq!(plan.backend, "LMI");
    assert_eq!(plan.prompt, "<|user|>\nHi<|end|>\n<|assistant|>\n");
    assert_eq!(plan.marker, "<|end|>");
    assert!(!plan.stream);

    let plan = plan_request(&directory(), "Llama-3-70B-Instruct", &messages, None, Some(true)).unwrap();
    assert_eq!(plan.inference_component.as_deref(), Some("ic-llama"));
    assert_eq!(plan.target_model, None);
    assert_eq!(
        plan.prompt,
        "<|begin_of_text|><|start_header_id|>user<|end_header_id|>\n\nHi<|eot_id|>\
         <|start_header_id|>assistant<|end_header_id|>\n\n"
    );
    assert!(plan.stream);
}

#[test]
fn plan_hands_the_context_to_the_template() {
    let messages = [ChatCompletionsMessage::new("system", "S")];
    let plan = plan_request(&directory(), "Llama3-ChatQA-1.5-8B", &messages, Some("C".to_owned()), None).unwrap();
    assert_eq!(plan.prompt, "System: S\n\nC\n\nAssistant: ");
    assert_eq!(plan.marker, "<|eot_id|>");
}

#[test]
fn plan_of_an_unlisted_model_is_an_error() {
    let messages = pirate();
    match plan_request(&directory(), "Llama-3-8B-Instruct", &messages, None, None) {
        Err(RelayError::UnsupportedModel(model)) => assert_eq!(model, "Llama-3-8B-Instruct"),
        other => panic!("unexpected: {:?}", other),
    }
}

#[test]
fn plan_of_a_model_without_marker_is_an_error() {
    let messages = pirate();
    match plan_request(&directory(), "Mistral-7B", &messages, None, None) {
        Err(RelayError::UnsupportedModel(model)) => assert_eq!(model, "Mistral-7B"),
        other => panic!("unexpected: {:?}", other),
    }
}

#[test]
fn plan_of_a_conversation_with_unknown_role_is_an_error() {
    let messages = [ChatCompletionsMessage::new("tool", "42")];
    match plan_request(&directory(), "Llama3-ChatQA-1.5-8B", &messages, None, None) {
        Err(RelayError::UnknownRole(role)) => assert_eq!(role, "tool"),
        other => panic!("unexpected: {:?}", other),
    }
}

#[test]
fn defaults_are_empty() {
    let usage = ChatCompletionsUsage::default();
    assert_eq!((usage.prompt_tokens, usage.completion_tokens, usage.total_tokens), (0, 0, 0));
    let delta = ChatCompletionsChoiceDelta::default();
    assert!(delta.role.is_none() && delta.content.is_none());
    let resp = ChatCompletionsResponse::default();
    assert_eq!(resp.id, "");
    assert_eq!(resp.object, "");
    assert_eq!(resp.created, 0);
    assert_eq!(resp.model, "");
    assert!(resp.system_fingerprint.is_none() && resp.usage.is_none() && resp.choices.is_empty());
    let bedrock = BedrockResponse::default();
    assert_eq!(bedrock.generation, "");
    assert_eq!(bedrock.stop_reason, "");
    let output = SMPredictionOutput { generated_text: "x".to_owned() };
    assert_eq!(output.generated_text, "x");
}

#[test]
fn a_message_holds_its_role_and_content() {
    let m = ChatCompletionsMessage::new("user", "Who are you?");
    assert_eq!(m.role, "user");
    assert_eq!(m.content, "Who are you?");
}
