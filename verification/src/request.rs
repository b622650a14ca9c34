use crate::chat_template::{
    end_of_turn_marker, marker_of, optional_text, prompt_rendered, render_prompt,
};
use crate::endpoint_loader::{route_index, Endpoint, EndpointLoader};
use crate::error::{RelayError, RelayFault};
use crate::types::ChatCompletionsMessage;
use vstd::prelude::*;
use vstd::string::*;

verus! {

/// What to ask of the backend for one chat request: where to send it, the prompt, the
/// end-of-turn marker to watch the reply for, and whether the reply is streamed.
#[derive(Debug)]
pub struct RequestPlan {
    pub endpoint_name: String,
    pub target_model: Option<String>,
    pub inference_component: Option<String>,
    pub backend: String,
    pub prompt: String,
    pub marker: String,
    pub stream: bool,
}

/// A plan with its texts as plain character sequences.
pub struct PlanModel {
    pub endpoint_name: Seq<char>,
    pub target_model: Option<Seq<char>>,
    pub inference_component: Option<Seq<char>>,
    pub backend: Seq<char>,
    pub prompt: Seq<char>,
    pub marker: Seq<char>,
    pub stream: bool,
}

impl View for RequestPlan {
    type V = PlanModel;

    open spec fn view(&self) -> PlanModel {
        PlanModel {
            endpoint_name: self.endpoint_name@,
            target_model: optional_text(self.target_model),
            inference_component: optional_text(self.inference_component),
            backend: self.backend@,
            prompt: self.prompt@,
            marker: self.marker@,
            stream: self.stream,
        }
    }
}

/// A plan or an error, both with their texts as plain character sequences.
pub open spec fn plan_outcome(r: Result<RequestPlan, RelayError>) -> Result<PlanModel, RelayFault> {
    match r {
        Ok(p) => Ok(p@),
        Err(e) => Err(e@),
    }
}

/// What planning makes of a request: the route of the model, the rendered prompt and
/// the model's marker; or the error of a model that the directory does not list, of a
/// conversation that cannot be rendered, or of a model without a marker, whichever
/// comes first in this order. A request that does not say whether to stream is not
/// streamed.
pub open spec fn planned(
    routes: Seq<Endpoint>,
    model: Seq<char>,
    messages: Seq<ChatCompletionsMessage>,
    context: Option<Seq<char>>,
    stream: Option<bool>,
) -> Result<PlanModel, RelayFault> {
    match route_index(routes, model) {
        None => Err(RelayFault::UnsupportedModel(model)),
        Some(k) => match prompt_rendered(model, messages, context) {
            Err(fault) => Err(fault),
            Ok(prompt) => match marker_of(model) {
                None => Err(RelayFault::UnsupportedModel(model)),
                Some(marker) => Ok(
                    PlanModel {
                        endpoint_name: routes[k].endpoint_name@,
                        target_model: optional_text(routes[k].target_model),
                        inference_component: optional_text(routes[k].inference_component),
                        backend: routes[k].backend@,
                        prompt: prompt,
                        marker: marker,
                        stream: match stream {
                            Some(s) => s,
                            None => false,
                        },
                    },
                ),
            },
        },
    }
}

fn clone_optional(s: &Option<String>) -> (c: Option<String>)
    ensures
        optional_text(c) == optional_text(*s),
{
    match s {
        Some(text) => Some(text.clone()),
        None => None,
    }
}

/// Plans the backend call for one chat request.
pub fn plan_request(
    directory: &EndpointLoader,
    model: &str,
    messages: &[ChatCompletionsMessage],
    context: Option<String>,
    stream: Option<bool>,
) -> (r: Result<RequestPlan, RelayError>)
    ensures
        plan_outcome(r) == planned(
            directory.routes(),
            model@,
            messages@,
            optional_text(context),
            stream,
        ),
{
    let route = match directory.get_endpoint(model) {
        Some(route) => route,
        None => {
            return Err(RelayError::UnsupportedModel(model.to_owned()));
        },
    };
    let prompt = match render_prompt(model, messages, context) {
        Ok(prompt) => prompt,
        Err(e) => {
            return Err(e);
        },
    };
    let marker = match end_of_turn_marker(model) {
        Some(marker) => marker,
        None => {
            return Err(RelayError::UnsupportedModel(model.to_owned()));
        },
    };
    Ok(
        RequestPlan {
            endpoint_name: route.endpoint_name.clone(),
            target_model: clone_optional(&route.target_model),
            inference_component: clone_optional(&route.inference_component),
            backend: route.backend.clone(),
            prompt,
            marker: marker.to_owned(),
            stream: match stream {
                Some(s) => s,
                None => false,
            },
        },
    )
}

} // verus!
