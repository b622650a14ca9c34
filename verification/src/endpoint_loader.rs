use crate::text::str_eq;
use vstd::prelude::*;
use vstd::string::*;

verus! {

/// Where the requests for one model go.
#[derive(Debug)]
pub struct Endpoint {
    pub model: String,
    pub endpoint_name: String,
    pub target_model: Option<String>,
    pub inference_component: Option<String>,
    pub backend: String,
}

/// The routes as the configuration lists them.
#[derive(Debug)]
pub struct ModelEndpoints {
    pub models: Vec<Endpoint>,
}

/// The directory of routes. It is filled once and only read afterwards.
#[derive(Debug)]
pub struct EndpointLoader {
    endpoints: ModelEndpoints,
}

/// The place of the first route from `from` on whose model is exactly `model`.
pub open spec fn route_index_from(routes: Seq<Endpoint>, model: Seq<char>, from: int) -> Option<
    int,
>
    decreases routes.len() - from,
{
    if from < 0 || from >= routes.len() {
        None
    } else if routes[from].model@ == model {
        Some(from)
    } else {
        route_index_from(routes, model, from + 1)
    }
}

/// The place of the first route whose model is exactly `model`.
pub open spec fn route_index(routes: Seq<Endpoint>, model: Seq<char>) -> Option<int> {
    route_index_from(routes, model, 0)
}

/// `route_index_from` finds the first route of the model from `from` on, and finds
/// nothing only where there is none.
pub proof fn lemma_route_index_from(routes: Seq<Endpoint>, model: Seq<char>, from: int)
    requires
        0 <= from,
    ensures
        match route_index_from(routes, model, from) {
            Some(k) => {
                &&& from <= k < routes.len()
                &&& routes[k].model@ == model
                &&& forall|j: int| from <= j < k ==> routes[j].model@ != model
            },
            None => forall|j: int| from <= j < routes.len() ==> routes[j].model@ != model,
        },
    decreases routes.len() - from,
{
    if from < routes.len() && routes[from].model@ != model {
        lemma_route_index_from(routes, model, from + 1);
    }
}

/// A model that the directory lists is found, at its first route; a model that it does
/// not list is not found.
pub proof fn lemma_route_index(routes: Seq<Endpoint>, model: Seq<char>)
    ensures
        route_index(routes, model) is Some <==> exists|j: int|
            0 <= j < routes.len() && routes[j].model@ == model,
        route_index(routes, model) matches Some(k) ==> {
            &&& 0 <= k < routes.len()
            &&& routes[k].model@ == model
            &&& forall|j: int| 0 <= j < k ==> routes[j].model@ != model
        },
{
    lemma_route_index_from(routes, model, 0);
}

impl EndpointLoader {
    /// The routes of the directory, in the order of the configuration.
    pub closed spec fn routes(&self) -> Seq<Endpoint> {
        self.endpoints.models@
    }

    /// A directory of the given routes.
    pub fn new(endpoints: ModelEndpoints) -> (l: EndpointLoader)
        ensures
            l.routes() == endpoints.models@,
    {
        EndpointLoader { endpoints }
    }

    /// Looks a model up by its exact name. A model that is not listed has no route.
    pub fn get_endpoint(&self, model: &str) -> (r: Option<&Endpoint>)
        ensures
            match route_index(self.routes(), model@) {
                Some(k) => r == Some(&self.routes()[k]),
                None => r is None,
            },
    {
        let mut i: usize = 0;
        while i < self.endpoints.models.len()
            invariant
                i <= self.endpoints.models@.len(),
                route_index(self.routes(), model@) == route_index_from(
                    self.routes(),
                    model@,
                    i as int,
                ),
            decreases self.endpoints.models@.len() - i,
        {
            if str_eq(self.endpoints.models[i].model.as_str(), model) {
                return Some(&self.endpoints.models[i]);
            }
            i += 1;
        }
        None
    }
}

} // verus!
