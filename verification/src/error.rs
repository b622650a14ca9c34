use vstd::prelude::*;
use vstd::string::*;

verus! {

/// Why a request could not be served. Every error ends the one request it belongs to.
#[derive(Debug)]
pub enum RelayError {
    /// The model has no route, no chat template or no end-of-turn marker.
    UnsupportedModel(String),
    /// A message carries a role that the selected chat template does not accept.
    UnknownRole(String),
    /// The backend could not be invoked, or its stream broke off.
    BackendInvocationFailure,
    /// The backend sent bytes that no continuation can turn into text.
    MalformedBackendFrame,
}

/// An error with its texts as plain character sequences.
pub enum RelayFault {
    /// The named model has no route, no chat template or no end-of-turn marker.
    UnsupportedModel(Seq<char>),
    /// The named role is not accepted by the selected chat template.
    UnknownRole(Seq<char>),
    /// The backend could not be invoked, or its stream broke off.
    BackendInvocationFailure,
    /// The backend sent bytes that no continuation can turn into text.
    MalformedBackendFrame,
}

impl View for RelayError {
    type V = RelayFault;

    open spec fn view(&self) -> RelayFault {
        match self {
            RelayError::UnsupportedModel(model) => RelayFault::UnsupportedModel(model@),
            RelayError::UnknownRole(role) => RelayFault::UnknownRole(role@),
            RelayError::BackendInvocationFailure => RelayFault::BackendInvocationFailure,
            RelayError::MalformedBackendFrame => RelayFault::MalformedBackendFrame,
        }
    }
}

/// A text or an error, both as plain character sequences.
pub open spec fn text_outcome(r: Result<String, RelayError>) -> Result<Seq<char>, RelayFault> {
    match r {
        Ok(s) => Ok(s@),
        Err(e) => Err(e@),
    }
}

impl RelayError {
    /// The text shown to a client for this error.
    pub open spec fn message_text(&self) -> Seq<char> {
        match self {
            RelayError::UnsupportedModel(model) => "Unknown model "@ + model@,
            RelayError::UnknownRole(role) => "unknown role: "@ + role@,
            RelayError::BackendInvocationFailure => "backend invocation failed"@,
            RelayError::MalformedBackendFrame => "malformed backend frame"@,
        }
    }

    /// Renders the error for a client.
    pub fn message(&self) -> (s: String)
        ensures
            s@ == self.message_text(),
    {
        match self {
            RelayError::UnsupportedModel(model) => {
                let mut s = "Unknown model ".to_owned();
                s.append(model.as_str());
                s
            },
            RelayError::UnknownRole(role) => {
                let mut s = "unknown role: ".to_owned();
                s.append(role.as_str());
                s
            },
            RelayError::BackendInvocationFailure => "backend invocation failed".to_owned(),
            RelayError::MalformedBackendFrame => "malformed backend frame".to_owned(),
        }
    }
}

} // verus!
