use crate::error::RelayError;
use crate::finish_reason::{
    classify_end_model, classify_model, initial_classifier, ClassifierModel, FinishClassifier,
    FinishReason,
};
use crate::reassembly::{
    finish_model, initial_model, max_fragment_len, push_model, ReassemblyModel,
    StreamReassembler,
};
use crate::response::{content_of, is_stream_chunk, stream_chunk, ChunkSpec, ResponseMeta};
use crate::types::ChatCompletionsResponse;
use vstd::prelude::*;
use vstd::string::*;
use vstd::utf8::decode_utf8;

verus! {

/// What the backend does next during a streamed reply.
#[derive(Debug)]
pub enum BackendEvent {
    /// The next fragment of the reply has arrived.
    Fragment(Vec<u8>),
    /// The backend has signalled the end of the reply.
    End,
    /// The backend call has failed.
    Failure,
}

/// The state of one streamed reply: where the reassembly of the backend's bytes
/// stands, what the watch for the end-of-turn marker holds back, whether the
/// assistant's role has been sent, and whether the reply is over.
pub struct StreamModel {
    pub frames: ReassemblyModel,
    pub watch: ClassifierModel,
    pub role_sent: bool,
    pub done: bool,
}

/// One move of a streamed reply: the state it leads to, and either the chunks to send
/// or the error that ends the reply.
pub struct StreamStep {
    pub next: StreamModel,
    pub chunks: Seq<ChunkSpec>,
    pub failure: Option<StreamFault>,
}

/// Why a streamed reply broke off.
pub enum StreamFault {
    /// The backend sent bytes that no continuation can turn into text.
    MalformedBackendFrame,
    /// The backend call failed.
    BackendInvocationFailure,
}

/// The state of a reply of which nothing has arrived.
pub open spec fn initial_stream() -> StreamModel {
    StreamModel {
        frames: initial_model(),
        watch: initial_classifier(),
        role_sent: false,
        done: false,
    }
}

/// The chunk for text released in the middle of a reply. The first chunk of a reply
/// names the assistant, with the text where there is some; later, text that is empty
/// makes no chunk. With `announce` unset, empty text makes no chunk at all.
pub open spec fn text_chunks(role_sent: bool, text: Seq<char>, announce: bool) -> Seq<ChunkSpec> {
    if text.len() > 0 || (announce && !role_sent) {
        seq![ChunkSpec { role: !role_sent, content: content_of(text), finish: None }]
    } else {
        Seq::empty()
    }
}

/// The last chunk of a reply: it carries the reason and, where the reply ends at a
/// marker, the text before it; it names the assistant where no chunk did before.
pub open spec fn final_chunk(role_sent: bool, text: Seq<char>, reason: FinishReason) -> ChunkSpec {
    ChunkSpec { role: !role_sent, content: content_of(text), finish: Some(reason) }
}

/// The state after a failure.
pub open spec fn failed_stream(m: StreamModel, frames: ReassemblyModel) -> StreamModel {
    StreamModel { frames: frames, watch: m.watch, role_sent: m.role_sent, done: true }
}

/// The move made when a fragment arrives.
pub open spec fn fragment_model(m: StreamModel, marker: Seq<char>, fragment: Seq<u8>)
    -> StreamStep {
    let pushed = push_model(m.frames, fragment);
    if m.done {
        StreamStep { next: m, chunks: Seq::empty(), failure: None }
    } else {
        match pushed.delta {
            None => StreamStep {
                next: failed_stream(m, pushed.next),
                chunks: Seq::empty(),
                failure: Some(StreamFault::MalformedBackendFrame),
            },
            Some(bytes) => {
                let c = classify_model(m.watch, marker, decode_utf8(bytes));
                match c.reason {
                    Some(reason) => StreamStep {
                        next: StreamModel {
                            frames: pushed.next,
                            watch: c.next,
                            role_sent: true,
                            done: true,
                        },
                        chunks: seq![final_chunk(m.role_sent, c.text, reason)],
                        failure: None,
                    },
                    None => {
                        let chunks = text_chunks(m.role_sent, c.text, true);
                        StreamStep {
                            next: StreamModel {
                                frames: pushed.next,
                                watch: c.next,
                                role_sent: true,
                                done: false,
                            },
                            chunks: chunks,
                            failure: None,
                        }
                    },
                }
            },
        }
    }
}

/// The move made when the backend signals the end of the reply.
pub open spec fn end_model(m: StreamModel, marker: Seq<char>) -> StreamStep {
    let finished = finish_model(m.frames);
    if m.done {
        StreamStep { next: m, chunks: Seq::empty(), failure: None }
    } else {
        match finished.delta {
            None => StreamStep {
                next: failed_stream(m, finished.next),
                chunks: Seq::empty(),
                failure: Some(StreamFault::MalformedBackendFrame),
            },
            Some(bytes) => {
                let c = classify_model(m.watch, marker, decode_utf8(bytes));
                let e = classify_end_model(c.next);
                let next = StreamModel {
                    frames: finished.next,
                    watch: e.next,
                    role_sent: true,
                    done: true,
                };
                match c.reason {
                    Some(reason) => StreamStep {
                        next: next,
                        chunks: seq![final_chunk(m.role_sent, c.text, reason)],
                        failure: None,
                    },
                    None => {
                        let text = text_chunks(m.role_sent, c.text + e.text, false);
                        StreamStep {
                            next: next,
                            chunks: text.push(
                                final_chunk(
                                    m.role_sent || text.len() > 0,
                                    Seq::empty(),
                                    FinishReason::Length,
                                ),
                            ),
                            failure: None,
                        }
                    },
                }
            },
        }
    }
}

/// The move made when the backend call fails.
pub open spec fn failure_model(m: StreamModel) -> StreamStep {
    if m.done {
        StreamStep { next: m, chunks: Seq::empty(), failure: None }
    } else {
        StreamStep {
            next: failed_stream(m, m.frames),
            chunks: Seq::empty(),
            failure: Some(StreamFault::BackendInvocationFailure),
        }
    }
}

/// The move made on an event of the backend.
pub open spec fn event_model(m: StreamModel, marker: Seq<char>, event: BackendEvent) -> StreamStep {
    match event {
        BackendEvent::Fragment(bytes) => fragment_model(m, marker, bytes@),
        BackendEvent::End => end_model(m, marker),
        BackendEvent::Failure => failure_model(m),
    }
}

/// `sent` are the chunks that say `chunks`, in order, for the request of `meta`.
pub open spec fn chunks_say(sent: Seq<ChatCompletionsResponse>, meta: ResponseMeta, chunks: Seq<ChunkSpec>)
    -> bool {
    &&& sent.len() == chunks.len()
    &&& forall|i: int| 0 <= i < sent.len() ==> is_stream_chunk(#[trigger] sent[i], meta, chunks[i])
}

/// `r` is what the move `step` asks for: its chunks, or its error.
pub open spec fn outcome_says(
    r: Result<Vec<ChatCompletionsResponse>, RelayError>,
    meta: ResponseMeta,
    step: StreamStep,
) -> bool {
    match step.failure {
        None => r matches Ok(sent) && chunks_say(sent@, meta, step.chunks),
        Some(StreamFault::MalformedBackendFrame) => r matches Err(
            RelayError::MalformedBackendFrame,
        ),
        Some(StreamFault::BackendInvocationFailure) => r matches Err(
            RelayError::BackendInvocationFailure,
        ),
    }
}

/// One streamed reply in the making. It takes the events of the backend in, one by
/// one, and hands out the chunks to send to the client.
pub struct StreamState {
    frames: StreamReassembler,
    watch: FinishClassifier,
    role_sent: bool,
    done: bool,
    meta: ResponseMeta,
}

impl View for StreamState {
    type V = StreamModel;

    closed spec fn view(&self) -> StreamModel {
        StreamModel {
            frames: self.frames@,
            watch: self.watch@,
            role_sent: self.role_sent,
            done: self.done,
        }
    }
}

impl StreamState {
    /// The state is one that a reply can reach.
    pub closed spec fn wf(&self) -> bool {
        self.frames.wf()
    }

    /// The end-of-turn marker watched for.
    pub closed spec fn marker(&self) -> Seq<char> {
        self.watch.marker()
    }

    /// What every chunk of the reply carries.
    pub closed spec fn meta(&self) -> ResponseMeta {
        self.meta
    }

    /// The state of a reply of which nothing has arrived.
    pub fn new(meta: ResponseMeta, marker: &str) -> (s: StreamState)
        ensures
            s.wf(),
            s@ == initial_stream(),
            s.marker() == marker@,
            s.meta() == meta,
    {
        StreamState {
            frames: StreamReassembler::new(),
            watch: FinishClassifier::new(marker),
            role_sent: false,
            done: false,
            meta,
        }
    }

    /// Whether the reply is over: nothing more will be sent.
    pub fn is_done(&self) -> (d: bool)
        ensures
            d == self@.done,
    {
        self.done
    }

    /// Takes the next fragment of the backend's reply in, and returns the chunk that
    /// it gives rise to, if any.
    pub fn on_fragment(&mut self, fragment: &[u8]) -> (r: Result<
        Vec<ChatCompletionsResponse>,
        RelayError,
    >)
        requires
            old(self).wf(),
            fragment@.len() <= max_fragment_len(),
        ensures
            final(self).wf(),
            final(self).marker() == old(self).marker(),
            final(self).meta() == old(self).meta(),
            final(self)@ == fragment_model(old(self)@, old(self).marker(), fragment@).next,
            outcome_says(
                r,
                old(self).meta(),
                fragment_model(old(self)@, old(self).marker(), fragment@),
            ),
    {
        let mut sent: Vec<ChatCompletionsResponse> = Vec::new();
        if self.done {
            return Ok(sent);
        }
        let text = match self.frames.push(fragment) {
            Ok(text) => text,
            Err(_) => {
                self.done = true;
                return Err(RelayError::MalformedBackendFrame);
            },
        };
        let (released, reason) = self.watch.accept(text.as_str());
        match reason {
            Some(reason) => {
                sent.push(stream_chunk(&self.meta, !self.role_sent, released, Some(reason)));
                self.done = true;
            },
            None => {
                if !self.role_sent || !released.as_str().is_empty() {
                    sent.push(stream_chunk(&self.meta, !self.role_sent, released, None));
                }
            },
        }
        self.role_sent = true;
        Ok(sent)
    }

    /// Takes the end of the backend's reply in, and returns the last chunks: the text
    /// that was still held back, if any, and the chunk that carries the reason.
    pub fn on_end(&mut self) -> (r: Result<Vec<ChatCompletionsResponse>, RelayError>)
        requires
            old(self).wf(),
        ensures
            final(self).wf(),
            final(self).marker() == old(self).marker(),
            final(self).meta() == old(self).meta(),
            final(self)@ == end_model(old(self)@, old(self).marker()).next,
            outcome_says(r, old(self).meta(), end_model(old(self)@, old(self).marker())),
    {
        let mut sent: Vec<ChatCompletionsResponse> = Vec::new();
        if self.done {
            return Ok(sent);
        }
        self.done = true;
        let text = match self.frames.finish() {
            Ok(text) => text,
            Err(_) => {
                return Err(RelayError::MalformedBackendFrame);
            },
        };
        let (mut released, reason) = self.watch.accept(text.as_str());
        let (held, _) = self.watch.end();
        match reason {
            Some(reason) => {
                sent.push(stream_chunk(&self.meta, !self.role_sent, released, Some(reason)));
            },
            None => {
                released.append(held.as_str());
                let mut named = self.role_sent;
                if !released.as_str().is_empty() {
                    sent.push(stream_chunk(&self.meta, !self.role_sent, released, None));
                    named = true;
                }
                sent.push(
                    stream_chunk(&self.meta, !named, String::new(), Some(FinishReason::Length)),
                );
            },
        }
        self.role_sent = true;
        Ok(sent)
    }

    /// Takes a failure of the backend call in: the reply is over, and the error is the
    /// answer.
    pub fn on_failure(&mut self) -> (r: Result<Vec<ChatCompletionsResponse>, RelayError>)
        requires
            old(self).wf(),
        ensures
            final(self).wf(),
            final(self).marker() == old(self).marker(),
            final(self).meta() == old(self).meta(),
            final(self)@ == failure_model(old(self)@).next,
            outcome_says(r, old(self).meta(), failure_model(old(self)@)),
    {
        if self.done {
            return Ok(Vec::new());
        }
        self.done = true;
        Err(RelayError::BackendInvocationFailure)
    }

    /// Takes the next event of the backend in, and returns the chunks to send, or the
    /// error that ends the reply. Once the reply is over, events change nothing and
    /// nothing is sent.
    pub fn step(&mut self, event: &BackendEvent) -> (r: Result<
        Vec<ChatCompletionsResponse>,
        RelayError,
    >)
        requires
            old(self).wf(),
            event matches BackendEvent::Fragment(bytes) ==> bytes@.len() <= max_fragment_len(),
        ensures
            final(self).wf(),
            final(self).marker() == old(self).marker(),
            final(self).meta() == old(self).meta(),
            final(self)@ == event_model(old(self)@, old(self).marker(), *event).next,
            outcome_says(r, old(self).meta(), event_model(old(self)@, old(self).marker(), *event)),
    {
        match event {
            BackendEvent::Fragment(bytes) => self.on_fragment(bytes.as_slice()),
            BackendEvent::End => self.on_end(),
            BackendEvent::Failure => self.on_failure(),
        }
    }
}

} // verus!
