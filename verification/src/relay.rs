//! Requests to the completion provider, and what of its answer stream is
//! relayed to the session that asked.

use crate::text::views;
use crate::message::{upstream_error_text, SENTINEL, SERVER_ID};
use vstd::prelude::*;
use vstd::string::*;

verus! {

/// Upper bound on the length of one answer, in tokens.
pub const MAX_TOKENS: u16 = 1024;

/// One call to the completion provider.
#[derive(Debug, PartialEq, Eq)]
pub struct CompletionRequest {
    pub model: String,
    pub prompt: String,
    pub max_tokens: u16,
}

/// Mathematical value of a [`CompletionRequest`].
pub struct CompletionRequestView {
    pub model: Seq<char>,
    pub prompt: Seq<char>,
    pub max_tokens: u16,
}

impl View for CompletionRequest {
    type V = CompletionRequestView;

    open spec fn view(&self) -> CompletionRequestView {
        CompletionRequestView {
            model: self.model@,
            prompt: self.prompt@,
            max_tokens: self.max_tokens,
        }
    }
}

impl CompletionRequestView {
    /// The request that submits `prompt` to `model`.
    pub open spec fn new(model: Seq<char>, prompt: Seq<char>) -> CompletionRequestView {
        CompletionRequestView { model, prompt, max_tokens: MAX_TOKENS }
    }
}

impl CompletionRequest {
    /// The request that submits `prompt`, as it stands, to `model`.
    pub fn new(model: String, prompt: String) -> (request: CompletionRequest)
        ensures
            request@ == CompletionRequestView::new(model@, prompt@),
    {
        CompletionRequest { model, prompt, max_tokens: MAX_TOKENS }
    }
}

/// One item of a provider's answer stream.
#[derive(Debug, PartialEq, Eq)]
pub enum StreamEvent {
    /// A chunk of the answer: per choice, the text it adds, if any.
    Chunk(Vec<Option<String>>),
    /// The provider reported an error, described by the text.
    Failed(String),
    /// The stream is over.
    Finished,
}

/// The texts present in `choices`, in order.
pub open spec fn chunk_texts(choices: Seq<Option<String>>) -> Seq<Seq<char>>
    decreases choices.len(),
{
    if choices.len() == 0 {
        Seq::empty()
    } else {
        let earlier = chunk_texts(choices.drop_last());
        match choices.last() {
            Some(text) => earlier.push(text@),
            None => earlier,
        }
    }
}

/// What the session is sent for one stream item: every text of a chunk, one
/// tagged line for an error, the sentinel at the end.
pub open spec fn relayed(event: StreamEvent) -> Seq<Seq<char>> {
    match event {
        StreamEvent::Chunk(choices) => chunk_texts(choices@),
        StreamEvent::Failed(reason) => seq![upstream_error_text(reason@)],
        StreamEvent::Finished => seq![SENTINEL@],
    }
}

/// Everything the session is sent for a whole stream, item by item.
pub open spec fn transcript(stream: Seq<StreamEvent>) -> Seq<Seq<char>>
    decreases stream.len(),
{
    if stream.len() == 0 {
        Seq::empty()
    } else {
        transcript(stream.drop_last()) + relayed(stream.last())
    }
}

/// Whatever a stream brought, its end is marked: what the session is sent
/// for a stream that has finished closes with the sentinel.
pub proof fn lemma_finished_stream_ends_with_sentinel(stream: Seq<StreamEvent>)
    ensures
        transcript(stream.push(StreamEvent::Finished)).len() == transcript(stream).len() + 1,
        transcript(stream.push(StreamEvent::Finished)).last() == SENTINEL@,
{
    let whole = stream.push(StreamEvent::Finished);
    assert(whole.drop_last() =~= stream);
    assert(whole.last() == StreamEvent::Finished);
}

/// The texts to forward to the session for one item of its answer stream.
pub fn relay(event: StreamEvent) -> (texts: Vec<String>)
    ensures
        views(texts@) == relayed(event),
{
    let mut texts: Vec<String> = Vec::new();
    assert(views(texts@) =~= Seq::<Seq<char>>::empty());
    match event {
        StreamEvent::Chunk(choices) => {
            let mut at: usize = 0;
            assert(choices@.take(0) =~= Seq::<Option<String>>::empty());
            while at < choices.len()
                invariant
                    at <= choices.len(),
                    views(texts@) == chunk_texts(choices@.take(at as int)),
                decreases choices.len() - at,
            {
                assert(choices@.take(at + 1).drop_last() =~= choices@.take(at as int));
                match &choices[at] {
                    Some(text) => {
                        let copy = text.clone();
                        assert(views(texts@.push(copy)) =~= views(texts@).push(copy@));
                        texts.push(copy);
                    },
                    None => {},
                }
                at = at + 1;
            }
            assert(choices@.take(at as int) =~= choices@);
        },
        StreamEvent::Failed(reason) => {
            let mut text = String::from_str(SERVER_ID);
            text.append(" OpenAI Error: ");
            text.append(reason.as_str());
            texts.push(text);
            assert(views(texts@) =~= seq![upstream_error_text(reason@)]);
        },
        StreamEvent::Finished => {
            texts.push(String::from_str(SENTINEL));
            assert(views(texts@) =~= seq![SENTINEL@]);
        },
    }
    texts
}

} // verus!
