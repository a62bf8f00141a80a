//! The per-connection session: its state, and what it does for each event.
//!
//! A session reacts to three sources: frames from its own client, texts of
//! its own upstream answer, and messages that other sessions pushed to it.
//! [`Session::handle`] takes one event and returns, in order, the actions
//! that the caller has to carry out.

use crate::commands::{directives, extract_commands};
use crate::text::views;
use crate::message::{
    alert_text, decode_text, info_text, is_sentinel, Frame, Message, MessageView, OpCode,
    SENTINEL,
};
use crate::registry::{
    after_register, ConnectionId, Outbox, OutboxView, RegistryError, State, OUTBOX_CAPACITY,
};
use crate::relay::{CompletionRequest, CompletionRequestView};
use vstd::prelude::*;
use vstd::string::*;
use vstd::utf8::*;

verus! {

/// Model of a session that has not chosen one.
pub const DEFAULT_MODEL: &'static str = "gpt-3.5-turbo-1106";

/// What a session does with the frames of its client.
#[derive(Clone, Copy, Debug, PartialEq, Eq, Structural)]
pub enum Policy {
    /// Prompts go to the completion provider.
    Completion,
    /// Frames go to every other session.
    Broadcast,
}

/// Where a session stands in its life.
#[derive(Clone, Copy, Debug, PartialEq, Eq, Structural)]
pub enum Phase {
    /// Serving its client.
    Active,
    /// Done serving, not yet removed from the registry.
    Closing,
    /// Removed from the registry.
    Terminated,
}

/// Why a session stopped serving.
#[derive(Clone, Copy, Debug, PartialEq, Eq, Structural)]
pub enum Ending {
    /// The client sent a close frame.
    Closed,
    /// Nobody can push to this session any more.
    HandleClosed,
    /// A text frame did not hold UTF-8.
    ProtocolError,
    /// Reading from or writing to the client failed.
    IoError,
}

/// Something that happened to a session.
#[derive(Debug, PartialEq, Eq)]
pub enum Event {
    /// The client sent a frame.
    Inbound(Frame),
    /// The session's own upstream answer produced a text.
    Delta(String),
    /// Another session pushed a message.
    Pushed(Message),
    /// The handle that others push to was closed.
    HandleClosed,
    /// Reading from or writing to the client failed.
    Fault,
}

/// Mathematical value of an [`Event`].
pub enum EventView {
    Inbound(OpCode, Seq<u8>),
    Delta(Seq<char>),
    Pushed(MessageView),
    HandleClosed,
    Fault,
}

impl View for Event {
    type V = EventView;

    open spec fn view(&self) -> EventView {
        match self {
            Event::Inbound(frame) => EventView::Inbound(frame.opcode, frame.payload@),
            Event::Delta(text) => EventView::Delta(text@),
            Event::Pushed(message) => EventView::Pushed(message@),
            Event::HandleClosed => EventView::HandleClosed,
            Event::Fault => EventView::Fault,
        }
    }
}

/// Something the caller has to do for a session.
#[derive(Debug, PartialEq, Eq)]
pub enum Action {
    /// Write this message to the session's client.
    Send(Message),
    /// Hand this request to the dispatcher.
    Submit(CompletionRequest),
    /// Push this message to every other session.
    Broadcast(Message),
}

/// Mathematical value of an [`Action`].
pub enum ActionView {
    Send(MessageView),
    Submit(CompletionRequestView),
    Broadcast(MessageView),
}

impl View for Action {
    type V = ActionView;

    open spec fn view(&self) -> ActionView {
        match self {
            Action::Send(message) => ActionView::Send(message@),
            Action::Submit(request) => ActionView::Submit(request@),
            Action::Broadcast(message) => ActionView::Broadcast(message@),
        }
    }
}

/// Views of a sequence of actions.
pub open spec fn action_views(actions: Seq<Action>) -> Seq<ActionView> {
    actions.map_values(|action: Action| action@)
}

/// State of one session.
#[derive(Debug)]
pub struct Session {
    id: ConnectionId,
    policy: Policy,
    phase: Phase,
    ending: Option<Ending>,
    model: String,
    prompts: Vec<String>,
    outstanding: bool,
}

/// Mathematical value of a [`Session`].
pub struct SessionView {
    pub id: ConnectionId,
    pub policy: Policy,
    pub phase: Phase,
    /// Why the session left `Active`, once it has.
    pub ending: Option<Ending>,
    /// Model that the next prompt goes to.
    pub model: Seq<char>,
    /// Every prompt submitted so far, oldest first.
    pub prompts: Seq<Seq<char>>,
    /// Whether an upstream answer is still coming.
    pub outstanding: bool,
}

impl SessionView {
    /// A session at its start.
    pub open spec fn new(id: ConnectionId, policy: Policy) -> SessionView {
        SessionView {
            id,
            policy,
            phase: Phase::Active,
            ending: None,
            model: DEFAULT_MODEL@,
            prompts: Seq::empty(),
            outstanding: false,
        }
    }

    /// This session after it stopped serving for `reason`.
    pub open spec fn end(self, reason: Ending) -> SessionView {
        SessionView { phase: Phase::Closing, ending: Some(reason), ..self }
    }

    /// The echo of a prompt: the prompt, then the sentinel.
    pub open spec fn echo(prompt: Seq<char>) -> Seq<ActionView> {
        seq![
            ActionView::Send(MessageView::Text(prompt)),
            ActionView::Send(MessageView::Text(SENTINEL@)),
        ]
    }

    /// Model in force for a prompt with the directives `found`.
    pub open spec fn model_after(self, found: Map<Seq<char>, Seq<char>>) -> Seq<char> {
        if found.contains_key("model"@) {
            found["model"@]
        } else {
            self.model
        }
    }

    /// Acknowledgment of a `model` directive, if `found` has one.
    pub open spec fn model_notice(found: Map<Seq<char>, Seq<char>>) -> Seq<ActionView> {
        if found.contains_key("model"@) {
            seq![
                ActionView::Send(MessageView::Text(alert_text(found["model"@]))),
                ActionView::Send(MessageView::Text(SENTINEL@)),
            ]
        } else {
            Seq::empty()
        }
    }

    /// A prompt under the completion policy: it is recorded and echoed, a
    /// `model` directive is applied and acknowledged, and then either an
    /// `info` directive is answered or the whole prompt is submitted.
    pub open spec fn on_prompt(self, prompt: Seq<char>) -> (SessionView, Seq<ActionView>) {
        let found = directives(prompt);
        let model = self.model_after(found);
        let recorded = SessionView { model, prompts: self.prompts.push(prompt), ..self };
        let opening = Self::echo(prompt) + Self::model_notice(found);
        if found.contains_key("info"@) {
            (
                recorded,
                opening + seq![
                    ActionView::Send(MessageView::Text(info_text(model))),
                    ActionView::Send(MessageView::Text(SENTINEL@)),
                ],
            )
        } else {
            (
                SessionView { outstanding: true, ..recorded },
                opening + seq![ActionView::Submit(CompletionRequestView::new(model, prompt))],
            )
        }
    }

    /// A message of the client under the broadcast policy: back to the
    /// client, and on to everyone else.
    pub open spec fn on_shared(self, message: MessageView) -> (SessionView, Seq<ActionView>) {
        (self, seq![ActionView::Send(message), ActionView::Broadcast(message)])
    }

    /// A frame of the client.
    pub open spec fn on_frame(self, opcode: OpCode, payload: Seq<u8>) -> (
        SessionView,
        Seq<ActionView>,
    ) {
        match opcode {
            OpCode::Close => (self.end(Ending::Closed), Seq::empty()),
            OpCode::Text => if !valid_utf8(payload) {
                (self.end(Ending::ProtocolError), Seq::empty())
            } else {
                match self.policy {
                    Policy::Completion => self.on_prompt(decode_utf8(payload)),
                    Policy::Broadcast => self.on_shared(MessageView::Text(decode_utf8(payload))),
                }
            },
            OpCode::Binary => match self.policy {
                Policy::Completion => (self, Seq::empty()),
                Policy::Broadcast => self.on_shared(MessageView::Binary(payload)),
            },
            _ => (self, Seq::empty()),
        }
    }

    /// This session after its teardown: one that had stopped serving is
    /// terminated. A teardown at any other time changes nothing.
    pub open spec fn teardown(self) -> SessionView {
        if self.phase == Phase::Closing {
            SessionView { phase: Phase::Terminated, ..self }
        } else {
            self
        }
    }

    /// The session after `event`, and what has to be done for it, in order.
    /// Only an active session reacts.
    pub open spec fn step(self, event: EventView) -> (SessionView, Seq<ActionView>) {
        if self.phase != Phase::Active {
            (self, Seq::empty())
        } else {
            match event {
                EventView::Inbound(opcode, payload) => self.on_frame(opcode, payload),
                EventView::Delta(text) => (
                    SessionView { outstanding: self.outstanding && text != SENTINEL@, ..self },
                    seq![ActionView::Send(MessageView::Text(text))],
                ),
                EventView::Pushed(message) => (self, seq![ActionView::Send(message)]),
                EventView::HandleClosed => (self.end(Ending::HandleClosed), Seq::empty()),
                EventView::Fault => (self.end(Ending::IoError), Seq::empty()),
            }
        }
    }
}

/// The last `count` of `prompts`, or all of them where there are fewer.
pub open spec fn latest(prompts: Seq<Seq<char>>, count: nat) -> Seq<Seq<char>> {
    if prompts.len() <= count {
        prompts
    } else {
        prompts.subrange(prompts.len() - count, prompts.len() as int)
    }
}

/// How far a phase is along the life of a session.
pub open spec fn phase_rank(phase: Phase) -> nat {
    match phase {
        Phase::Active => 0,
        Phase::Closing => 1,
        Phase::Terminated => 2,
    }
}

/// A session only moves forward: an event leaves it where it is or takes an
/// active session to `Closing`, and only a teardown terminates it. Once it
/// has left `Active` it asks for nothing more.
pub proof fn lemma_phase_only_advances(session: SessionView, event: EventView)
    ensures
        phase_rank(session.phase) <= phase_rank(session.step(event).0.phase),
        session.step(event).0.phase == Phase::Terminated ==> session.phase == Phase::Terminated,
        session.phase != Phase::Active ==> session.step(event) == (
            session,
            Seq::<ActionView>::empty(),
        ),
        phase_rank(session.phase) <= phase_rank(session.teardown().phase),
        session.step(event).0.id == session.id,
        session.step(event).0.policy == session.policy,
{
}

/// The registry after the teardown of `session`: the entry of a session
/// that had stopped serving is gone, and nothing else has changed.
pub open spec fn after_teardown(
    clients: Map<ConnectionId, OutboxView>,
    session: SessionView,
) -> Map<ConnectionId, OutboxView> {
    if session.phase == Phase::Closing {
        clients.remove(session.id)
    } else {
        clients
    }
}

/// Whether the registry holds an entry for `session` exactly as long as the
/// session is not terminated.
pub open spec fn attached(session: SessionView, clients: Map<ConnectionId, OutboxView>) -> bool {
    clients.contains_key(session.id) <==> session.phase != Phase::Terminated
}

/// A session is in the registry from its start to its teardown, and not
/// after: the entry made when the session opens is there through every
/// event, and the teardown that terminates the session removes it.
pub proof fn lemma_entry_lives_as_long_as_session(
    session: SessionView,
    clients: Map<ConnectionId, OutboxView>,
    event: EventView,
)
    requires
        attached(session, clients),
    ensures
        attached(session.step(event).0, clients),
        attached(session.teardown(), after_teardown(clients, session)),
        !clients.contains_key(session.id) ==> attached(
            SessionView::new(session.id, session.policy),
            after_register(clients, session.id, OutboxView::new(OUTBOX_CAPACITY as nat)),
        ),
{
}

/// Teardown happens once: a second teardown changes nothing.
pub proof fn lemma_teardown_is_idempotent(session: SessionView)
    ensures
        session.teardown().teardown() == session.teardown(),
        session.teardown().phase != Phase::Closing,
        forall|clients: Map<ConnectionId, OutboxView>|
            after_teardown(#[trigger] after_teardown(clients, session), session.teardown())
                == after_teardown(clients, session),
{
}

/// The answer to a prompt opens with its echo: the prompt itself, then the
/// sentinel, before anything else.
pub proof fn lemma_prompt_is_echoed_first(session: SessionView, prompt: Seq<char>)
    ensures
        session.on_prompt(prompt).1.len() >= 3,
        session.on_prompt(prompt).1[0] == ActionView::Send(MessageView::Text(prompt)),
        session.on_prompt(prompt).1[1] == ActionView::Send(MessageView::Text(SENTINEL@)),
        session.on_prompt(prompt).0.prompts == session.prompts.push(prompt),
{
}

/// A prompt without directives is echoed and then submitted as it is, to
/// the model in force, which stays.
pub proof fn lemma_plain_prompt_is_submitted(session: SessionView, prompt: Seq<char>)
    requires
        !directives(prompt).contains_key("model"@),
        !directives(prompt).contains_key("info"@),
    ensures
        session.on_prompt(prompt).1 == seq![
            ActionView::Send(MessageView::Text(prompt)),
            ActionView::Send(MessageView::Text(SENTINEL@)),
            ActionView::Submit(CompletionRequestView::new(session.model, prompt)),
        ],
        session.on_prompt(prompt).0.model == session.model,
        session.on_prompt(prompt).0.outstanding,
{
    assert(session.on_prompt(prompt).1 =~= seq![
        ActionView::Send(MessageView::Text(prompt)),
        ActionView::Send(MessageView::Text(SENTINEL@)),
        ActionView::Submit(CompletionRequestView::new(session.model, prompt)),
    ]);
}

/// A `model` directive takes effect at once and lasts: the prompt that
/// carries it is submitted, whole, to the new model, after the echo and the
/// acknowledgment, and the session keeps the new model for later prompts.
pub proof fn lemma_model_directive_switches_model(session: SessionView, prompt: Seq<char>)
    requires
        directives(prompt).contains_key("model"@),
        !directives(prompt).contains_key("info"@),
    ensures
        session.on_prompt(prompt).1 == seq![
            ActionView::Send(MessageView::Text(prompt)),
            ActionView::Send(MessageView::Text(SENTINEL@)),
            ActionView::Send(MessageView::Text(alert_text(directives(prompt)["model"@]))),
            ActionView::Send(MessageView::Text(SENTINEL@)),
            ActionView::Submit(
                CompletionRequestView::new(directives(prompt)["model"@], prompt),
            ),
        ],
        session.on_prompt(prompt).0.model == directives(prompt)["model"@],
{
    assert(session.on_prompt(prompt).1 =~= seq![
        ActionView::Send(MessageView::Text(prompt)),
        ActionView::Send(MessageView::Text(SENTINEL@)),
        ActionView::Send(MessageView::Text(alert_text(directives(prompt)["model"@]))),
        ActionView::Send(MessageView::Text(SENTINEL@)),
        ActionView::Submit(CompletionRequestView::new(directives(prompt)["model"@], prompt)),
    ]);
}

/// An `info` directive is answered and nothing is submitted for that turn.
pub proof fn lemma_info_directive_submits_nothing(session: SessionView, prompt: Seq<char>)
    requires
        directives(prompt).contains_key("info"@),
    ensures
        forall|i: int|
            0 <= i < session.on_prompt(prompt).1.len() ==> #[trigger] session.on_prompt(
                prompt,
            ).1[i] is Send,
        session.on_prompt(prompt).1.last() == ActionView::Send(MessageView::Text(SENTINEL@)),
        session.on_prompt(prompt).0.outstanding == session.outstanding,
{
}

impl View for Session {
    type V = SessionView;

    closed spec fn view(&self) -> SessionView {
        SessionView {
            id: self.id,
            policy: self.policy,
            phase: self.phase,
            ending: self.ending,
            model: self.model@,
            prompts: views(self.prompts@),
            outstanding: self.outstanding,
        }
    }
}

impl Session {
    /// A fresh session for connection `id`: active, on the default model,
    /// with no prompt behind it.
    pub fn new(id: ConnectionId, policy: Policy) -> (session: Session)
        ensures
            session@ == SessionView::new(id, policy),
    {
        let session = Session {
            id,
            policy,
            phase: Phase::Active,
            ending: None,
            model: String::from_str(DEFAULT_MODEL),
            prompts: Vec::new(),
            outstanding: false,
        };
        assert(views(session.prompts@) =~= Seq::<Seq<char>>::empty());
        session
    }

    /// Starts the session of connection `id`: a fresh handle is registered
    /// under `id`. Where `id` is registered already nothing is changed and no
    /// session comes to be.
    pub fn open(id: ConnectionId, policy: Policy, registry: &mut State) -> (opened: Result<
        Session,
        RegistryError,
    >)
        ensures
            final(registry)@ == after_register(
                old(registry)@,
                id,
                OutboxView::new(OUTBOX_CAPACITY as nat),
            ),
            match opened {
                Ok(session) => !old(registry)@.contains_key(id) && session@ == SessionView::new(
                    id,
                    policy,
                ),
                Err(error) => old(registry)@.contains_key(id) && error
                    == RegistryError::DuplicateConnection,
            },
    {
        match registry.register(id, Outbox::new(OUTBOX_CAPACITY)) {
            Ok(()) => Ok(Session::new(id, policy)),
            Err(error) => Err(error),
        }
    }

    /// Ends a session that has stopped serving: its entry leaves the
    /// registry and the session is terminated. On a session in any other
    /// phase this does nothing, so the entry is removed exactly once.
    pub fn teardown(&mut self, registry: &mut State)
        ensures
            final(self)@ == old(self)@.teardown(),
            final(registry)@ == after_teardown(old(registry)@, old(self)@),
    {
        if self.phase == Phase::Closing {
            registry.unregister(self.id);
            self.phase = Phase::Terminated;
        }
    }

    pub fn id(&self) -> (id: ConnectionId)
        ensures
            id == self@.id,
    {
        self.id
    }

    pub fn policy(&self) -> (policy: Policy)
        ensures
            policy == self@.policy,
    {
        self.policy
    }

    pub fn phase(&self) -> (phase: Phase)
        ensures
            phase == self@.phase,
    {
        self.phase
    }

    pub fn ending(&self) -> (ending: Option<Ending>)
        ensures
            ending == self@.ending,
    {
        self.ending
    }

    pub fn model(&self) -> (model: &str)
        ensures
            model@ == self@.model,
    {
        self.model.as_str()
    }

    pub fn is_outstanding(&self) -> (outstanding: bool)
        ensures
            outstanding == self@.outstanding,
    {
        self.outstanding
    }

    /// Appends `prompt` to the history.
    pub fn store_prompt(&mut self, prompt: String)
        ensures
            final(self)@ == (SessionView {
                prompts: old(self)@.prompts.push(prompt@),
                ..old(self)@
            }),
    {
        assert(views(self.prompts@.push(prompt)) =~= views(self.prompts@).push(prompt@));
        self.prompts.push(prompt);
    }

    /// The latest `num_prompts` prompts of the history, oldest first; all of
    /// them where there are no more than that.
    pub fn get_prompts(&self, num_prompts: usize) -> (recent: Vec<String>)
        ensures
            views(recent@) == latest(self@.prompts, num_prompts as nat),
    {
        let len: usize = self.prompts.len();
        let mut at: usize = if len <= num_prompts {
            0
        } else {
            len - num_prompts
        };
        let ghost first = at;
        let mut recent: Vec<String> = Vec::new();
        assert(views(recent@) =~= views(self.prompts@).subrange(first as int, at as int));
        while at < len
            invariant
                len == self.prompts.len(),
                first <= at <= len,
                views(recent@) == views(self.prompts@).subrange(first as int, at as int),
            decreases len - at,
        {
            let prompt = self.prompts[at].clone();
            assert(prompt@ == views(self.prompts@)[at as int]);
            assert(views(recent@.push(prompt)) =~= views(recent@).push(prompt@));
            assert(views(recent@).push(prompt@) =~= views(self.prompts@).subrange(
                first as int,
                at + 1,
            ));
            recent.push(prompt);
            at = at + 1;
        }
        recent
    }

    fn end(&mut self, reason: Ending)
        ensures
            final(self)@ == old(self)@.end(reason),
    {
        self.phase = Phase::Closing;
        self.ending = Some(reason);
    }

    fn on_prompt(&mut self, prompt: String) -> (actions: Vec<Action>)
        ensures
            (final(self)@, action_views(actions@)) == old(self)@.on_prompt(prompt@),
    {
        let ghost before = self@;
        let ghost found = directives(prompt@);
        let commands = extract_commands(prompt.as_str());
        self.store_prompt(prompt.clone());
        let mut actions: Vec<Action> = Vec::new();
        actions.push(Action::Send(Message::Text(prompt.clone())));
        actions.push(Action::Send(Message::sentinel()));
        assert(action_views(actions@) =~= SessionView::echo(prompt@));
        match commands.get("model") {
            Some(to_model) => {
                assert(found.contains_key("model"@) && found["model"@] == to_model@);
                self.model = to_model.clone();
                actions.push(Action::Send(Message::model_alert(to_model.as_str())));
                actions.push(Action::Send(Message::sentinel()));
            },
            None => {
                assert(!found.contains_key("model"@));
            },
        }
        assert(action_views(actions@) =~= SessionView::echo(prompt@) + SessionView::model_notice(
            found,
        ));
        assert(self.model@ == before.model_after(found));
        let ghost opening = action_views(actions@);
        if commands.contains_key("info") {
            assert(found.contains_key("info"@));
            actions.push(Action::Send(Message::model_info(self.model.as_str())));
            actions.push(Action::Send(Message::sentinel()));
            assert(action_views(actions@) =~= opening + seq![
                ActionView::Send(MessageView::Text(info_text(self.model@))),
                ActionView::Send(MessageView::Text(SENTINEL@)),
            ]);
        } else {
            assert(!found.contains_key("info"@));
            self.outstanding = true;
            let request = CompletionRequest::new(self.model.clone(), prompt);
            actions.push(Action::Submit(request));
            assert(action_views(actions@) =~= opening + seq![
                ActionView::Submit(CompletionRequestView::new(self.model@, prompt@)),
            ]);
        }
        actions
    }

    fn on_shared(&mut self, message: Message) -> (actions: Vec<Action>)
        ensures
            (final(self)@, action_views(actions@)) == old(self)@.on_shared(message@),
    {
        let mut actions: Vec<Action> = Vec::new();
        actions.push(Action::Send(message.clone()));
        actions.push(Action::Broadcast(message));
        assert(action_views(actions@) =~= seq![
            ActionView::Send(message@),
            ActionView::Broadcast(message@),
        ]);
        actions
    }

    fn on_frame(&mut self, frame: Frame) -> (actions: Vec<Action>)
        ensures
            (final(self)@, action_views(actions@)) == old(self)@.on_frame(
                frame.opcode,
                frame.payload@,
            ),
    {
        let none: Vec<Action> = Vec::new();
        assert(action_views(none@) =~= Seq::<ActionView>::empty());
        match frame.opcode {
            OpCode::Close => {
                self.end(Ending::Closed);
                none
            },
            OpCode::Text => match decode_text(frame.payload) {
                None => {
                    self.end(Ending::ProtocolError);
                    none
                },
                Some(text) => match self.policy {
                    Policy::Completion => self.on_prompt(text),
                    Policy::Broadcast => self.on_shared(Message::Text(text)),
                },
            },
            OpCode::Binary => match self.policy {
                Policy::Completion => none,
                Policy::Broadcast => self.on_shared(Message::Binary(frame.payload)),
            },
            _ => none,
        }
    }

    /// Takes one event and returns what has to be done for it, in order.
    pub fn handle(&mut self, event: Event) -> (actions: Vec<Action>)
        ensures
            (final(self)@, action_views(actions@)) == old(self)@.step(event@),
    {
        let mut actions: Vec<Action> = Vec::new();
        assert(action_views(actions@) =~= Seq::<ActionView>::empty());
        if self.phase != Phase::Active {
            return actions;
        }
        match event {
            Event::Inbound(frame) => self.on_frame(frame),
            Event::Delta(text) => {
                if is_sentinel(text.as_str()) {
                    self.outstanding = false;
                }
                actions.push(Action::Send(Message::Text(text)));
                assert(action_views(actions@) =~= seq![
                    ActionView::Send(MessageView::Text(text@)),
                ]);
                actions
            },
            Event::Pushed(message) => {
                actions.push(Action::Send(message));
                assert(action_views(actions@) =~= seq![ActionView::Send(message@)]);
                actions
            },
            Event::HandleClosed => {
                self.end(Ending::HandleClosed);
                actions
            },
            Event::Fault => {
                self.end(Ending::IoError);
                actions
            },
        }
    }
}

} // verus!
