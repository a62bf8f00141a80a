use chat_relay::dispatcher::Dispatcher;
use chat_relay::message::{Frame, Message, OpCode};
use chat_relay::registry::{RegistryError, State};
use chat_relay::relay::{CompletionRequest, StreamEvent};
use chat_relay::session::{Action, Ending, Event, Phase, Policy, Session, DEFAULT_MODEL};

fn text_frame(text: &str) -> Event {
    Event::Inbound(Frame { fin: true, opcode: OpCode::Text, payload: text.as_bytes().to_vec() })
}

fn frame_of(opcode: OpCode, payload: &[u8]) -> Event {
    Event::Inbound(Frame { fin: true, opcode, payload: payload.to_vec() })
}

fn send_text(text: &str) -> Action {
    Action::Send(Message::Text(text.to_string()))
}

fn submit(model: &str, prompt: &str) -> Action {
    Action::Submit(CompletionRequest {
        model: model.to_string(),
        prompt: prompt.to_string(),
        max_tokens: 1024,
    })
}

#[test]
fn new_session_is_active_on_the_default_model() {
    let session = Session::new(7, Policy::Completion);
    assert_eq!(DEFAULT_MODEL, "gpt-3.5-turbo-1106");
    assert_eq!(session.id(), 7);
    assert_eq!(session.policy(), Policy::Completion);
    assert_eq!(session.phase(), Phase::Active);
    assert_eq!(session.ending(), None);
    assert_eq!(session.model(), "gpt-3.5-turbo-1106");
    assert!(!session.is_outstanding());
    assert_eq!(session.get_prompts(10), Vec::<String>::new());
}

#[test]
fn plain_prompt_is_echoed_then_submitted() {
    let mut session = Session::new(1, Policy::Completion);
    let actions = session.handle(text_frame("hi"));
    assert_eq!(
        actions,
        vec![send_text("hi"), send_text("\0"), submit("gpt-3.5-turbo-1106", "hi")]
    );
    assert!(session.is_outstanding());
    assert_eq!(session.phase(), Phase::Active);
    assert_eq!(session.get_prompts(5), vec!["hi".to_string()]);
}

#[test]
fn client_receives_echo_sentinel_deltas_and_final_sentinel() {
    let mut session = Session::new(1, Policy::Completion);
    let mut dispatcher: Dispatcher<CompletionRequest> = Dispatcher::new(10);
    let mut received: Vec<Message> = Vec::new();
    let mut started: Vec<CompletionRequest> = Vec::new();

    for action in session.handle(text_frame("hi")) {
        match action {
            Action::Send(message) => received.push(message),
            Action::Submit(request) => {
                if let Some(request) = dispatcher.submit(request) {
                    started.push(request);
                }
            }
            Action::Broadcast(_) => panic!("no broadcast under the completion policy"),
        }
    }
    assert_eq!(
        started,
        vec![CompletionRequest {
            model: "gpt-3.5-turbo-1106".to_string(),
            prompt: "hi".to_string(),
            max_tokens: 1024,
        }]
    );

    let stream = vec![
        StreamEvent::Chunk(vec![Some("Hel".to_string())]),
        StreamEvent::Chunk(vec![None]),
        StreamEvent::Chunk(vec![Some("lo".to_string())]),
        StreamEvent::Finished,
    ];
    for item in stream {
        let forwarded = dispatcher.forward(item);
        assert_eq!(forwarded.next, None);
        for text in forwarded.texts {
            for action in session.handle(Event::Delta(text)) {
                match action {
                    Action::Send(message) => received.push(message),
                    _ => panic!("a delta is only sent on"),
                }
            }
        }
    }
    assert_eq!(
        received,
        vec![
            Message::Text("hi".to_string()),
            Message::Text("\0".to_string()),
            Message::Text("Hel".to_string()),
            Message::Text("lo".to_string()),
            Message::Text("\0".to_string()),
        ]
    );
    assert!(!session.is_outstanding());
    assert_eq!(dispatcher.running(), 0);
}

#[test]
fn model_directive_switches_the_model_for_this_and_later_turns() {
    let mut session = Session::new(1, Policy::Completion);
    let actions = session.handle(text_frame("!model gpt-4 tell me a joke"));
    assert_eq!(
        actions,
        vec![
            send_text("!model gpt-4 tell me a joke"),
            send_text("\0"),
            send_text("//server Alert: Model set to gpt-4."),
            send_text("\0"),
            submit("gpt-4", "!model gpt-4 tell me a joke"),
        ]
    );
    assert_eq!(session.model(), "gpt-4");

    let actions = session.handle(text_frame("another one"));
    assert_eq!(
        actions,
        vec![send_text("another one"), send_text("\0"), submit("gpt-4", "another one")]
    );

    let actions = session.handle(text_frame("!model gpt-3.5-turbo back"));
    assert_eq!(actions[4], submit("gpt-3.5-turbo", "!model gpt-3.5-turbo back"));
    assert_eq!(session.model(), "gpt-3.5-turbo");
}

#[test]
fn model_directive_without_value_sets_the_empty_model() {
    let mut session = Session::new(1, Policy::Completion);
    let actions = session.handle(text_frame("!model"));
    assert_eq!(
        actions,
        vec![
            send_text("!model"),
            send_text("\0"),
            send_text("//server Alert: Model set to ."),
            send_text("\0"),
            submit("", "!model"),
        ]
    );
}

#[test]
fn info_directive_reports_and_submits_nothing() {
    let mut session = Session::new(1, Policy::Completion);
    let actions = session.handle(text_frame("!info"));
    assert_eq!(
        actions,
        vec![
            send_text("!info"),
            send_text("\0"),
            send_text("//server Info: Using gpt-3.5-turbo-1106 model."),
            send_text("\0"),
        ]
    );
    assert!(!session.is_outstanding());
    assert_eq!(session.get_prompts(1), vec!["!info".to_string()]);
}

#[test]
fn model_and_info_together_switch_then_report() {
    let mut session = Session::new(1, Policy::Completion);
    let actions = session.handle(text_frame("!info now !model gpt-4"));
    assert_eq!(
        actions,
        vec![
            send_text("!info now !model gpt-4"),
            send_text("\0"),
            send_text("//server Alert: Model set to gpt-4."),
            send_text("\0"),
            send_text("//server Info: Using gpt-4 model."),
            send_text("\0"),
        ]
    );
    assert_eq!(session.model(), "gpt-4");
    assert!(!session.is_outstanding());
}

#[test]
fn deltas_are_sent_on_and_the_sentinel_ends_the_turn() {
    let mut session = Session::new(1, Policy::Completion);
    session.handle(text_frame("hi"));
    assert!(session.is_outstanding());
    assert_eq!(session.handle(Event::Delta("word".to_string())), vec![send_text("word")]);
    assert!(session.is_outstanding());
    assert_eq!(
        session.handle(Event::Delta("//server OpenAI Error: boom".to_string())),
        vec![send_text("//server OpenAI Error: boom")]
    );
    assert!(session.is_outstanding());
    assert_eq!(session.handle(Event::Delta("\0".to_string())), vec![send_text("\0")]);
    assert!(!session.is_outstanding());
    assert_eq!(session.phase(), Phase::Active);
}

#[test]
fn pushed_messages_are_sent_on() {
    let mut session = Session::new(1, Policy::Completion);
    let pushed = Message::Binary(vec![1, 2]);
    assert_eq!(
        session.handle(Event::Pushed(pushed.clone())),
        vec![Action::Send(pushed)]
    );
}

#[test]
fn binary_and_control_frames_are_ignored_under_the_completion_policy() {
    let mut session = Session::new(1, Policy::Completion);
    assert_eq!(session.handle(frame_of(OpCode::Binary, &[1, 2, 3])), Vec::new());
    assert_eq!(session.handle(frame_of(OpCode::Ping, &[])), Vec::new());
    assert_eq!(session.handle(frame_of(OpCode::Pong, &[])), Vec::new());
    assert_eq!(session.handle(frame_of(OpCode::Continuation, &[b'x'])), Vec::new());
    assert_eq!(session.phase(), Phase::Active);
    assert_eq!(session.get_prompts(9), Vec::<String>::new());
}

#[test]
fn close_frame_stops_the_session() {
    let mut session = Session::new(1, Policy::Completion);
    assert_eq!(session.handle(frame_of(OpCode::Close, &[0x03, 0xE8])), Vec::new());
    assert_eq!(session.phase(), Phase::Closing);
    assert_eq!(session.ending(), Some(Ending::Closed));
    assert_eq!(session.handle(text_frame("too late")), Vec::new());
    assert_eq!(session.handle(Event::Delta("late".to_string())), Vec::new());
    assert_eq!(session.handle(Event::Pushed(Message::Text("late".to_string()))), Vec::new());
    assert_eq!(session.handle(Event::Fault), Vec::new());
    assert_eq!(session.phase(), Phase::Closing);
    assert_eq!(session.ending(), Some(Ending::Closed));
    assert_eq!(session.get_prompts(9), Vec::<String>::new());
}

#[test]
fn malformed_text_is_a_protocol_error_that_ends_the_session() {
    let mut session = Session::new(1, Policy::Completion);
    assert_eq!(session.handle(frame_of(OpCode::Text, &[0xFF, 0xFE])), Vec::new());
    assert_eq!(session.phase(), Phase::Closing);
    assert_eq!(session.ending(), Some(Ending::ProtocolError));
    let mut session = Session::new(2, Policy::Broadcast);
    assert_eq!(session.handle(frame_of(OpCode::Text, &[0xC0])), Vec::new());
    assert_eq!(session.ending(), Some(Ending::ProtocolError));
}

#[test]
fn fault_and_closed_handle_end_the_session() {
    let mut session = Session::new(1, Policy::Completion);
    assert_eq!(session.handle(Event::Fault), Vec::new());
    assert_eq!(session.phase(), Phase::Closing);
    assert_eq!(session.ending(), Some(Ending::IoError));
    let mut session = Session::new(1, Policy::Completion);
    assert_eq!(session.handle(Event::HandleClosed), Vec::new());
    assert_eq!(session.phase(), Phase::Closing);
    assert_eq!(session.ending(), Some(Ending::HandleClosed));
}

#[test]
fn open_registers_and_teardown_removes_exactly_once() {
    let mut registry = State::new();
    let mut session = Session::open(1, Policy::Completion, &mut registry).unwrap();
    assert!(registry.contains(1));
    assert_eq!(registry.len(), 1);

    session.teardown(&mut registry);
    assert_eq!(session.phase(), Phase::Active);
    assert!(registry.contains(1));

    session.handle(Event::Fault);
    session.teardown(&mut registry);
    assert_eq!(session.phase(), Phase::Terminated);
    assert!(!registry.contains(1));

    let _other = Session::open(1, Policy::Completion, &mut registry).unwrap();
    session.teardown(&mut registry);
    assert!(registry.contains(1));
    assert_eq!(session.phase(), Phase::Terminated);
    assert_eq!(session.handle(text_frame("hi")), Vec::new());
}

#[test]
fn open_fails_closed_on_a_duplicate_identity() {
    let mut registry = State::new();
    let _first = Session::open(1, Policy::Broadcast, &mut registry).unwrap();
    registry.broadcast(2, Message::Text("kept".to_string()));
    match Session::open(1, Policy::Broadcast, &mut registry) {
        Ok(_) => panic!("a duplicate identity was accepted"),
        Err(error) => assert_eq!(error, RegistryError::DuplicateConnection),
    }
    assert_eq!(registry.len(), 1);
    assert_eq!(registry.poll(1), Some(Event::Pushed(Message::Text("kept".to_string()))));
}

#[test]
fn history_keeps_prompts_in_order_and_answers_recency_queries() {
    let mut session = Session::new(1, Policy::Completion);
    session.handle(text_frame("one"));
    session.handle(text_frame("two"));
    session.store_prompt("three".to_string());
    assert_eq!(
        session.get_prompts(5),
        vec!["one".to_string(), "two".to_string(), "three".to_string()]
    );
    assert_eq!(
        session.get_prompts(3),
        vec!["one".to_string(), "two".to_string(), "three".to_string()]
    );
    assert_eq!(session.get_prompts(2), vec!["two".to_string(), "three".to_string()]);
    assert_eq!(session.get_prompts(1), vec!["three".to_string()]);
    assert_eq!(session.get_prompts(0), Vec::<String>::new());
}

#[test]
fn broadcast_policy_echoes_and_forwards_text_and_binary() {
    let mut session = Session::new(1, Policy::Broadcast);
    assert_eq!(
        session.handle(text_frame("!model gpt-4 hi")),
        vec![
            send_text("!model gpt-4 hi"),
            Action::Broadcast(Message::Text("!model gpt-4 hi".to_string())),
        ]
    );
    assert_eq!(session.model(), "gpt-3.5-turbo-1106");
    assert!(!session.is_outstanding());
    assert_eq!(
        session.handle(frame_of(OpCode::Binary, &[1, 2])),
        vec![
            Action::Send(Message::Binary(vec![1, 2])),
            Action::Broadcast(Message::Binary(vec![1, 2])),
        ]
    );
    assert_eq!(session.handle(frame_of(OpCode::Ping, &[])), Vec::new());
}

fn perform(session: &mut Session, registry: &mut State, event: Event, seen: &mut Vec<Message>) {
    let id = session.id();
    for action in session.handle(event) {
        match action {
            Action::Send(message) => seen.push(message),
            Action::Broadcast(message) => {
                registry.broadcast(id, message);
            }
            Action::Submit(_) => panic!("nothing is submitted under the broadcast policy"),
        }
    }
}

fn drain(session: &mut Session, registry: &mut State, seen: &mut Vec<Message>) {
    while let Some(event) = registry.poll(session.id()) {
        perform(session, registry, event, seen);
    }
}

#[test]
fn text_from_one_session_is_seen_by_the_two_others_only() {
    let mut registry = State::new();
    let mut a = Session::open(1, Policy::Broadcast, &mut registry).unwrap();
    let mut b = Session::open(2, Policy::Broadcast, &mut registry).unwrap();
    let mut c = Session::open(3, Policy::Broadcast, &mut registry).unwrap();
    let (mut seen_a, mut seen_b, mut seen_c) = (Vec::new(), Vec::new(), Vec::new());

    perform(&mut a, &mut registry, text_frame("from a"), &mut seen_a);
    drain(&mut a, &mut registry, &mut seen_a);
    drain(&mut b, &mut registry, &mut seen_b);
    drain(&mut c, &mut registry, &mut seen_c);
    assert_eq!(seen_a, vec![Message::Text("from a".to_string())]);
    assert_eq!(seen_b, vec![Message::Text("from a".to_string())]);
    assert_eq!(seen_c, vec![Message::Text("from a".to_string())]);

    perform(&mut b, &mut registry, text_frame("from b"), &mut seen_b);
    perform(&mut c, &mut registry, text_frame("from c"), &mut seen_c);
    drain(&mut a, &mut registry, &mut seen_a);
    let from_b = seen_a.iter().filter(|m| **m == Message::Text("from b".to_string())).count();
    let from_c = seen_a.iter().filter(|m| **m == Message::Text("from c".to_string())).count();
    assert_eq!(from_b, 1);
    assert_eq!(from_c, 1);
    assert_eq!(seen_a.len(), 3);
}

#[test]
fn session_that_left_is_no_longer_a_recipient() {
    let mut registry = State::new();
    let mut a = Session::open(1, Policy::Broadcast, &mut registry).unwrap();
    let mut b = Session::open(2, Policy::Broadcast, &mut registry).unwrap();
    let mut seen_a = Vec::new();
    b.handle(frame_of(OpCode::Close, &[]));
    b.teardown(&mut registry);
    perform(&mut a, &mut registry, text_frame("anyone?"), &mut seen_a);
    assert_eq!(registry.len(), 1);
    assert_eq!(registry.poll(2), Some(Event::HandleClosed));
}
