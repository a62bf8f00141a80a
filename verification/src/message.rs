//! Outbound messages and their wire frames.

use vstd::prelude::*;
use vstd::string::*;
use vstd::utf8::*;

verus! {

/// Opcode of a WebSocket frame.
#[derive(Clone, Copy, Debug, PartialEq, Eq, Structural)]
pub enum OpCode {
    Continuation,
    Text,
    Binary,
    Close,
    Ping,
    Pong,
}

/// One complete (unfragmented) frame: what travels on a connection.
#[derive(Debug, PartialEq, Eq)]
pub struct Frame {
    pub fin: bool,
    pub opcode: OpCode,
    pub payload: Vec<u8>,
}

/// A message queued for, or written to, one client.
#[derive(Debug, PartialEq, Eq)]
pub enum Message {
    Text(String),
    Binary(Vec<u8>),
    Pong(Vec<u8>),
    /// Code, reason.
    Close(u16, String),
}

/// Mathematical value of a [`Message`].
pub enum MessageView {
    Text(Seq<char>),
    Binary(Seq<u8>),
    Pong(Seq<u8>),
    Close(u16, Seq<char>),
}

impl View for Message {
    type V = MessageView;

    open spec fn view(&self) -> MessageView {
        match self {
            Message::Text(text) => MessageView::Text(text@),
            Message::Binary(data) => MessageView::Binary(data@),
            Message::Pong(data) => MessageView::Pong(data@),
            Message::Close(code, reason) => MessageView::Close(*code, reason@),
        }
    }
}

/// The two bytes of a close code, most significant first.
pub open spec fn close_code_bytes(code: u16) -> Seq<u8> {
    seq![(code / 256) as u8, (code % 256) as u8]
}

impl MessageView {
    /// Opcode of the frame that carries this message.
    pub open spec fn opcode(self) -> OpCode {
        match self {
            MessageView::Text(_) => OpCode::Text,
            MessageView::Binary(_) => OpCode::Binary,
            MessageView::Pong(_) => OpCode::Pong,
            MessageView::Close(_, _) => OpCode::Close,
        }
    }

    /// Payload of the frame that carries this message: text as UTF-8, data
    /// verbatim, a close as its code followed by the reason.
    pub open spec fn payload(self) -> Seq<u8> {
        match self {
            MessageView::Text(text) => encode_utf8(text),
            MessageView::Binary(data) => data,
            MessageView::Pong(data) => data,
            MessageView::Close(code, reason) => close_code_bytes(code) + encode_utf8(reason),
        }
    }
}

/// Marker that opens every text the server itself originates.
pub const SERVER_ID: &'static str = "//server";

/// Text that closes a server turn: one NUL character.
pub const SENTINEL: &'static str = "\0";

/// Text of the notice that follows a `model` directive.
pub open spec fn alert_text(model: Seq<char>) -> Seq<char> {
    SERVER_ID@ + " Alert: Model set to "@ + model + "."@
}

/// Text of the answer to an `info` directive.
pub open spec fn info_text(model: Seq<char>) -> Seq<char> {
    SERVER_ID@ + " Info: Using "@ + model + " model."@
}

/// Text that reports a failed upstream call to the client.
pub open spec fn upstream_error_text(reason: Seq<char>) -> Seq<char> {
    SERVER_ID@ + " OpenAI Error: "@ + reason
}

/// The sentinel holds exactly one character, NUL.
pub proof fn lemma_sentinel_is_nul()
    ensures
        SENTINEL@ == seq!['\0'],
{
    reveal_strlit("\0");
    assert(SENTINEL@ =~= seq!['\0']);
}

impl Clone for Message {
    fn clone(&self) -> (copy: Self)
        ensures
            copy@ == self@,
    {
        match self {
            Message::Text(text) => Message::Text(text.clone()),
            Message::Binary(data) => Message::Binary(data.clone()),
            Message::Pong(data) => Message::Pong(data.clone()),
            Message::Close(code, reason) => Message::Close(*code, reason.clone()),
        }
    }
}

impl Message {
    /// The end-of-turn sentinel as a text message.
    pub fn sentinel() -> (message: Message)
        ensures
            message@ == MessageView::Text(SENTINEL@),
    {
        Message::Text(String::from_str(SENTINEL))
    }

    /// Server notice: the session's model is now `model`.
    pub fn model_alert(model: &str) -> (message: Message)
        ensures
            message@ == MessageView::Text(alert_text(model@)),
    {
        let mut text = String::from_str(SERVER_ID);
        text.append(" Alert: Model set to ");
        text.append(model);
        text.append(".");
        Message::Text(text)
    }

    /// Server notice: the session uses `model`.
    pub fn model_info(model: &str) -> (message: Message)
        ensures
            message@ == MessageView::Text(info_text(model@)),
    {
        let mut text = String::from_str(SERVER_ID);
        text.append(" Info: Using ");
        text.append(model);
        text.append(" model.");
        Message::Text(text)
    }

    /// The frame that carries this message: final, unmasked, with the
    /// opcode and payload of the variant.
    pub fn as_frame(&self) -> (frame: Frame)
        ensures
            frame.fin,
            frame.opcode == self@.opcode(),
            frame.payload@ == self@.payload(),
    {
        match self {
            Message::Text(text) => Frame {
                fin: true,
                opcode: OpCode::Text,
                payload: text.as_str().as_bytes_vec(),
            },
            Message::Binary(data) => Frame {
                fin: true,
                opcode: OpCode::Binary,
                payload: data.clone(),
            },
            Message::Pong(data) => Frame { fin: true, opcode: OpCode::Pong, payload: data.clone() },
            Message::Close(code, reason) => {
                let mut payload: Vec<u8> = Vec::new();
                payload.push((*code / 256) as u8);
                payload.push((*code % 256) as u8);
                let mut tail = reason.as_str().as_bytes_vec();
                payload.append(&mut tail);
                assert(payload@ =~= close_code_bytes(*code) + encode_utf8(reason@));
                Frame { fin: true, opcode: OpCode::Close, payload }
            },
        }
    }

    /// Same as [`Message::as_frame`].
    pub fn to_frame(&self) -> (frame: Frame)
        ensures
            frame.fin,
            frame.opcode == self@.opcode(),
            frame.payload@ == self@.payload(),
    {
        self.as_frame()
    }
}

/// Whether `text` is the end-of-turn sentinel.
pub fn is_sentinel(text: &str) -> (yes: bool)
    ensures
        yes == (text@ == SENTINEL@),
{
    proof {
        lemma_sentinel_is_nul();
    }
    let length: usize = text.unicode_len();
    let yes = length == 1 && text.get_char(0) == '\0';
    assert(yes ==> text@ =~= seq!['\0']);
    yes
}

/// `String::from_utf8` of std: the text that `bytes` encode, if they are
/// well-formed UTF-8, and nothing otherwise.
#[verifier::external_body]
fn string_from_utf8(bytes: Vec<u8>) -> (decoded: Option<String>)
    ensures
        decoded is Some <==> valid_utf8(bytes@),
        decoded matches Some(text) ==> text@ == decode_utf8(bytes@),
{
    String::from_utf8(bytes).ok()
}

/// Decodes the payload of a text frame. Fails exactly on malformed UTF-8.
pub fn decode_text(payload: Vec<u8>) -> (decoded: Option<String>)
    ensures
        decoded is Some <==> valid_utf8(payload@),
        decoded matches Some(text) ==> text@ == decode_utf8(payload@) && encode_utf8(text@)
            == payload@,
{
    broadcast use vstd::utf8::decode_utf8_encode_utf8;

    string_from_utf8(payload)
}

} // verus!
