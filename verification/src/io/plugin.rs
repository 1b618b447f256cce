//! What the browser extension sends and is sent: requests and results as
//! JSON texts, each in a frame of its own.
//!
//! JSON itself is the `serde_json` crate's: it reads the members of a
//! request and writes the strings of a result. Which members make which
//! request, and which object a result becomes, is stated and proved here.

use crate::buffer::{append_bytes, Inbox, InboxView};
use crate::engine::{EngSend, EngSendView};
use crate::error::BridgeError;
use crate::frame::{
    after_frame, frame, frame_payload, frame_ready, lemma_frame_round_trip, native_bytes,
    native_u32,
};
use crate::text::texts;
use vstd::endian::endianness;
use vstd::prelude::*;
use vstd::string::*;
use vstd::utf8::encode_utf8;

verus! {

/// A change of the tracked position.
#[derive(Debug, Clone, PartialEq, Eq)]
pub enum PosInp {
    /// Moves to play, in order, from the position that is tracked now.
    Moves(Vec<String>),
    /// A position to replace the tracked one with.
    Fen(String),
}

/// One request of the extension.
#[derive(Debug, Clone, PartialEq, Eq)]
pub enum Inp {
    Go,
    Pos(PosInp),
    Stop,
}

/// What a `PosInp` holds, as plain sequences.
pub enum PosInpView {
    Moves(Seq<Seq<char>>),
    Fen(Seq<char>),
}

/// What an `Inp` holds, as plain sequences.
pub enum InpView {
    Go,
    Pos(PosInpView),
    Stop,
}

impl View for PosInp {
    type V = PosInpView;

    open spec fn view(&self) -> PosInpView {
        match self {
            PosInp::Moves(moves) => PosInpView::Moves(texts(moves@)),
            PosInp::Fen(fen) => PosInpView::Fen(fen@),
        }
    }
}

impl View for Inp {
    type V = InpView;

    open spec fn view(&self) -> InpView {
        match self {
            Inp::Go => InpView::Go,
            Inp::Pos(p) => InpView::Pos(p@),
            Inp::Stop => InpView::Stop,
        }
    }
}

/// The string that the JSON text `payload` holds under `key`: `None` where
/// `payload` is no JSON text, no object, has no member `key`, or holds
/// something other than a string there.
pub uninterp spec fn json_text_member(payload: Seq<u8>, key: Seq<char>) -> Option<Seq<char>>;

/// The strings that the JSON text `payload` holds under `key` as an array:
/// `None` where `payload` is no JSON text, no object, has no member `key`, or
/// holds something other than an array of strings there.
pub uninterp spec fn json_list_member(payload: Seq<u8>, key: Seq<char>) -> Option<
    Seq<Seq<char>>,
>;

/// The number of members of the object that the JSON text `payload` is:
/// `None` where `payload` is no JSON text or no object.
pub uninterp spec fn json_member_count(payload: Seq<u8>) -> Option<nat>;

/// The JSON string literal that stands for `text`, quotes included.
pub uninterp spec fn json_string(text: Seq<char>) -> Seq<char>;

/// `serde_json::from_slice` into a `serde_json::Value`, `Value::get` with
/// `key`, then `serde_json::from_value` into a `String`: the string member
/// `key` of the object `payload`. `None` where any of the three reports an
/// error or finds nothing. The result depends on the arguments alone and is
/// named `json_text_member`.
#[verifier::external_body]
fn text_member(payload: &[u8], key: &str) -> (r: Option<String>)
    ensures
        match r {
            Some(t) => json_text_member(payload@, key@) == Some(t@),
            None => json_text_member(payload@, key@).is_none(),
        },
{
    let value: serde_json::Value = serde_json::from_slice(payload).ok()?;
    serde_json::from_value::<String>(value.get(key)?.clone()).ok()
}

/// As `text_member`, with `serde_json::from_value` into a `Vec<String>`:
/// the member `key` of the object `payload` where it is an array of
/// strings. The result is named `json_list_member`.
#[verifier::external_body]
fn list_member(payload: &[u8], key: &str) -> (r: Option<Vec<String>>)
    ensures
        match r {
            Some(l) => json_list_member(payload@, key@) == Some(texts(l@)),
            None => json_list_member(payload@, key@).is_none(),
        },
{
    let value: serde_json::Value = serde_json::from_slice(payload).ok()?;
    serde_json::from_value::<Vec<String>>(value.get(key)?.clone()).ok()
}

/// `serde_json::from_slice` into a `serde_json::Value`, `Value::as_object`
/// and `Map::len`: the number of members of the object `payload`. `None`
/// where `payload` does not parse or is no object. The result is named
/// `json_member_count`.
#[verifier::external_body]
fn member_count(payload: &[u8]) -> (r: Option<usize>)
    ensures
        match r {
            Some(n) => json_member_count(payload@) == Some(n as nat),
            None => json_member_count(payload@).is_none(),
        },
{
    let value: serde_json::Value = serde_json::from_slice(payload).ok()?;
    Some(value.as_object()?.len())
}

/// `serde_json::to_string` on a `str`: the JSON string literal for `text`.
/// Its documentation names two ways to fail, neither of which a `str` can
/// take. The result is named `json_string`.
#[verifier::external_body]
fn quoted(text: &str) -> (r: String)
    ensures
        r@ == json_string(text@),
{
    serde_json::to_string(text).unwrap_or_default()
}

/// The request that a payload stands for. It is a JSON object whose member
/// `cmd` is one of the strings `go`, `stop` and `pos`. With `go` and `stop`
/// any other members are passed over. With `pos`, the object has exactly one
/// more member: `fen`, a string, or `moves`, an array of strings.
pub open spec fn request_of(payload: Seq<u8>) -> Option<InpView> {
    match json_text_member(payload, "cmd"@) {
        Some(cmd) => if cmd == "go"@ {
            Some(InpView::Go)
        } else if cmd == "stop"@ {
            Some(InpView::Stop)
        } else if cmd == "pos"@ && json_member_count(payload) == Some(2nat) {
            match json_text_member(payload, "fen"@) {
                Some(fen) => Some(InpView::Pos(PosInpView::Fen(fen))),
                None => match json_list_member(payload, "moves"@) {
                    Some(moves) => Some(InpView::Pos(PosInpView::Moves(moves))),
                    None => None,
                },
            }
        } else {
            None
        },
        None => None,
    }
}

/// Reads the request that `payload` stands for.
pub fn decode_request(payload: &[u8]) -> (r: Option<Inp>)
    ensures
        match r {
            Some(inp) => request_of(payload@) == Some(inp@),
            None => request_of(payload@).is_none(),
        },
{
    let cmd = match text_member(payload, "cmd") {
        Some(cmd) => cmd,
        None => {
            return None;
        },
    };
    if cmd == String::from_str("go") {
        return Some(Inp::Go);
    }
    if cmd == String::from_str("stop") {
        return Some(Inp::Stop);
    }
    if !(cmd == String::from_str("pos")) {
        return None;
    }
    match member_count(payload) {
        Some(n) => if n != 2 {
            return None;
        },
        None => {
            return None;
        },
    }
    match text_member(payload, "fen") {
        Some(fen) => Some(Inp::Pos(PosInp::Fen(fen))),
        None => match list_member(payload, "moves") {
            Some(moves) => Some(Inp::Pos(PosInp::Moves(moves))),
            None => None,
        },
    }
}

/// The JSON text that a result is sent as: a best move as an object with the
/// members `bestmove` and `pondermove`, any other line as the member `raw` of
/// an object under `info`.
pub open spec fn result_json(e: EngSendView) -> Seq<char> {
    match e {
        EngSendView::Bestmove { bestmove, pondermove } => "{\"bestmove\":"@ + json_string(
            bestmove,
        ) + ",\"pondermove\":"@ + json_string(pondermove) + "}"@,
        EngSendView::Info { raw } => "{\"info\":{\"raw\":"@ + json_string(raw) + "}}"@,
    }
}

/// Writes the JSON text of a result.
pub fn encode_result(e: &EngSend) -> (r: String)
    ensures
        r@ == result_json(e@),
{
    match e {
        EngSend::Bestmove(b) => {
            let mut r = String::from_str("{\"bestmove\":");
            r.append(quoted(b.bestmove.as_str()).as_str());
            r.append(",\"pondermove\":");
            r.append(quoted(b.pondermove.as_str()).as_str());
            r.append("}");
            assert(r@ =~= result_json(e@));
            r
        },
        EngSend::Info(i) => {
            let mut r = String::from_str("{\"info\":{\"raw\":");
            r.append(quoted(i.raw.as_str()).as_str());
            r.append("}}");
            assert(r@ =~= result_json(e@));
            r
        },
    }
}

/// What a receiver does with the bytes `v` that are waiting: the request
/// that the first frame carries, whether that payload is no request, or that
/// no whole frame is there.
pub open spec fn received(v: InboxView) -> Result<Option<InpView>, BridgeError> {
    if frame_ready(endianness(), v.pending) {
        match request_of(frame_payload(endianness(), v.pending)) {
            Some(inp) => Ok(Some(inp)),
            None => Err(BridgeError::ProtocolViolation),
        }
    } else if v.closed && v.pending.len() > 0 {
        Err(BridgeError::ProtocolViolation)
    } else {
        Ok(None)
    }
}

/// What is left waiting once a receiver has looked at `v`: a whole frame is
/// used up, whatever its payload held, and anything less stays.
pub open spec fn left_over(v: InboxView) -> InboxView {
    if frame_ready(endianness(), v.pending) {
        InboxView { pending: after_frame(endianness(), v.pending), ..v }
    } else {
        v
    }
}

/// What is put into a frame comes out of it: a receiver that finds the
/// frame of `payload` waiting, with anything behind it, reads `payload` as a
/// request and leaves what was behind it.
pub proof fn lemma_receive_framed(payload: Seq<u8>, rest: Seq<u8>, closed: bool)
    requires
        payload.len() <= u32::MAX,
    ensures
        received(InboxView { pending: frame(endianness(), payload) + rest, closed })
            == match request_of(payload) {
            Some(inp) => Ok::<Option<InpView>, BridgeError>(Some(inp)),
            None => Err::<Option<InpView>, BridgeError>(BridgeError::ProtocolViolation),
        },
        left_over(InboxView { pending: frame(endianness(), payload) + rest, closed }) == (
            InboxView { pending: rest, closed }
        ),
{
    lemma_frame_round_trip(endianness(), payload, rest);
}

/// The view of what `receive` returned.
pub open spec fn received_view(r: Result<Option<Inp>, BridgeError>) -> Result<
    Option<InpView>,
    BridgeError,
> {
    match r {
        Ok(Some(inp)) => Ok(Some(inp@)),
        Ok(None) => Ok(None),
        Err(x) => Err(x),
    }
}

/// The extension's requests as far as their bytes have been read and not
/// yet decoded.
pub struct Receiver {
    inbox: Inbox,
}

impl View for Receiver {
    type V = InboxView;

    closed spec fn view(&self) -> InboxView {
        self.inbox@
    }
}

impl Receiver {
    /// Nothing read yet.
    pub fn new() -> (r: Self)
        ensures
            r@ == (InboxView { pending: Seq::empty(), closed: false }),
    {
        Receiver { inbox: Inbox::new() }
    }

    /// Adds what one read of the extension's stream returned.
    pub fn feed(&mut self, bytes: &[u8])
        ensures
            final(self)@ == (InboxView { pending: old(self)@.pending + bytes@, ..old(self)@ }),
    {
        self.inbox.feed(bytes);
    }

    /// Records that the extension has closed its stream.
    pub fn close(&mut self)
        ensures
            final(self)@ == (InboxView { closed: true, ..old(self)@ }),
    {
        self.inbox.close();
    }

    /// Whether the session has ended in good order: the extension has closed
    /// its stream and nothing of it is left waiting.
    pub fn is_finished(&self) -> (r: bool)
        ensures
            r == (self@.closed && self@.pending.len() == 0),
    {
        self.inbox.is_closed() && self.inbox.len() == 0
    }

    /// Decodes the next request. `Ok(None)` means that no whole frame is
    /// waiting: more has to be read, or, on a closed stream with nothing
    /// waiting, the session is over. Part of a frame on a closed stream is a
    /// violation, and so is a whole frame whose payload is no request.
    pub fn receive(&mut self) -> (r: Result<Option<Inp>, BridgeError>)
        ensures
            received_view(r) == received(old(self)@),
            final(self)@ == left_over(old(self)@),
    {
        let n = self.inbox.len();
        if n >= 4 {
            let declared = native_u32(self.inbox.bytes()) as usize;
            if n - 4 >= declared {
                let _ = self.inbox.take(4);
                let payload = self.inbox.take(declared);
                assert(payload@ =~= frame_payload(endianness(), old(self)@.pending));
                assert(self@.pending =~= after_frame(endianness(), old(self)@.pending));
                return match decode_request(payload.as_slice()) {
                    Some(inp) => Ok(Some(inp)),
                    None => Err(BridgeError::ProtocolViolation),
                };
            }
        }
        if self.inbox.is_closed() && n > 0 {
            Err(BridgeError::ProtocolViolation)
        } else {
            Ok(None)
        }
    }
}

/// The bytes of the frame that carries the result `e`, where its JSON text
/// is short enough for the length to fit into the prefix.
pub open spec fn result_frame(e: EngSendView) -> Option<Seq<u8>> {
    let payload = encode_utf8(result_json(e));
    if payload.len() <= u32::MAX {
        Some(frame(endianness(), payload))
    } else {
        None
    }
}

/// The frames for the extension that have been made and not yet written to
/// it. Its view is their bytes, in the order in which they were made.
pub struct Sender {
    bytes: Vec<u8>,
}

impl View for Sender {
    type V = Seq<u8>;

    closed spec fn view(&self) -> Seq<u8> {
        self.bytes@
    }
}

impl Sender {
    /// No frame made.
    pub fn new() -> (r: Self)
        ensures
            r@ == Seq::<u8>::empty(),
    {
        Sender { bytes: Vec::new() }
    }

    /// Puts the result `b` into a frame behind those that are waiting. A
    /// result whose JSON text is longer than a prefix can say is a violation
    /// and adds nothing.
    pub fn send(&mut self, b: EngSend) -> (r: Result<(), BridgeError>)
        ensures
            match result_frame(b@) {
                Some(f) => r == Ok::<(), BridgeError>(()) && final(self)@ == old(self)@ + f,
                None => r == Err::<(), BridgeError>(BridgeError::ProtocolViolation)
                    && final(self)@ == old(self)@,
            },
    {
        let json = encode_result(&b);
        let payload = json.as_str().as_bytes();
        if payload.len() > (u32::MAX as usize) {
            return Err(BridgeError::ProtocolViolation);
        }
        let prefix = native_bytes(payload.len() as u32);
        append_bytes(&mut self.bytes, prefix.as_slice());
        append_bytes(&mut self.bytes, payload);
        assert(self@ =~= old(self)@ + frame(endianness(), payload@));
        Ok(())
    }

    /// Hands over the bytes that are to be written to the extension, after
    /// which nothing is waiting.
    pub fn take(&mut self) -> (r: Vec<u8>)
        ensures
            r@ == old(self)@,
            final(self)@ == Seq::<u8>::empty(),
    {
        let mut r = Vec::new();
        core::mem::swap(&mut r, &mut self.bytes);
        r
    }
}

} // verus!
