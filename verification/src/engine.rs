//! The engine side of the bridge: what an engine reports, the search limit,
//! and the two buffers that carry UCI text to and from the engine.

use crate::buffer::{Inbox, InboxView};
use crate::error::BridgeError;
pub use crate::position::EnginePos;
use crate::text::{
    decimal, lemma_span_is, lemma_split_nonempty, span, split, split_text, text_of_utf8, texts,
    u32_to_text,
};
use vstd::prelude::*;
use vstd::string::*;
use vstd::utf8::{decode_utf8, valid_utf8};

verus! {

/// The move an engine settled on, and the reply it expects, in the engine's
/// own notation. `pondermove` is empty where the engine named none.
#[derive(Debug, Clone, PartialEq, Eq)]
pub struct Bestmove {
    pub bestmove: String,
    pub pondermove: String,
}

/// Any other line of engine output, kept as it came.
#[derive(Debug, Clone, PartialEq, Eq)]
pub struct Info {
    pub raw: String,
}

/// One line of engine output, ready to be sent on to the extension.
#[derive(Debug, Clone, PartialEq, Eq)]
pub enum EngSend {
    Bestmove(Bestmove),
    Info(Info),
}

/// What an `EngSend` holds, as plain sequences.
pub enum EngSendView {
    Bestmove { bestmove: Seq<char>, pondermove: Seq<char> },
    Info { raw: Seq<char> },
}

impl View for EngSend {
    type V = EngSendView;

    open spec fn view(&self) -> EngSendView {
        match self {
            EngSend::Bestmove(b) => EngSendView::Bestmove {
                bestmove: b.bestmove@,
                pondermove: b.pondermove@,
            },
            EngSend::Info(i) => EngSendView::Info { raw: i.raw@ },
        }
    }
}

/// The one limit that every search of a session runs under.
#[derive(Debug, Clone, Copy, PartialEq, Eq, Structural)]
pub enum Limit {
    /// Milliseconds per move.
    Movetime(u32),
    /// Plies.
    Depth(u32),
    /// Nodes. Engines are given this number as a depth.
    Node(u32),
}

/// The token after the first `ponder` found at index `from` or later, or the
/// empty text where there is no such token.
pub open spec fn ponder_of(tokens: Seq<Seq<char>>, from: int) -> Seq<char>
    decreases tokens.len() - from,
{
    if from < 0 || from >= tokens.len() {
        Seq::empty()
    } else if tokens[from] == "ponder"@ {
        if from + 1 < tokens.len() {
            tokens[from + 1]
        } else {
            Seq::empty()
        }
    } else {
        ponder_of(tokens, from + 1)
    }
}

/// What one line of engine output means. The line is cut at every single
/// space. A line whose first token is `bestmove` names the best move in its
/// second token and may name a ponder move after a later `ponder`; without a
/// second token it breaks the protocol. Every other line is passed on whole.
pub open spec fn decode_line(line: Seq<char>) -> Result<EngSendView, BridgeError> {
    let tokens = split(line, ' ');
    if tokens[0] == "bestmove"@ {
        if tokens.len() < 2 {
            Err(BridgeError::ProtocolViolation)
        } else {
            Ok(EngSendView::Bestmove { bestmove: tokens[1], pondermove: ponder_of(tokens, 2) })
        }
    } else {
        Ok(EngSendView::Info { raw: line })
    }
}

/// The view of a decoding result.
pub open spec fn decoded(r: Result<EngSend, BridgeError>) -> Result<EngSendView, BridgeError> {
    match r {
        Ok(e) => Ok(e@),
        Err(x) => Err(x),
    }
}

fn find_ponder(tokens: &Vec<String>) -> (r: String)
    ensures
        r@ == ponder_of(texts(tokens@), 2),
{
    let keyword = String::from_str("ponder");
    let mut i: usize = 2;
    while i < tokens.len()
        invariant
            2 <= i,
            keyword@ == "ponder"@,
            ponder_of(texts(tokens@), 2) == ponder_of(texts(tokens@), i as int),
        decreases tokens.len() - i,
    {
        assert(texts(tokens@)[i as int] == tokens@[i as int]@);
        if tokens[i] == keyword {
            if i + 1 < tokens.len() {
                assert(texts(tokens@)[i + 1] == tokens@[i + 1]@);
                return tokens[i + 1].clone();
            } else {
                return String::new();
            }
        }
        i += 1;
    }
    String::new()
}

impl EngSend {
    /// Decodes one line of engine output, given without its line end.
    pub fn from(value: &str) -> (r: Result<EngSend, BridgeError>)
        ensures
            decoded(r) == decode_line(value@),
    {
        let tokens = split_text(value, ' ');
        proof {
            lemma_split_nonempty(value@, ' ');
            assert(texts(tokens@)[0] == tokens@[0]@);
        }
        let keyword = String::from_str("bestmove");
        if tokens[0] == keyword {
            if tokens.len() < 2 {
                Err(BridgeError::ProtocolViolation)
            } else {
                assert(texts(tokens@)[1] == tokens@[1]@);
                let pondermove = find_ponder(&tokens);
                Ok(EngSend::Bestmove(Bestmove { bestmove: tokens[1].clone(), pondermove }))
            }
        } else {
            Ok(EngSend::Info(Info { raw: String::from_str(value) }))
        }
    }
}

/// The UCI line that starts a search under `limit`. A node count is sent
/// as a depth.
pub open spec fn go_line(limit: Limit) -> Seq<char> {
    match limit {
        Limit::Movetime(t) => "go movetime "@ + decimal(t as nat) + "\n"@,
        Limit::Depth(d) => "go depth "@ + decimal(d as nat) + "\n"@,
        Limit::Node(n) => "go depth "@ + decimal(n as nat) + "\n"@,
    }
}

/// The UCI line that stops a search.
pub open spec fn stop_line() -> Seq<char> {
    "stop\n"@
}

/// The UCI line that sets the engine's board to the position `fen`.
pub open spec fn position_line(fen: Seq<char>) -> Seq<char> {
    "position fen "@ + fen + "\n"@
}

/// The UCI line that gives the option `name` the value `value`.
pub open spec fn setoption_line(name: Seq<char>, value: Seq<char>) -> Seq<char> {
    "setoption name "@ + name + " value "@ + value + "\n"@
}

/// The commands for the engine that have been issued and not yet written to
/// it. Its view is their text, in the order in which they were issued.
pub struct EngineInput {
    text: String,
}

impl View for EngineInput {
    type V = Seq<char>;

    closed spec fn view(&self) -> Seq<char> {
        self.text@
    }
}

impl EngineInput {
    /// No command issued.
    pub fn new() -> (r: Self)
        ensures
            r@ == Seq::<char>::empty(),
    {
        EngineInput { text: String::new() }
    }

    /// Issues `s` as it is. A command has to bring its own line end.
    pub fn send_single_line(&mut self, s: &str)
        ensures
            final(self)@ == old(self)@ + s@,
    {
        self.text.append(s);
    }

    /// Issues the command that starts a search under `limit`.
    pub fn go(&mut self, limit: Limit)
        ensures
            final(self)@ == old(self)@ + go_line(limit),
    {
        let number = match limit {
            Limit::Movetime(t) => {
                self.send_single_line("go movetime ");
                t
            },
            Limit::Depth(d) => {
                self.send_single_line("go depth ");
                d
            },
            Limit::Node(n) => {
                self.send_single_line("go depth ");
                n
            },
        };
        self.send_single_line(u32_to_text(number).as_str());
        self.send_single_line("\n");
        assert(self@ =~= old(self)@ + go_line(limit));
    }

    /// Issues the command that stops a search.
    pub fn stop(&mut self)
        ensures
            final(self)@ == old(self)@ + stop_line(),
    {
        self.send_single_line("stop\n");
    }

    /// Issues the command that sets the engine's board to `pos`.
    pub fn update_pos(&mut self, pos: &EnginePos)
        ensures
            final(self)@ == old(self)@ + position_line(pos@),
    {
        self.send_single_line("position fen ");
        self.send_single_line(pos.fen());
        self.send_single_line("\n");
        assert(self@ =~= old(self)@ + position_line(pos@));
    }

    /// Issues the command that gives the option `name` the value `value`.
    pub fn setoption(&mut self, name: &str, value: &str)
        ensures
            final(self)@ == old(self)@ + setoption_line(name@, value@),
    {
        self.send_single_line("setoption name ");
        self.send_single_line(name);
        self.send_single_line(" value ");
        self.send_single_line(value);
        self.send_single_line("\n");
        assert(self@ =~= old(self)@ + setoption_line(name@, value@));
    }

    /// Hands over the text that is to be written to the engine, after which
    /// nothing is waiting.
    pub fn take(&mut self) -> (r: String)
        ensures
            r@ == old(self)@,
            final(self)@ == Seq::<char>::empty(),
    {
        let mut r = String::new();
        core::mem::swap(&mut r, &mut self.text);
        r
    }
}

/// The byte that ends a line of engine output.
pub const LINE_END: u8 = 10;

/// Whether a whole line is waiting in `pending`.
pub open spec fn has_line(pending: Seq<u8>) -> bool {
    span(pending, LINE_END) < pending.len()
}

/// The first line in `pending`, without its line end.
pub open spec fn first_line(pending: Seq<u8>) -> Seq<u8> {
    pending.subrange(0, span(pending, LINE_END) as int)
}

/// What follows the first line and its line end.
pub open spec fn after_line(pending: Seq<u8>) -> Seq<u8> {
    pending.subrange(span(pending, LINE_END) as int + 1, pending.len() as int)
}

/// A line that arrives in two pieces is still one line: while only the
/// first piece is there no line is seen, and once the second has been fed
/// behind it the line comes out whole, with what followed it left waiting.
pub proof fn lemma_line_in_two_reads(
    first: Seq<u8>,
    second: Seq<u8>,
    line: Seq<u8>,
    rest: Seq<u8>,
)
    requires
        first + second == line + seq![LINE_END] + rest,
        first.len() <= line.len(),
        forall|i: int| 0 <= i < line.len() ==> line[i] != LINE_END,
    ensures
        !has_line(first),
        has_line(first + second),
        first_line(first + second) == line,
        after_line(first + second) == rest,
{
    let whole = first + second;
    assert forall|i: int| 0 <= i < line.len() implies whole[i] != LINE_END by {
        assert(whole[i] == (line + seq![LINE_END] + rest)[i]);
    }
    assert(whole[line.len() as int] == LINE_END) by {
        assert(whole[line.len() as int] == (line + seq![LINE_END] + rest)[line.len() as int]);
    }
    assert forall|i: int| 0 <= i < first.len() implies first[i] != LINE_END by {
        assert(first[i] == whole[i]);
    }
    lemma_span_is(first, LINE_END, first.len() as int);
    lemma_span_is(whole, LINE_END, line.len() as int);
    assert(first_line(whole) =~= line);
    assert(after_line(whole) =~= rest);
}

/// What the bytes of one line mean: they must be UTF-8, and the text must
/// decode.
pub open spec fn line_result(line: Seq<u8>) -> Result<EngSendView, BridgeError> {
    if valid_utf8(line) {
        decode_line(decode_utf8(line))
    } else {
        Err(BridgeError::ProtocolViolation)
    }
}

/// The engine's output as far as it has been read and not yet decoded.
pub struct EngineOutput {
    inbox: Inbox,
}

impl View for EngineOutput {
    type V = InboxView;

    closed spec fn view(&self) -> InboxView {
        self.inbox@
    }
}

impl EngineOutput {
    /// Nothing read yet.
    pub fn new() -> (r: Self)
        ensures
            r@ == (InboxView { pending: Seq::empty(), closed: false }),
    {
        EngineOutput { inbox: Inbox::new() }
    }

    /// Adds what one read of the engine's output returned. A line may
    /// arrive in any number of pieces.
    pub fn feed(&mut self, bytes: &[u8])
        ensures
            final(self)@ == (InboxView { pending: old(self)@.pending + bytes@, ..old(self)@ }),
    {
        self.inbox.feed(bytes);
    }

    /// Records that the engine has closed its output.
    pub fn close(&mut self)
        ensures
            final(self)@ == (InboxView { closed: true, ..old(self)@ }),
    {
        self.inbox.close();
    }

    /// Takes the first whole line out of what is waiting and returns it
    /// without its line end. `None`, with nothing changed, where no line end
    /// has arrived yet.
    pub fn read_line(&mut self) -> (r: Option<Vec<u8>>)
        ensures
            has_line(old(self)@.pending) ==> r.is_some() && r.unwrap()@ == first_line(
                old(self)@.pending,
            ) && final(self)@ == (InboxView {
                pending: after_line(old(self)@.pending),
                ..old(self)@
            }),
            !has_line(old(self)@.pending) ==> r.is_none() && final(self)@ == old(self)@,
    {
        let n = self.inbox.len();
        let mut i: usize = 0;
        while i < n
            invariant
                i <= n,
                n == self@.pending.len(),
                *self == *old(self),
                forall|j: int| 0 <= j < i ==> self@.pending[j] != LINE_END,
            decreases n - i,
        {
            if self.inbox.bytes()[i] == LINE_END {
                proof {
                    lemma_span_is(self@.pending, LINE_END, i as int);
                }
                let line = self.inbox.take(i);
                let _ = self.inbox.take(1);
                assert(self@.pending =~= after_line(old(self)@.pending));
                return Some(line);
            }
            i += 1;
        }
        proof {
            lemma_span_is(self@.pending, LINE_END, n as int);
        }
        None
    }

    /// Decodes the next line of engine output. `Ok(None)` means that no whole
    /// line is waiting and the engine may still send one. Once the engine has
    /// closed its output, that is `EngineStreamClosed` instead: bytes behind
    /// the last line end are never decoded.
    pub fn input(&mut self) -> (r: Result<Option<EngSend>, BridgeError>)
        ensures
            has_line(old(self)@.pending) ==> final(self)@ == (InboxView {
                pending: after_line(old(self)@.pending),
                ..old(self)@
            }) && match r {
                Ok(Some(e)) => line_result(first_line(old(self)@.pending)) == Ok::<
                    EngSendView,
                    BridgeError,
                >(e@),
                Ok(None) => false,
                Err(x) => line_result(first_line(old(self)@.pending)) == Err::<
                    EngSendView,
                    BridgeError,
                >(x),
            },
            !has_line(old(self)@.pending) ==> final(self)@ == old(self)@
                && r == (if old(self)@.closed {
                Err::<Option<EngSend>, BridgeError>(BridgeError::EngineStreamClosed)
            } else {
                Ok::<Option<EngSend>, BridgeError>(None)
            }),
    {
        match self.read_line() {
            Some(line) => match text_of_utf8(line) {
                Some(text) => match EngSend::from(text.as_str()) {
                    Ok(e) => Ok(Some(e)),
                    Err(x) => Err(x),
                },
                None => Err(BridgeError::ProtocolViolation),
            },
            None => if self.inbox.is_closed() {
                Err(BridgeError::EngineStreamClosed)
            } else {
                Ok(None)
            },
        }
    }
}

} // verus!
