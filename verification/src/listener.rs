//! The two relays of a session. One takes the extension's requests, keeps
//! the position and issues commands to the engine; the other takes the
//! engine's lines and makes frames for the extension. Neither reads or writes
//! a stream: each works through what has been fed to its buffer and stops
//! where more has to be read.

use crate::buffer::InboxView;
use crate::engine::{
    after_line, first_line, go_line, has_line, lemma_line_in_two_reads, line_result,
    position_line, stop_line, EngSendView, EngineInput, EngineOutput, Limit, LINE_END,
};
use crate::error::BridgeError;
use crate::frame::frame;
use crate::io::plugin::{
    left_over, lemma_receive_framed, received, request_of, result_frame, Inp, InpView, PosInp,
    PosInpView, Receiver, Sender,
};
use vstd::endian::endianness;
use crate::position::{fen_of_text, lemma_replay_concat, replay, EnginePos};
use vstd::prelude::*;

verus! {

/// How the extension-facing relay stands when it has worked through what
/// was fed to it.
#[derive(Debug, Clone, Copy, PartialEq, Eq, Structural)]
pub enum Relay {
    /// The next request has not arrived, or not all of it.
    Waiting,
    /// The extension has closed its stream after a whole request: the
    /// session is over, in good order.
    Finished,
}

/// The position that is tracked once the request `inp` has been handled
/// with `fen` tracked before: a FEN replaces it, moves are played from it, and
/// anything else leaves it. `None` where the request cannot be followed.
pub open spec fn position_after(fen: Seq<char>, inp: InpView) -> Option<Seq<char>> {
    match inp {
        InpView::Pos(PosInpView::Fen(text)) => fen_of_text(text),
        InpView::Pos(PosInpView::Moves(moves)) => replay(fen, moves),
        InpView::Go => Some(fen),
        InpView::Stop => Some(fen),
    }
}

/// The commands that the request `inp` has the engine sent, with `fen`
/// tracked: a search is started on the tracked position under the session's
/// limit, a stop is passed on, and a change of position says nothing yet.
pub open spec fn commands_for(fen: Seq<char>, inp: InpView, limit: Limit) -> Seq<char> {
    match inp {
        InpView::Go => position_line(fen) + go_line(limit),
        InpView::Stop => stop_line(),
        InpView::Pos(_) => Seq::empty(),
    }
}

/// The position that is tracked once the requests `requests` have been
/// handled in order, with `fen` tracked before the first. `None` where one of
/// them cannot be followed.
pub open spec fn position_reached(fen: Seq<char>, requests: Seq<InpView>) -> Option<Seq<char>>
    decreases requests.len(),
{
    if requests.len() == 0 {
        Some(fen)
    } else {
        match position_after(fen, requests[0]) {
            Some(next) => position_reached(next, requests.drop_first()),
            None => None,
        }
    }
}

/// One request to play each of the lists `lists`, in order.
pub open spec fn moves_requests(lists: Seq<Seq<Seq<char>>>) -> Seq<InpView> {
    lists.map_values(|moves: Seq<Seq<char>>| InpView::Pos(PosInpView::Moves(moves)))
}

/// The moves of the lists `lists`, in order, as one list.
pub open spec fn all_moves(lists: Seq<Seq<Seq<char>>>) -> Seq<Seq<char>>
    decreases lists.len(),
{
    if lists.len() == 0 {
        Seq::empty()
    } else {
        lists[0] + all_moves(lists.drop_first())
    }
}

/// Handling one run of requests and then another is handling the two as
/// one run.
pub proof fn lemma_reached_concat(fen: Seq<char>, first: Seq<InpView>, second: Seq<InpView>)
    ensures
        position_reached(fen, first + second) == match position_reached(fen, first) {
            Some(reached) => position_reached(reached, second),
            None => None,
        },
    decreases first.len(),
{
    if first.len() == 0 {
        assert(first + second =~= second);
    } else {
        let all = first + second;
        assert(all[0] == first[0]);
        assert(all.drop_first() =~= first.drop_first() + second);
        match position_after(fen, first[0]) {
            Some(next) => {
                lemma_reached_concat(next, first.drop_first(), second);
            },
            None => {},
        }
    }
}

/// Requests to play moves never reset the position: after any number of
/// them the tracked position is the one reached by playing all their moves,
/// in order, from the position tracked before the first.
pub proof fn lemma_moves_accumulate(fen: Seq<char>, lists: Seq<Seq<Seq<char>>>)
    ensures
        position_reached(fen, moves_requests(lists)) == replay(fen, all_moves(lists)),
    decreases lists.len(),
{
    if lists.len() > 0 {
        let requests = moves_requests(lists);
        assert(requests[0] == InpView::Pos(PosInpView::Moves(lists[0])));
        assert(requests.drop_first() =~= moves_requests(lists.drop_first()));
        lemma_replay_concat(fen, lists[0], all_moves(lists.drop_first()));
        match replay(fen, lists[0]) {
            Some(next) => {
                lemma_moves_accumulate(next, lists.drop_first());
            },
            None => {},
        }
    }
}

/// A FEN forgets what came before it: after requests that could be
/// followed, then a FEN, then requests to play moves, the tracked position is
/// the one reached from that FEN by the moves sent after it, and by no
/// others.
pub proof fn lemma_position_since_fen(
    fen: Seq<char>,
    before: Seq<InpView>,
    text: Seq<char>,
    lists: Seq<Seq<Seq<char>>>,
)
    requires
        position_reached(fen, before).is_some(),
    ensures
        position_reached(fen, before + seq![InpView::Pos(PosInpView::Fen(text))] + moves_requests(lists))
            == match fen_of_text(text) {
            Some(set) => replay(set, all_moves(lists)),
            None => None,
        },
{
    let reset = seq![InpView::Pos(PosInpView::Fen(text))];
    let reached = position_reached(fen, before).unwrap();
    lemma_reached_concat(fen, before + reset, moves_requests(lists));
    lemma_reached_concat(fen, before, reset);
    assert(reset.drop_first() =~= Seq::<InpView>::empty());
    assert(position_reached(reached, reset) == fen_of_text(text)) by {
        match fen_of_text(text) {
            Some(set) => {
                assert(position_reached(set, reset.drop_first()) == Some(set));
            },
            None => {},
        }
    }
    match fen_of_text(text) {
        Some(set) => {
            lemma_moves_accumulate(set, lists);
        },
        None => {},
    }
}

/// Handles one request. A request that cannot be followed is an error that
/// changes neither the position nor what the engine is sent.
pub fn handle_request(pos: &mut EnginePos, einp: &mut EngineInput, limit: Limit, inp: Inp) -> (r:
    Result<(), BridgeError>)
    ensures
        match position_after(old(pos)@, inp@) {
            Some(fen) => r == Ok::<(), BridgeError>(()) && final(pos)@ == fen && final(einp)@
                == old(einp)@ + commands_for(old(pos)@, inp@, limit),
            None => r == Err::<(), BridgeError>(BridgeError::IllegalPosition) && final(pos)@
                == old(pos)@ && final(einp)@ == old(einp)@,
        },
{
    match inp {
        Inp::Pos(p) => {
            assert(old(einp)@ + Seq::<char>::empty() =~= old(einp)@);
            match p {
                PosInp::Fen(fen) => pos.set_pos(fen.as_str()),
                PosInp::Moves(moves) => pos.play_moves(&moves),
            }
        },
        Inp::Go => {
            einp.update_pos(pos);
            einp.go(limit);
            assert(einp@ =~= old(einp)@ + commands_for(old(pos)@, inp@, limit));
            Ok(())
        },
        Inp::Stop => {
            einp.stop();
            Ok(())
        },
    }
}

/// The state of the extension-facing relay: what of the extension's stream
/// is waiting, the tracked position, and the commands issued to the engine.
pub struct Session {
    pub waiting: InboxView,
    pub fen: Seq<char>,
    pub issued: Seq<char>,
}

/// The course of the extension-facing relay from the state `s`: it handles
/// the requests that are waiting, one after the other, and ends at the first
/// that is no request or cannot be followed, or where no whole request is
/// left.
pub open spec fn relayed(s: Session, limit: Limit) -> (Result<Relay, BridgeError>, Session)
    decreases s.waiting.pending.len(),
{
    match received(s.waiting) {
        Err(x) => (Err(x), Session { waiting: left_over(s.waiting), ..s }),
        Ok(None) => (
            Ok(
                if s.waiting.closed && s.waiting.pending.len() == 0 {
                    Relay::Finished
                } else {
                    Relay::Waiting
                },
            ),
            s,
        ),
        Ok(Some(inp)) => match position_after(s.fen, inp) {
            None => (
                Err(BridgeError::IllegalPosition),
                Session { waiting: left_over(s.waiting), ..s },
            ),
            Some(fen) => relayed(
                Session {
                    waiting: left_over(s.waiting),
                    fen,
                    issued: s.issued + commands_for(s.fen, inp, limit),
                },
                limit,
            ),
        },
    }
}

/// The extension-facing relay. It handles every request that is waiting in
/// `precv`, in order: it keeps `pos` up to date and issues to `einp` what the
/// engine has to be told. It ends with `Waiting` where more has to be read,
/// with `Finished` where the extension has closed its stream, and with an
/// error at the first request that breaks the protocol or cannot be
/// followed; nothing is issued for that request or after it.
pub fn plugin_listener(
    precv: &mut Receiver,
    pos: &mut EnginePos,
    einp: &mut EngineInput,
    limit: Limit,
) -> (r: Result<Relay, BridgeError>)
    ensures
        (r, Session { waiting: final(precv)@, fen: final(pos)@, issued: final(einp)@ })
            == relayed(
            Session { waiting: old(precv)@, fen: old(pos)@, issued: old(einp)@ },
            limit,
        ),
{
    loop
        invariant
            relayed(Session { waiting: precv@, fen: pos@, issued: einp@ }, limit) == relayed(
                Session { waiting: old(precv)@, fen: old(pos)@, issued: old(einp)@ },
                limit,
            ),
        decreases precv@.pending.len(),
    {
        match precv.receive() {
            Err(x) => {
                return Err(x);
            },
            Ok(None) => {
                return Ok(if precv.is_finished() { Relay::Finished } else { Relay::Waiting });
            },
            Ok(Some(inp)) => {
                match handle_request(pos, einp, limit, inp) {
                    Err(x) => {
                        return Err(x);
                    },
                    Ok(()) => {},
                }
            },
        }
    }
}

/// A request that cannot be followed ends the relay on the spot: the
/// position stays, nothing is issued for it, and whatever follows it in the
/// stream is never looked at.
pub proof fn lemma_failure_issues_nothing(s: Session, limit: Limit, inp: InpView)
    requires
        received(s.waiting) == Ok::<Option<InpView>, BridgeError>(Some(inp)),
        position_after(s.fen, inp).is_none(),
    ensures
        relayed(s, limit) == (
            Err::<Relay, BridgeError>(BridgeError::IllegalPosition),
            Session { waiting: left_over(s.waiting), ..s },
        ),
{
}

/// The bytes of a stream that holds the payloads `payloads`, each in a
/// frame of its own, in order.
pub open spec fn frames(payloads: Seq<Seq<u8>>) -> Seq<u8>
    decreases payloads.len(),
{
    if payloads.len() == 0 {
        Seq::empty()
    } else {
        frame(endianness(), payloads[0]) + frames(payloads.drop_first())
    }
}

/// The commands that the requests `requests` have the engine sent, in
/// order, with `fen` tracked before the first. They end before the first
/// request that cannot be followed.
pub open spec fn commands_of(fen: Seq<char>, requests: Seq<InpView>, limit: Limit) -> Seq<char>
    decreases requests.len(),
{
    if requests.len() == 0 {
        Seq::empty()
    } else {
        match position_after(fen, requests[0]) {
            Some(next) => commands_for(fen, requests[0], limit) + commands_of(
                next,
                requests.drop_first(),
                limit,
            ),
            None => Seq::empty(),
        }
    }
}

/// The relay over a stream of whole frames. Where every payload is a
/// request and every request can be followed, the relay uses the stream up,
/// tracks the position that the requests lead to and issues their commands in
/// order. Where one of them cannot be followed, the relay ends there with
/// `IllegalPosition`, and what it has issued are the commands of the requests
/// before that one: none for it, and none for any that came after it.
pub proof fn lemma_relay_of_frames(
    payloads: Seq<Seq<u8>>,
    requests: Seq<InpView>,
    closed: bool,
    fen: Seq<char>,
    issued: Seq<char>,
    limit: Limit,
)
    requires
        payloads.len() == requests.len(),
        forall|i: int|
            0 <= i < payloads.len() ==> (#[trigger] payloads[i]).len() <= u32::MAX && request_of(
                payloads[i],
            ) == Some(requests[i]),
    ensures
        relayed(
            Session { waiting: InboxView { pending: frames(payloads), closed }, fen, issued },
            limit,
        ).1.issued == issued + commands_of(fen, requests, limit),
        match position_reached(fen, requests) {
            Some(reached) => relayed(
                Session { waiting: InboxView { pending: frames(payloads), closed }, fen, issued },
                limit,
            ) == (
                Ok::<Relay, BridgeError>(if closed { Relay::Finished } else { Relay::Waiting }),
                Session {
                    waiting: InboxView { pending: Seq::empty(), closed },
                    fen: reached,
                    issued: issued + commands_of(fen, requests, limit),
                },
            ),
            None => relayed(
                Session { waiting: InboxView { pending: frames(payloads), closed }, fen, issued },
                limit,
            ).0 == Err::<Relay, BridgeError>(BridgeError::IllegalPosition),
        },
    decreases payloads.len(),
{
    let start = Session { waiting: InboxView { pending: frames(payloads), closed }, fen, issued };
    if payloads.len() == 0 {
        assert(issued + commands_of(fen, requests, limit) =~= issued);
    } else {
        let later = payloads.drop_first();
        assert(payloads[0].len() <= u32::MAX && request_of(payloads[0]) == Some(requests[0]));
        lemma_receive_framed(payloads[0], frames(later), closed);
        match position_after(fen, requests[0]) {
            Some(next) => {
                let then = issued + commands_for(fen, requests[0], limit);
                assert forall|i: int| 0 <= i < later.len() implies (#[trigger] later[i]).len()
                    <= u32::MAX && request_of(later[i]) == Some(requests.drop_first()[i]) by {
                    assert(later[i] == payloads[i + 1]);
                }
                lemma_relay_of_frames(later, requests.drop_first(), closed, next, then, limit);
                assert(then + commands_of(next, requests.drop_first(), limit) =~= issued
                    + commands_of(fen, requests, limit));
            },
            None => {
                assert(issued + commands_of(fen, requests, limit) =~= issued);
            },
        }
    }
}

/// The relay only ever adds to what the engine is sent: whatever had been
/// issued before still stands, unchanged, at the front of what is issued
/// after, however the relay ends.
pub proof fn lemma_relay_extends(s: Session, limit: Limit)
    ensures
        s.issued.is_prefix_of(relayed(s, limit).1.issued),
    decreases s.waiting.pending.len(),
{
    match received(s.waiting) {
        Ok(Some(inp)) => match position_after(s.fen, inp) {
            Some(fen) => {
                let next = Session {
                    waiting: left_over(s.waiting),
                    fen,
                    issued: s.issued + commands_for(s.fen, inp, limit),
                };
                lemma_relay_extends(next, limit);
                assert(s.issued.is_prefix_of(next.issued));
            },
            None => {},
        },
        _ => {},
    }
}

/// The state of the engine-facing relay: what of the engine's output is
/// waiting, and the frames made for the extension.
pub struct Forwarding {
    pub waiting: InboxView,
    pub framed: Seq<u8>,
}

/// The course of the engine-facing relay from the state `s`: it turns the
/// lines that are waiting into frames, one after the other, and ends at the
/// first that cannot be decoded or framed, or where no whole line is left,
/// which on a closed stream is an error.
pub open spec fn forwarded(s: Forwarding) -> (Result<(), BridgeError>, Forwarding)
    decreases s.waiting.pending.len(),
{
    if has_line(s.waiting.pending) {
        let rest = InboxView { pending: after_line(s.waiting.pending), ..s.waiting };
        match line_result(first_line(s.waiting.pending)) {
            Err(x) => (Err(x), Forwarding { waiting: rest, ..s }),
            Ok(e) => match result_frame(e) {
                None => (Err(BridgeError::ProtocolViolation), Forwarding { waiting: rest, ..s }),
                Some(f) => forwarded(Forwarding { waiting: rest, framed: s.framed + f }),
            },
        }
    } else if s.waiting.closed {
        (Err(BridgeError::EngineStreamClosed), s)
    } else {
        (Ok(()), s)
    }
}

/// The bytes of a stream that holds the lines `lines`, each with its line
/// end, in order.
pub open spec fn stream_of_lines(lines: Seq<Seq<u8>>) -> Seq<u8>
    decreases lines.len(),
{
    if lines.len() == 0 {
        Seq::empty()
    } else {
        lines[0] + seq![LINE_END] + stream_of_lines(lines.drop_first())
    }
}

/// The frames of the results `results`, in order.
pub open spec fn result_frames(results: Seq<EngSendView>) -> Seq<u8>
    decreases results.len(),
{
    if results.len() == 0 {
        Seq::empty()
    } else {
        result_frame(results[0]).unwrap() + result_frames(results.drop_first())
    }
}

/// The relay over a stream of whole lines. Where every line decodes and
/// every result fits into a frame, the relay uses the stream up and makes one
/// frame for each line, in the order of the lines. It then waits for more, or
/// fails where the engine has closed its output.
pub proof fn lemma_forward_of_lines(
    lines: Seq<Seq<u8>>,
    results: Seq<EngSendView>,
    closed: bool,
    framed: Seq<u8>,
)
    requires
        lines.len() == results.len(),
        forall|i: int, j: int|
            0 <= i < lines.len() && 0 <= j < lines[i].len() ==> (#[trigger] lines[i][j])
                != LINE_END,
        forall|i: int|
            0 <= i < lines.len() ==> line_result(#[trigger] lines[i]) == Ok::<
                EngSendView,
                BridgeError,
            >(results[i]) && result_frame(results[i]).is_some(),
    ensures
        forwarded(
            Forwarding { waiting: InboxView { pending: stream_of_lines(lines), closed }, framed },
        ) == (
            if closed {
                Err::<(), BridgeError>(BridgeError::EngineStreamClosed)
            } else {
                Ok::<(), BridgeError>(())
            },
            Forwarding {
                waiting: InboxView { pending: Seq::empty(), closed },
                framed: framed + result_frames(results),
            },
        ),
    decreases lines.len(),
{
    if lines.len() == 0 {
        assert(framed + result_frames(results) =~= framed);
    } else {
        let later = lines.drop_first();
        let rest = stream_of_lines(later);
        assert forall|j: int| 0 <= j < lines[0].len() implies lines[0][j] != LINE_END by {
            assert(lines[0][j] != LINE_END);
        }
        lemma_line_in_two_reads(Seq::empty(), stream_of_lines(lines), lines[0], rest);
        assert(Seq::<u8>::empty() + stream_of_lines(lines) =~= stream_of_lines(lines));
        assert(line_result(lines[0]) == Ok::<EngSendView, BridgeError>(results[0])
            && result_frame(results[0]).is_some());
        let then = framed + result_frame(results[0]).unwrap();
        assert forall|i: int, j: int| 0 <= i < later.len() && 0 <= j < later[i].len() implies (
        #[trigger] later[i][j]) != LINE_END by {
            assert(later[i] == lines[i + 1]);
            assert(lines[i + 1][j] != LINE_END);
        }
        assert forall|i: int| 0 <= i < later.len() implies line_result(#[trigger] later[i])
            == Ok::<EngSendView, BridgeError>(results.drop_first()[i]) && result_frame(
            results.drop_first()[i],
        ).is_some() by {
            assert(later[i] == lines[i + 1]);
            assert(line_result(lines[i + 1]) == Ok::<EngSendView, BridgeError>(results[i + 1]));
        }
        lemma_forward_of_lines(later, results.drop_first(), closed, then);
        assert(then + result_frames(results.drop_first()) =~= framed + result_frames(results));
    }
}

/// The engine-facing relay. It decodes every line that is waiting in
/// `eout`, in order, and puts each into a frame in `psend`. It ends with
/// `Ok` where more has to be read, and with an error at the first line that
/// breaks the protocol, or where the engine has closed its output.
pub fn engine_listener(psend: &mut Sender, eout: &mut EngineOutput) -> (r: Result<
    (),
    BridgeError,
>)
    ensures
        (r, Forwarding { waiting: final(eout)@, framed: final(psend)@ }) == forwarded(
            Forwarding { waiting: old(eout)@, framed: old(psend)@ },
        ),
{
    loop
        invariant
            forwarded(Forwarding { waiting: eout@, framed: psend@ }) == forwarded(
                Forwarding { waiting: old(eout)@, framed: old(psend)@ },
            ),
        decreases eout@.pending.len(),
    {
        match eout.input() {
            Err(x) => {
                return Err(x);
            },
            Ok(None) => {
                return Ok(());
            },
            Ok(Some(e)) => {
                match psend.send(e) {
                    Err(x) => {
                        return Err(x);
                    },
                    Ok(()) => {},
                }
            },
        }
    }
}

} // verus!
