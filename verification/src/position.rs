//! The tracked board position.
//!
//! The rules of chess are the `shakmaty` crate's. The tracker holds the
//! position as the FEN text that `shakmaty` writes for it, which is all that
//! the bridge ever reads of a position, and asks `shakmaty` for each change.

use crate::error::BridgeError;
use crate::text::texts;
use shakmaty::fen::Fen;
use shakmaty::san::San;
use shakmaty::{CastlingMode, Chess, EnPassantMode, Position};
use vstd::prelude::*;
use vstd::string::*;

verus! {

/// The FEN of the position that the text `text` sets up under standard
/// castling rules, or `None` where `shakmaty` cannot read `text` as a FEN or
/// refuses the position.
pub uninterp spec fn fen_of_text(text: Seq<char>) -> Option<Seq<char>>;

/// The FEN of the position reached from the position `fen` by the move
/// `mv`, or `None` where `fen` sets up no position, `mv` is no move in
/// algebraic notation, or it matches no legal move, or more than one.
pub uninterp spec fn fen_after_move(fen: Seq<char>, mv: Seq<char>) -> Option<Seq<char>>;

/// The FEN of the position from which every game of chess starts.
pub open spec fn initial_fen() -> Seq<char> {
    "rnbqkbnr/pppppppp/8/8/8/8/PPPPPPPP/RNBQKBNR w KQkq - 0 1"@
}

/// `Chess::new`, written out by `Fen::from_position`: the starting
/// position, whose FEN is the one that `initial_fen` spells.
#[verifier::external_body]
fn starting_fen() -> (r: String)
    ensures
        r@ == initial_fen(),
{
    Fen::from_position(Chess::new(), EnPassantMode::Legal).to_string()
}

/// `str::parse::<Fen>` and `Fen::into_position` with
/// `CastlingMode::Standard`, then `Fen::from_position` with
/// `EnPassantMode::Legal`: the position that `text` sets up, written back as
/// a FEN. `None` where either of the first two steps reports an error. The
/// result depends on `text` alone and is named `fen_of_text`.
#[verifier::external_body]
fn read_fen(text: &str) -> (r: Option<String>)
    ensures
        match r {
            Some(f) => fen_of_text(text@) == Some(f@),
            None => fen_of_text(text@).is_none(),
        },
{
    let pos: Chess = text.parse::<Fen>().ok()?.into_position(CastlingMode::Standard).ok()?;
    Some(Fen::from_position(pos, EnPassantMode::Legal).to_string())
}

/// Sets up `fen` as `read_fen` does, reads `mv` with `str::parse::<San>`,
/// resolves it with `San::to_move`, plays it with
/// `Position::play_unchecked` and writes the new position with
/// `Fen::from_position`. `None` where any step before the move is played
/// reports an error. The result depends on the two texts alone and is named
/// `fen_after_move`.
#[verifier::external_body]
fn play_san(fen: &str, mv: &str) -> (r: Option<String>)
    ensures
        match r {
            Some(f) => fen_after_move(fen@, mv@) == Some(f@),
            None => fen_after_move(fen@, mv@).is_none(),
        },
{
    let mut pos: Chess = fen.parse::<Fen>().ok()?.into_position(CastlingMode::Standard).ok()?;
    let m = mv.parse::<San>().ok()?.to_move(&pos).ok()?;
    pos.play_unchecked(&m);
    Some(Fen::from_position(pos, EnPassantMode::Legal).to_string())
}

/// The position reached from `fen` by playing `moves` in order, or `None`
/// where one of them cannot be played.
pub open spec fn replay(fen: Seq<char>, moves: Seq<Seq<char>>) -> Option<Seq<char>>
    decreases moves.len(),
{
    if moves.len() == 0 {
        Some(fen)
    } else {
        match fen_after_move(fen, moves[0]) {
            Some(next) => replay(next, moves.drop_first()),
            None => None,
        }
    }
}

/// Moves accumulate: playing one list and then another is playing the two
/// as one list, from the same position.
pub proof fn lemma_replay_concat(fen: Seq<char>, first: Seq<Seq<char>>, second: Seq<Seq<char>>)
    ensures
        replay(fen, first + second) == match replay(fen, first) {
            Some(reached) => replay(reached, second),
            None => None,
        },
    decreases first.len(),
{
    if first.len() == 0 {
        assert(first + second =~= second);
    } else {
        let all = first + second;
        assert(all[0] == first[0]);
        assert(all.drop_first() =~= first.drop_first() + second);
        match fen_after_move(fen, first[0]) {
            Some(next) => {
                lemma_replay_concat(next, first.drop_first(), second);
            },
            None => {},
        }
    }
}

/// The position that the bridge tracks on behalf of the engine. Its view is
/// the FEN of that position.
pub struct EnginePos {
    fen: String,
}

impl View for EnginePos {
    type V = Seq<char>;

    closed spec fn view(&self) -> Seq<char> {
        self.fen@
    }
}

impl EnginePos {
    /// The starting position.
    pub fn new() -> (r: Self)
        ensures
            r@ == initial_fen(),
    {
        EnginePos { fen: starting_fen() }
    }

    /// The FEN of the tracked position.
    pub fn fen(&self) -> (r: &str)
        ensures
            r@ == self@,
    {
        self.fen.as_str()
    }

    /// Plays `mv`, given in algebraic notation, from the tracked position. A
    /// move that cannot be played is an error and leaves the position as it
    /// was.
    pub fn play_move(&mut self, mv: &str) -> (r: Result<(), BridgeError>)
        ensures
            match fen_after_move(old(self)@, mv@) {
                Some(next) => r == Ok::<(), BridgeError>(()) && final(self)@ == next,
                None => r == Err::<(), BridgeError>(BridgeError::IllegalPosition) && final(self)@
                    == old(self)@,
            },
    {
        match play_san(self.fen.as_str(), mv) {
            Some(next) => {
                self.fen = next;
                Ok(())
            },
            None => Err(BridgeError::IllegalPosition),
        }
    }

    /// Plays `moves` in order, each from the position that the one before it
    /// led to. Where one of them cannot be played, none is: the tracked
    /// position stays as it was before the call.
    pub fn play_moves(&mut self, moves: &Vec<String>) -> (r: Result<(), BridgeError>)
        ensures
            match replay(old(self)@, texts(moves@)) {
                Some(reached) => r == Ok::<(), BridgeError>(()) && final(self)@ == reached,
                None => r == Err::<(), BridgeError>(BridgeError::IllegalPosition) && final(self)@
                    == old(self)@,
            },
    {
        let mut current = self.fen.clone();
        let mut i: usize = 0;
        assert(texts(moves@).subrange(0, moves@.len() as int) =~= texts(moves@));
        while i < moves.len()
            invariant
                i <= moves.len(),
                *self == *old(self),
                replay(old(self)@, texts(moves@)) == replay(
                    current@,
                    texts(moves@).subrange(i as int, moves@.len() as int),
                ),
            decreases moves.len() - i,
        {
            proof {
                let rest = texts(moves@).subrange(i as int, moves@.len() as int);
                assert(rest[0] == moves@[i as int]@);
                assert(rest.drop_first() =~= texts(moves@).subrange(i + 1, moves@.len() as int));
            }
            match play_san(current.as_str(), moves[i].as_str()) {
                Some(next) => {
                    current = next;
                },
                None => {
                    return Err(BridgeError::IllegalPosition);
                },
            }
            i += 1;
        }
        self.fen = current;
        Ok(())
    }

    /// Replaces the tracked position by the one that `fen` sets up. A text
    /// that sets up no position is an error and leaves the tracked position
    /// as it was.
    pub fn set_pos(&mut self, fen: &str) -> (r: Result<(), BridgeError>)
        ensures
            match fen_of_text(fen@) {
                Some(set) => r == Ok::<(), BridgeError>(()) && final(self)@ == set,
                None => r == Err::<(), BridgeError>(BridgeError::IllegalPosition) && final(self)@
                    == old(self)@,
            },
    {
        match read_fen(fen) {
            Some(set) => {
                self.fen = set;
                Ok(())
            },
            None => Err(BridgeError::IllegalPosition),
        }
    }
}

} // verus!
