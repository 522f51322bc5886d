//! Turn order and the pending-selection state machine around the board.

use vstd::prelude::*;

use crate::board::{
    initial_model, kings_at_home, lemma_initial_kings_at_home, lemma_initial_model_wf,
    spec_step_captures_king, spec_step_ok, spec_step_post, Board,
};
use crate::pos::Pos;
use crate::side::Side;

verus! {

/// Whether the game is running or has ended, with the winning side if one
/// exists. Nothing transitions into the ending state yet: mate detection is
/// a deliberate non-goal.
#[derive(Clone, Copy, Debug, PartialEq, Eq)]
pub enum GameState {
    Playing,
    Ending(Option<Side>),
}

/// What one call of the controller did, in place of console diagnostics.
#[derive(Clone, Copy, Debug, PartialEq, Eq, Structural)]
pub enum GameEvent {
    /// No source square was pending.
    Idle,
    /// The pending source square holds a piece of the side to move and
    /// stays selected.
    Selected,
    /// The pending source square holds an enemy piece; the selection was
    /// cleared.
    NotYourTurn,
    /// The pending source square holds nothing; the selection was cleared.
    EmptySquare,
    /// The pending move was legal and has been played.
    Moved,
    /// The pending move was illegal; the board is unchanged.
    Rejected,
}

/// The game controller.
///
/// * `board_state`: current state of the board
/// * `current_turn`: which side takes the next move
/// * `unit_pos`: position of the unit to move, once selected
/// * `target_pos`: target position to move to, once selected
pub struct Game {
    pub game_state: GameState,
    pub board_state: Board,
    pub current_turn: Side,
    pub unit_pos: Option<Pos>,
    pub target_pos: Option<Pos>,
}

impl Game {
    /// The side to take the next move.
    pub open spec fn turn(self) -> Side {
        self.current_turn
    }

    /// The game phase.
    pub open spec fn state(self) -> GameState {
        self.game_state
    }

    /// Everything the controller relies on: a well-formed board, and
    /// pending squares that lie on the board.
    pub open spec fn wf(self) -> bool {
        &&& self.board_state.model().wf()
        &&& match self.unit_pos {
            Some(p) => p.spec_onboard(),
            None => true,
        }
        &&& match self.target_pos {
            Some(p) => p.spec_onboard(),
            None => true,
        }
    }

    /// Creates a new [`Game`] in the standard starting position, White to
    /// move, nothing selected.
    pub fn new() -> (r: Self)
        ensures
            r.board_state.model() == initial_model(),
            r.turn() == Side::White,
            r.state() == GameState::Playing,
            r.unit_pos is None,
            r.target_pos is None,
            r.wf(),
            kings_at_home(r.board_state.model()),
    {
        Self::default()
    }

    /// Gives back the current game state.
    pub fn get_game_state(&self) -> (r: GameState)
        ensures
            r == self.state(),
    {
        self.game_state
    }

    /// Gives back which side has to take the move in the current turn.
    pub fn get_current_turn(&self) -> (r: Side)
        ensures
            r == self.turn(),
    {
        self.current_turn
    }

    /// Drives the selection state machine one step, after `unit_pos` or
    /// `target_pos` changed.
    ///
    /// With only a source pending, the selection stands exactly when that
    /// square holds a piece of the side to move; otherwise it is cleared
    /// and nothing else changes. With source and destination pending, the
    /// move is attempted: on success the side to move flips; either way
    /// both selections are cleared and the returned event says what
    /// happened.
    pub fn game_controller(&mut self) -> (r: GameEvent)
        requires
            old(self).wf(),
        ensures
            final(self).state() == old(self).state(),
            ({
                let g = *old(self);
                match (g.unit_pos, g.target_pos) {
                    (Some(unit_pos), None) => {
                        &&& final(self).board_state.model() == g.board_state.model()
                        &&& final(self).turn() == g.turn()
                        &&& final(self).target_pos is None
                        &&& match g.board_state.model().at(unit_pos) {
                            Some(unit) => if unit.spec_side() == g.turn() {
                                r == GameEvent::Selected && final(self).unit_pos == Some(unit_pos)
                            } else {
                                r == GameEvent::NotYourTurn && final(self).unit_pos is None
                            },
                            None => r == GameEvent::EmptySquare && final(self).unit_pos is None,
                        }
                    },
                    (Some(unit_pos), Some(target_pos)) => {
                        &&& final(self).unit_pos is None
                        &&& final(self).target_pos is None
                        &&& match g.board_state.model().at(unit_pos) {
                            Some(_) => {
                                &&& final(self).board_state.model() == spec_step_post(
                                    g.board_state.model(),
                                    unit_pos,
                                    target_pos,
                                )
                                &&& if spec_step_ok(g.board_state.model(), unit_pos, target_pos) {
                                    r == GameEvent::Moved && final(self).turn()
                                        == g.turn().spec_oppose()
                                } else {
                                    r == GameEvent::Rejected && final(self).turn() == g.turn()
                                }
                            },
                            None => {
                                &&& r == GameEvent::EmptySquare
                                &&& final(self).board_state.model() == g.board_state.model()
                                &&& final(self).turn() == g.turn()
                            },
                        }
                    },
                    _ => r == GameEvent::Idle && *final(self) == g,
                }
            }),
            ({
                let g = *old(self);
                match (g.unit_pos, g.target_pos) {
                    (Some(unit_pos), Some(target_pos)) => match g.board_state.model().at(
                        unit_pos,
                    ) {
                        Some(_) => !spec_step_captures_king(
                            g.board_state.model(),
                            unit_pos,
                            target_pos,
                        ) ==> final(self).wf(),
                        None => final(self).wf(),
                    },
                    _ => final(self).wf(),
                }
            }),
    {
        match (self.unit_pos, self.target_pos) {
            (Some(unit_pos), None) => {
                if let Some(unit) = self.board_state.get_unit(&unit_pos) {
                    if unit.get_side() != self.current_turn {
                        self.unit_pos = None;
                        GameEvent::NotYourTurn
                    } else {
                        GameEvent::Selected
                    }
                } else {
                    self.unit_pos = None;
                    GameEvent::EmptySquare
                }
            },
            (Some(unit_pos), Some(target_pos)) => {
                let event: GameEvent;
                if self.board_state.get_unit(&unit_pos).is_some() {
                    if self.board_state.step_unit(&unit_pos, &target_pos) {
                        self.current_turn.swap();
                        event = GameEvent::Moved;
                    } else {
                        event = GameEvent::Rejected;
                    }
                } else {
                    event = GameEvent::EmptySquare;
                }
                self.unit_pos = None;
                self.target_pos = None;
                event
            },
            _ => GameEvent::Idle,
        }
    }
}

impl Default for Game {
    /// A fresh game: standard starting position, White to move, nothing
    /// selected.
    fn default() -> (r: Self)
        ensures
            r.board_state.model() == initial_model(),
            r.turn() == Side::White,
            r.state() == GameState::Playing,
            r.unit_pos is None,
            r.target_pos is None,
            r.wf(),
            kings_at_home(r.board_state.model()),
    {
        proof {
            lemma_initial_model_wf();
            lemma_initial_kings_at_home();
        }
        Self {
            game_state: GameState::Playing,
            board_state: Board::new(),
            current_turn: Side::White,
            unit_pos: None,
            target_pos: None,
        }
    }
}

} // verus!
