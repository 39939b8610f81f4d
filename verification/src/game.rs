//! The game: a board, the piece in play, the piece to come, and the steps
//! that move, lock and replace them.

use vstd::prelude::*;
use crate::action::{ComposedAction, SingularAction};
use crate::board::{
    admits, cleared, drop_distance, dropped, full_row_count, integrated, is_full,
    lemma_admitted_is_in_bounds, lemma_drop_distance_bound, lemma_dropped_rests,
    lemma_hard_drop_valid, Board, Grid, GAME_HEIGHT, GAME_WIDTH,
};
use crate::features::{total_height, Features};
use crate::generator::{is_full_bag, shuffle_bag, PieceGenerator, BAG_SIZE};
use crate::piece::{mask_cell, mask_column_used, Piece};

verus! {

/// Rewards are counted in units of one row divided by the width of the
/// board, so that a difference of mean heights is a whole number.
pub const REWARD_SCALE: i64 = 10;

/// The reward of a move after which the next piece cannot be placed: five
/// rows' worth, taken away.
pub const TERMINAL_REWARD: i64 = -50;

/// The most that a single lock can add to the score: every row of the
/// board and the bonus of a hard drop for them.
pub const MAX_LOCK_SCORE: i32 = 84;

/// What a step did.
#[derive(Clone, Copy, Debug, PartialEq, Eq, Structural)]
pub enum StepResult {
    /// No piece was locked.
    Normal,
    /// A piece was locked and the next one came into play.
    NewPiece,
    /// A piece was locked and the next one has no room.
    GameOver,
}

/// Points for `rows` cleared rows when the piece was locked by gravity.
pub open spec fn gravity_gain(rows: int) -> int {
    rows + (rows % 4) * 10
}

/// Points for `rows` cleared rows when the piece was locked by a hard drop.
pub open spec fn drop_gain(rows: int) -> int {
    rows + (rows / 4) * 10
}

/// The level that belongs to a score.
pub open spec fn level_of(score: int) -> int {
    if score >= 0 {
        score / 10 + 1
    } else {
        1 - (-score) / 10
    }
}

/// Whether action `a` is enumerated before action `b`: by rotation, then
/// by shift.
pub open spec fn enumerated_before(a: ComposedAction, b: ComposedAction) -> bool {
    a.rotation < b.rotation || (a.rotation == b.rotation && a.shift < b.shift)
}

/// The state of one game.
#[derive(Debug)]
pub struct Game {
    pub state: Board,
    pub active_piece: Piece,
    pub next_piece: Piece,
    pub score: i32,
    pub generator: PieceGenerator,
}

/// One recorded transition: the statistics before the move and after it,
/// the reward in units of `1 / REWARD_SCALE` rows, and the move.
#[derive(Clone, Copy, Debug)]
pub struct Play {
    pub previous_state: Features,
    pub next_state: Features,
    pub reward: i64,
    pub action: ComposedAction,
}

impl Game {
    /// Validity: both pieces are valid, use one of their distinct
    /// rotations and lie on the board, and the generator is valid.
    pub open spec fn wf(self) -> bool {
        &&& self.active_piece.wf()
        &&& self.active_piece.rotation_in_range()
        &&& self.active_piece.in_bounds()
        &&& self.next_piece.wf()
        &&& self.next_piece.rotation_in_range()
        &&& self.next_piece.in_bounds()
        &&& self.generator.wf()
    }

    /// Number of full rows once `piece` is locked into the board.
    pub open spec fn rows_completed_by(self, piece: Piece) -> int {
        full_row_count(integrated(self.state@, piece)) as int
    }

    /// The points that one command adds to the score: those of the lock
    /// that it leads to, if any.
    pub open spec fn score_gain(self, action: SingularAction) -> int {
        match action {
            SingularAction::Down => drop_gain(
                self.rows_completed_by(dropped(self.state@, self.active_piece)),
            ),
            SingularAction::Idle => if admits(self.state@, self.active_piece.lowered(1)) {
                0
            } else {
                gravity_gain(self.rows_completed_by(self.active_piece))
            },
            _ => 0,
        }
    }

    /// Whether the active piece, shifted and turned as the action asks, is
    /// on the board and off every locked cell.
    pub open spec fn is_candidate(self, action: ComposedAction) -> bool {
        &&& i32::MIN <= self.active_piece.position.0 + action.shift <= i32::MAX
        &&& admits(self.state@, self.active_piece.placed(action))
    }

    /// The grid with the active piece placed as the action asks, dropped
    /// and locked, before any row is removed.
    pub open spec fn locked_grid(self, action: ComposedAction) -> Grid {
        integrated(self.state@, dropped(self.state@, self.active_piece.placed(action)))
    }

    /// The grid that the action leads to.
    pub open spec fn simulated_grid(self, action: ComposedAction) -> Grid {
        cleared(self.locked_grid(action))
    }

    /// Whether the next piece has no room on the grid that the action
    /// leads to.
    pub open spec fn is_terminal_after(self, action: ComposedAction) -> bool {
        !admits(self.simulated_grid(action), self.next_piece)
    }

    /// The reward of the action, scaled by `REWARD_SCALE`: the rows it
    /// clears plus the decrease of the mean column height from
    /// `height_before / GAME_WIDTH`; or the terminal reward.
    pub open spec fn simulated_reward(self, action: ComposedAction, height_before: int) -> int {
        if self.is_terminal_after(action) {
            TERMINAL_REWARD as int
        } else {
            REWARD_SCALE * full_row_count(self.locked_grid(action)) + height_before - total_height(
                self.simulated_grid(action),
                GAME_WIDTH as int,
            )
        }
    }

    /// Whether `reward` and `features` are the outcome of the action.
    pub open spec fn outcome_matches(
        self,
        action: ComposedAction,
        height_before: int,
        reward: i64,
        features: Features,
    ) -> bool {
        &&& features.describes(self.simulated_grid(action))
        &&& features.is_terminal == self.is_terminal_after(action)
        &&& reward == self.simulated_reward(action, height_before)
    }

    /// Whether `post` and `r` are what locking `piece` into the board of
    /// `self` leads to: the piece is written into the board, full rows are
    /// removed and scored, and then either the game is over, or the next
    /// piece comes into play and a new next piece is dealt, from the bag
    /// `refill` once the bag is used up.
    pub open spec fn locked(
        self,
        piece: Piece,
        hard: bool,
        refill: [u8; BAG_SIZE],
        post: Game,
        r: StepResult,
    ) -> bool {
        let before = integrated(self.state@, piece);
        let rows = self.rows_completed_by(piece);
        &&& post.state@ == cleared(before)
        &&& post.score == self.score + if hard {
            drop_gain(rows)
        } else {
            gravity_gain(rows)
        }
        &&& if admits(cleared(before), self.next_piece) {
            &&& r == StepResult::NewPiece
            &&& post.active_piece == self.next_piece
            &&& post.next_piece == Piece::spawned(self.generator.upcoming())
            &&& post.generator == self.generator.advanced(refill)
        } else {
            &&& r == StepResult::GameOver
            &&& post.active_piece == piece
            &&& post.next_piece == self.next_piece
            &&& post.generator == self.generator
        }
    }

    /// Whether `post` and `r` are what one command leads to, `refill`
    /// being the bag that is dealt from once the bag is used up.
    ///
    /// `Left`, `Right` and `Rotate` move the active piece if the board
    /// admits the move and do nothing otherwise. `Idle` is a gravity tick:
    /// the piece moves down one row, or, if it cannot, it is locked where
    /// it is. `Down` drops the piece and locks it where it rests.
    pub open spec fn steps_to(
        self,
        action: SingularAction,
        refill: [u8; BAG_SIZE],
        post: Game,
        r: StepResult,
    ) -> bool {
        match action {
            SingularAction::Down => self.locked(
                dropped(self.state@, self.active_piece),
                true,
                refill,
                post,
                r,
            ),
            SingularAction::Idle => if admits(self.state@, self.active_piece.lowered(1)) {
                r == StepResult::Normal && post == (Game {
                    active_piece: self.active_piece.lowered(1),
                    ..self
                })
            } else {
                self.locked(self.active_piece, false, refill, post, r)
            },
            _ => r == StepResult::Normal && post == (Game {
                active_piece: if admits(self.state@, self.active_piece.moved(action)) {
                    self.active_piece.moved(action)
                } else {
                    self.active_piece
                },
                ..self
            }),
        }
    }

    /// A fresh game on the given bag: an empty board, no score, and the
    /// first two pieces of the bag in play and to come.
    pub fn with_bag(bag: [u8; BAG_SIZE]) -> (r: Game)
        requires
            is_full_bag(bag),
        ensures
            r.wf(),
            r.score == 0,
            forall|x: int, y: int|
                0 <= x < GAME_WIDTH && 0 <= y < GAME_HEIGHT ==> r.state@[y][x] == 0,
            r.generator == (PieceGenerator { bag, idx: 2 }),
            r.active_piece == Piece::spawned(bag[0]),
            r.next_piece == Piece::spawned(bag[1]),
    {
        let mut generator = PieceGenerator::with_bag(bag);
        let active_piece = generator.get_next_with(bag);
        let next_piece = generator.get_next_with(bag);
        proof {
            lemma_spawned_in_bounds(active_piece);
            lemma_spawned_in_bounds(next_piece);
        }
        Game { state: Board::empty(), active_piece, next_piece, score: 0, generator }
    }

    /// A fresh game: an empty board, no score, and the first two pieces of
    /// a newly shuffled bag in play and to come.
    pub fn new() -> (r: Game)
        ensures
            r.wf(),
            r.score == 0,
            forall|x: int, y: int|
                0 <= x < GAME_WIDTH && 0 <= y < GAME_HEIGHT ==> r.state@[y][x] == 0,
            r.generator.idx == 2,
            r.active_piece == Piece::spawned(r.generator.bag[0]),
            r.next_piece == Piece::spawned(r.generator.bag[1]),
    {
        let generator = PieceGenerator::new();
        Game::with_bag(generator.bag)
    }

    /// The level: one more than a tenth of the score, the tenth being
    /// rounded towards zero.
    pub fn get_level(&self) -> (r: i32)
        ensures
            r == level_of(self.score as int),
    {
        self.score / 10 + 1
    }

    /// Plays a macro-action on a copy of the game: the active piece is
    /// shifted and turned, dropped and locked, and full rows are removed.
    /// Returns nothing if the shifted and turned piece does not fit, and
    /// otherwise the reward, in units of `1 / REWARD_SCALE` rows, with the
    /// statistics of the board that results. `total_height` is the sum of
    /// the column heights before the move.
    pub fn simulate_action(&self, action: ComposedAction, total_height: i32) -> (r: Option<
        (i64, Features),
    >)
        requires
            self.wf(),
            0 <= action.rotation < 4,
        ensures
            r is Some <==> self.is_candidate(action),
            r matches Some((reward, features)) ==> self.outcome_matches(
                action,
                total_height as int,
                reward,
                features,
            ),
    {
        proof {
            self.active_piece.lemma_in_bounds_position();
        }
        let target: i64 = self.active_piece.position.0 as i64 + action.shift as i64;
        if target < -3 || target >= GAME_WIDTH as i64 {
            proof {
                if self.is_candidate(action) {
                    let placed = self.active_piece.placed(action);
                    lemma_admitted_is_in_bounds(self.state@, placed);
                    placed.lemma_in_bounds_position();
                }
            }
            return None;
        }
        let placed = self.active_piece.simulate_action(action);
        if !self.state.is_valid_state(placed) {
            return None;
        }
        proof {
            lemma_admitted_is_in_bounds(self.state@, placed);
            placed.lemma_in_bounds_position();
            lemma_hard_drop_valid(self.state@, placed);
        }
        let landed = self.state.hard_drop(placed);
        let locked_board = self.state.integrate_piece(landed);
        let board_update = locked_board.remove_full_rows();
        let simulated_board = board_update.0;
        let mut features = Features::build(simulated_board);
        proof {
            locked_board@.lemma_filter_len(is_full());
            features.lemma_bounds(simulated_board@);
        }
        let mut reward: i64 = REWARD_SCALE * (board_update.1 as i64) + total_height as i64
            - features.total_height as i64;
        if !simulated_board.is_valid_state(self.next_piece) {
            features.is_terminal = true;
            reward = TERMINAL_REWARD;
        }
        Some((reward, features))
    }

    /// Enumerates the macro-actions open to the active piece: for each of
    /// its rotations in ascending order, and for each shift in ascending
    /// order that keeps the bounding box of the rotated piece on the board,
    /// the action if the shifted and turned piece fits. Returns the
    /// actions, their rewards and the statistics of the resulting boards,
    /// index by index.
    pub fn get_possible_actions(&self) -> (r: (Vec<ComposedAction>, Vec<i64>, Vec<Features>))
        requires
            self.wf(),
        ensures
            r.0.len() == r.1.len(),
            r.0.len() == r.2.len(),
            forall|k: int|
                0 <= k < r.0.len() ==> {
                    &&& 0 <= (#[trigger] r.0[k]).rotation < self.active_piece.num_rotations
                    &&& self.is_candidate(r.0[k])
                    &&& self.outcome_matches(
                        r.0[k],
                        total_height(self.state@, GAME_WIDTH as int),
                        r.1[k],
                        r.2[k],
                    )
                },
            forall|k: int, l: int|
                0 <= k < l < r.0.len() ==> enumerated_before(#[trigger] r.0[k], #[trigger] r.0[l]),
            forall|action: ComposedAction|
                0 <= action.rotation < self.active_piece.num_rotations && self.is_candidate(action)
                    ==> r.0@.contains(action),
    {
        let features = Features::build(self.state);
        let mut possible_actions: Vec<ComposedAction> = Vec::new();
        let mut rewards: Vec<i64> = Vec::new();
        let mut v_sim_features: Vec<Features> = Vec::new();
        proof {
            self.active_piece.lemma_in_bounds_position();
        }
        let mut rotation: i32 = 0;
        while rotation < self.active_piece.num_rotations
            invariant
                self.wf(),
                -3 <= self.active_piece.position.0 < GAME_WIDTH,
                features.describes(self.state@),
                0 <= rotation <= self.active_piece.num_rotations,
                possible_actions.len() == rewards.len(),
                possible_actions.len() == v_sim_features.len(),
                forall|k: int|
                    0 <= k < possible_actions.len() ==> {
                        &&& 0 <= (#[trigger] possible_actions[k]).rotation < rotation
                        &&& self.is_candidate(possible_actions[k])
                        &&& self.outcome_matches(
                            possible_actions[k],
                            total_height(self.state@, GAME_WIDTH as int),
                            rewards[k],
                            v_sim_features[k],
                        )
                    },
                forall|k: int, l: int|
                    0 <= k < l < possible_actions.len() ==> enumerated_before(
                        #[trigger] possible_actions[k],
                        #[trigger] possible_actions[l],
                    ),
                forall|action: ComposedAction|
                    0 <= action.rotation < rotation && self.is_candidate(action)
                        ==> possible_actions@.contains(action),
            decreases self.active_piece.num_rotations - rotation,
        {
            let aabb = self.active_piece.get_aabb(rotation as usize);
            let ghost mask = self.active_piece.shape[rotation as int];
            let first: i32 = -self.active_piece.position.0 - aabb[0].0;
            let last: i32 = GAME_WIDTH as i32 - 1 - self.active_piece.position.0 - (aabb[0].0
                + aabb[1].0);
            proof {
                assert forall|action: ComposedAction|
                    action.rotation == rotation && self.is_candidate(action) implies first
                    <= action.shift <= last by {
                    let placed = self.active_piece.placed(action);
                    lemma_admitted_is_in_bounds(self.state@, placed);
                    let c0 = aabb[0].0 as int;
                    let c1 = aabb[0].0 + aabb[1].0;
                    assert(mask_column_used(mask, c0));
                    assert(mask_column_used(mask, c1));
                    let j0 = choose|j: int| mask_cell(mask, c0, j);
                    let j1 = choose|j: int| mask_cell(mask, c1, j);
                    assert(mask_cell(placed.mask(), c0, j0));
                    assert(mask_cell(placed.mask(), c1, j1));
                }
            }
            let mut shift: i32 = first;
            while shift <= last
                invariant
                    self.wf(),
                    -3 <= self.active_piece.position.0 < GAME_WIDTH,
                    features.describes(self.state@),
                    0 <= rotation < self.active_piece.num_rotations,
                    mask == self.active_piece.shape[rotation as int],
                    forall|action: ComposedAction|
                        action.rotation == rotation && self.is_candidate(action) ==> first
                            <= action.shift <= last,
                    -16 <= first <= shift <= last + 1 <= 16,
                    possible_actions.len() == rewards.len(),
                    possible_actions.len() == v_sim_features.len(),
                    forall|k: int|
                        0 <= k < possible_actions.len() ==> {
                            &&& 0 <= (#[trigger] possible_actions[k]).rotation <= rotation
                            &&& possible_actions[k].rotation == rotation
                                ==> possible_actions[k].shift < shift
                            &&& self.is_candidate(possible_actions[k])
                            &&& self.outcome_matches(
                                possible_actions[k],
                                total_height(self.state@, GAME_WIDTH as int),
                                rewards[k],
                                v_sim_features[k],
                            )
                        },
                    forall|k: int, l: int|
                        0 <= k < l < possible_actions.len() ==> enumerated_before(
                            #[trigger] possible_actions[k],
                            #[trigger] possible_actions[l],
                        ),
                    forall|action: ComposedAction|
                        (0 <= action.rotation < rotation || (action.rotation == rotation
                            && action.shift < shift)) && self.is_candidate(action)
                            ==> possible_actions@.contains(action),
                decreases last + 1 - shift,
            {
                let action = ComposedAction { rotation, shift };
                let ghost listed = possible_actions@;
                match self.simulate_action(action, features.total_height) {
                    Some((reward, sim_features)) => {
                        rewards.push(reward);
                        v_sim_features.push(sim_features);
                        possible_actions.push(action);
                        assert forall|other: ComposedAction|
                            (0 <= other.rotation < rotation || (other.rotation == rotation
                                && other.shift < shift + 1)) && self.is_candidate(
                                other,
                            ) implies possible_actions@.contains(other) by {
                            if other == action {
                                assert(possible_actions@[listed.len() as int] == other);
                            } else {
                                assert(listed.contains(other));
                                let k = choose|k: int| 0 <= k < listed.len() && listed[k] == other;
                                assert(possible_actions@[k] == other);
                            }
                        }
                    },
                    None => {},
                }
                shift = shift + 1;
            }
            rotation = rotation + 1;
        }
        (possible_actions, rewards, v_sim_features)
    }

    /// Locks the active piece where it is, and if the next piece has room,
    /// brings it into play.
    fn lock_active(&mut self, hard: bool, refill: [u8; BAG_SIZE]) -> (r: StepResult)
        requires
            old(self).wf(),
            is_full_bag(refill),
            old(self).score + if hard {
                drop_gain(old(self).rows_completed_by(old(self).active_piece))
            } else {
                gravity_gain(old(self).rows_completed_by(old(self).active_piece))
            } <= i32::MAX,
        ensures
            old(self).locked(old(self).active_piece, hard, refill, *final(self), r),
            final(self).wf(),
    {
        let ghost before = integrated(self.state@, self.active_piece);
        self.state = self.state.integrate_piece(self.active_piece);
        let board_update = self.state.remove_full_rows();
        self.state = board_update.0;
        let rows = board_update.1;
        proof {
            before.lemma_filter_len(is_full());
        }
        let bonus = if hard {
            (rows / 4) * 10
        } else {
            (rows % 4) * 10
        };
        self.score = self.score + rows + bonus;
        if !self.state.is_valid_state(self.next_piece) {
            return StepResult::GameOver;
        }
        self.active_piece = self.next_piece;
        self.next_piece = self.generator.get_next_with(refill);
        proof {
            lemma_spawned_in_bounds(self.next_piece);
        }
        StepResult::NewPiece
    }

    /// Moves the active piece by one command if the board admits the move.
    fn try_move(&mut self, action: SingularAction) -> (moved: bool)
        requires
            old(self).wf(),
        ensures
            moved == admits(old(self).state@, old(self).active_piece.moved(action)),
            final(self).active_piece == if moved {
                old(self).active_piece.moved(action)
            } else {
                old(self).active_piece
            },
            final(self).state == old(self).state,
            final(self).next_piece == old(self).next_piece,
            final(self).score == old(self).score,
            final(self).generator == old(self).generator,
            final(self).wf(),
    {
        proof {
            self.active_piece.lemma_in_bounds_position();
        }
        let piece = self.active_piece.simulate_next(action);
        if self.state.is_valid_state(piece) {
            proof {
                lemma_admitted_is_in_bounds(self.state@, piece);
            }
            self.active_piece = piece;
            true
        } else {
            false
        }
    }

    /// Advances the game by one command, dealing from the bag `refill`
    /// once the bag is used up. A lock removes and scores the full rows;
    /// then the game is over if the next piece has no room, and otherwise
    /// the next piece comes into play.
    pub fn step_with(&mut self, action: SingularAction, refill: [u8; BAG_SIZE]) -> (r: StepResult)
        requires
            old(self).wf(),
            is_full_bag(refill),
            old(self).score + old(self).score_gain(action) <= i32::MAX,
        ensures
            final(self).wf(),
            old(self).steps_to(action, refill, *final(self), r),
    {
        match action {
            SingularAction::Idle => {
                if self.try_move(SingularAction::Down) {
                    StepResult::Normal
                } else {
                    self.lock_active(false, refill)
                }
            },
            SingularAction::Left => {
                self.try_move(action);
                StepResult::Normal
            },
            SingularAction::Right => {
                self.try_move(action);
                StepResult::Normal
            },
            SingularAction::Rotate => {
                self.try_move(action);
                StepResult::Normal
            },
            SingularAction::Down => {
                proof {
                    self.active_piece.lemma_in_bounds_position();
                    lemma_dropped_in_bounds(self.state@, self.active_piece);
                }
                self.active_piece = self.state.hard_drop(self.active_piece);
                self.lock_active(true, refill)
            },
        }
    }

    /// Advances the game by one command. Once the bag is used up, the
    /// pieces are dealt from a newly shuffled bag.
    pub fn step(&mut self, action: SingularAction) -> (r: StepResult)
        requires
            old(self).wf(),
            old(self).score + old(self).score_gain(action) <= i32::MAX,
        ensures
            final(self).wf(),
            exists|refill: [u8; BAG_SIZE]|
                is_full_bag(refill) && old(self).steps_to(action, refill, *final(self), r),
    {
        let mut refill = self.generator.bag;
        if self.generator.idx + 1 >= BAG_SIZE {
            shuffle_bag(&mut refill);
        }
        self.step_with(action, refill)
    }
}

impl Game {
    /// No command adds more than `MAX_LOCK_SCORE` to the score, and none
    /// takes from it.
    pub proof fn lemma_score_gain_bounded(self, action: SingularAction)
        ensures
            0 <= self.score_gain(action) <= MAX_LOCK_SCORE,
    {
        let landed = dropped(self.state@, self.active_piece);
        integrated(self.state@, landed).lemma_filter_len(is_full());
        integrated(self.state@, self.active_piece).lemma_filter_len(is_full());
    }

    /// A hard-drop command locks the active piece where it comes to rest:
    /// the board that results is the old board with the piece written into
    /// it some rows further down and the full rows removed. The board
    /// admits the piece at every step of the way there and not one row
    /// below; the piece lies on the board where it rests, and off every
    /// locked cell if it was so before. A piece that is at rest already is
    /// locked where it is.
    pub proof fn lemma_down_locks_where_the_piece_rests(
        self,
        refill: [u8; BAG_SIZE],
        post: Game,
        r: StepResult,
    )
        requires
            self.wf(),
            self.steps_to(SingularAction::Down, refill, post, r),
        ensures
            ({
                let rest = dropped(self.state@, self.active_piece);
                let d = drop_distance(self.state@, self.active_piece) as int;
                &&& post.state@ == cleared(integrated(self.state@, rest))
                &&& rest == self.active_piece.lowered(d)
                &&& rest.in_bounds()
                &&& forall|m: int|
                    1 <= m <= d ==> admits(self.state@, #[trigger] self.active_piece.lowered(m))
                &&& !admits(self.state@, self.active_piece.lowered(d + 1))
                &&& admits(self.state@, self.active_piece) ==> admits(self.state@, rest)
                &&& !admits(self.state@, self.active_piece.lowered(1)) ==> rest
                    == self.active_piece
                &&& dropped(self.state@, rest) == rest
            }),
    {
        self.active_piece.lemma_in_bounds_position();
        lemma_dropped_rests(self.state@, self.active_piece);
        lemma_dropped_in_bounds(self.state@, self.active_piece);
        crate::board::lemma_hard_drop_idempotent(self.state@, self.active_piece);
        if admits(self.state@, self.active_piece) {
            lemma_hard_drop_valid(self.state@, self.active_piece);
        }
        if !admits(self.state@, self.active_piece.lowered(1)) {
            assert(self.active_piece.lowered(0) == self.active_piece);
        }
    }
}

/// A piece at its spawn pose lies on the board.
pub proof fn lemma_spawned_in_bounds(piece: Piece)
    requires
        piece.position == (crate::piece::SPAWN_COLUMN, crate::piece::SPAWN_ROW),
    ensures
        piece.in_bounds(),
{
}

/// A valid piece that lies on the board still does where it rests after a
/// hard drop.
pub proof fn lemma_dropped_in_bounds(grid: Grid, piece: Piece)
    requires
        piece.wf(),
        piece.in_bounds(),
    ensures
        dropped(grid, piece).in_bounds(),
        dropped(grid, piece).wf(),
{
    piece.lemma_in_bounds_position();
    lemma_dropped_rests(grid, piece);
    lemma_drop_distance_bound(grid, piece);
    let d = crate::board::drop_distance(grid, piece) as int;
    if d == 0 {
        assert(piece.lowered(0) == piece);
    } else {
        lemma_admitted_is_in_bounds(grid, piece.lowered(d));
    }
}

} // verus!
