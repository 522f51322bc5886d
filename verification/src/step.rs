//! The move-evaluation protocol: a candidate step is a bag of conditions in
//! AND-groups (OR across groups) together with the actions each group
//! licenses; evaluating it against a board picks the first satisfied group,
//! executing it applies that group's actions while recording pre-images, and
//! the pre-images roll the step back square by square.

use vstd::prelude::*;

use crate::board::{sq, Board, BoardModel};
use crate::pos::Pos;
use crate::side::Side;
use crate::unit::{eq_unit_type, Unit};

verus! {

/// Marker for the phases a [`Step`] moves through: conditions are gathered,
/// then evaluated to a result, then executed leaving a rollback image.
pub trait State {

}

/// One primitive test on one board square.
#[derive(Clone, Copy, Debug, PartialEq, Eq, Structural)]
pub enum Test {
    /// The square holds no piece.
    Vacant,
    /// The square holds a piece of the side opposite to the given one.
    Enemy(Side),
    /// The square is empty or holds an enemy of the given side.
    EnemyOrVacant(Side),
    /// The square does not hold a king.
    NotKing,
    /// The square holds a piece whose moved-flag is still false.
    NotMoved,
}

/// A condition on one square, belonging to one AND-group.
#[derive(Clone, Copy, Debug, PartialEq, Eq, Structural)]
pub struct StepCondition {
    pub group_id: i8,
    pub pos: Pos,
    pub test: Test,
}

/// A primitive board mutation.
#[derive(Clone, Copy, Debug, PartialEq, Eq, Structural)]
pub enum Command {
    /// Clear the square.
    Remove(Pos),
    /// Relocate the piece on the first square to the second, marking it
    /// moved.
    Move(Pos, Pos),
    /// Replace a pawn standing on the square by a queen, when the square is
    /// on a promotion rank.
    Promote(Pos),
}

/// A mutation licensed by one condition group.
#[derive(Clone, Copy, Debug, PartialEq, Eq, Structural)]
pub struct StepAction {
    pub group_id: i8,
    pub command: Command,
}

/// The outcome of evaluating the condition groups: whether some group was
/// satisfied, and which one.
#[derive(Clone, Copy, Debug, PartialEq, Eq)]
pub struct StepResult {
    pub group_id: Option<i8>,
    pub valid: bool,
}

/// The recorded prior occupant of one square, captured before a destructive
/// action, used to roll the step back.
#[derive(Clone, Copy, Debug, PartialEq, Eq)]
pub struct StepImage {
    pub unit: Option<Unit>,
    pub pos: Pos,
}

/// A candidate step in phase `S`.
#[derive(Debug)]
pub struct Step<S: State> {
    pub groups: i8,
    pub step_valid: bool,
    pub condition_state: S,
    pub actions: Vec<StepAction>,
}

/// The conditions gathered so far.
#[derive(Debug)]
pub struct ConditionState {
    pub step_conditions: Vec<StepCondition>,
}

impl State for ConditionState {

}

/// The verdict of the group evaluation.
#[derive(Debug)]
pub struct ResultState {
    pub step_result: StepResult,
}

impl State for ResultState {

}

/// The pre-images recorded while executing the winning group.
#[derive(Debug)]
pub struct ImageState {
    pub step_images: Vec<StepImage>,
}

impl State for ImageState {

}

/// Whether one condition holds on the given board model.
pub open spec fn cond_holds(m: BoardModel, c: StepCondition) -> bool {
    match c.test {
        Test::Vacant => m.at(c.pos) is None,
        Test::Enemy(side) => match m.at(c.pos) {
            Some(unit) => unit.spec_side() != side,
            None => false,
        },
        Test::EnemyOrVacant(side) => match m.at(c.pos) {
            Some(unit) => unit.spec_side() != side,
            None => true,
        },
        Test::NotKing => match m.at(c.pos) {
            Some(unit) => !(unit is King),
            None => true,
        },
        Test::NotMoved => match m.at(c.pos) {
            Some(unit) => !unit.spec_moved(),
            None => false,
        },
    }
}

/// The group walk from condition `i` on, carrying the current group index
/// and whether that group still stands. It stops, keeping the current group,
/// as soon as a later group's condition is reached while the current group
/// stands; a failed group is skipped to its end.
pub open spec fn spec_eval_from(
    m: BoardModel,
    conds: Seq<StepCondition>,
    i: int,
    group_id: int,
    group_valid: bool,
) -> (int, bool)
    decreases conds.len() - i,
{
    if i < 0 || i >= conds.len() {
        (group_id, group_valid)
    } else {
        let c = conds[i];
        if c.group_id > group_id && group_valid {
            (group_id, true)
        } else if c.group_id > group_id {
            spec_eval_from(m, conds, i + 1, group_id + 1, cond_holds(m, c))
        } else if c.group_id == group_id && !group_valid {
            spec_eval_from(m, conds, i + 1, group_id, false)
        } else {
            spec_eval_from(m, conds, i + 1, group_id, group_valid && cond_holds(m, c))
        }
    }
}

/// The verdict of evaluating a condition list against a board: OR across
/// groups, AND within a group, first satisfied group wins. A false base
/// flag short-circuits to overall-invalid with no group recorded, whatever
/// the groups would say.
pub open spec fn spec_eval(m: BoardModel, conds: Seq<StepCondition>, base: bool) -> StepResult {
    if !base {
        StepResult { group_id: None, valid: false }
    } else {
        let r = spec_eval_from(m, conds, 0, 0, true);
        if r.1 {
            StepResult { group_id: Some(r.0 as i8), valid: true }
        } else {
            StepResult { group_id: None, valid: false }
        }
    }
}

/// The group index of the walk never leaves `group_id ..= 127` when every
/// condition's group fits in `i8`.
pub proof fn lemma_eval_from_bounds(
    m: BoardModel,
    conds: Seq<StepCondition>,
    i: int,
    group_id: int,
    group_valid: bool,
)
    requires
        0 <= group_id <= 127,
    ensures
        group_id <= spec_eval_from(m, conds, i, group_id, group_valid).0 <= 127,
    decreases conds.len() - i,
{
    if 0 <= i < conds.len() {
        let c = conds[i];
        if c.group_id > group_id && group_valid {
        } else if c.group_id > group_id {
            lemma_eval_from_bounds(m, conds, i + 1, group_id + 1, cond_holds(m, c));
        } else if c.group_id == group_id && !group_valid {
            lemma_eval_from_bounds(m, conds, i + 1, group_id, false);
        } else {
            lemma_eval_from_bounds(m, conds, i + 1, group_id, group_valid && cond_holds(m, c));
        }
    }
}

/// Every condition from index `i` on holds on the board.
pub open spec fn all_conds_hold_from(m: BoardModel, conds: Seq<StepCondition>, i: int) -> bool {
    forall|j: int| i <= j < conds.len() ==> cond_holds(m, #[trigger] conds[j])
}

/// On a condition list that only uses group 0, the walk reduces to one
/// conjunction: it succeeds exactly when it starts valid and every
/// remaining condition holds.
pub proof fn lemma_eval_single_group(
    m: BoardModel,
    conds: Seq<StepCondition>,
    i: int,
    valid: bool,
)
    requires
        0 <= i,
        forall|j: int| 0 <= j < conds.len() ==> (#[trigger] conds[j]).group_id == 0,
    ensures
        spec_eval_from(m, conds, i, 0, valid) == (0int, valid && all_conds_hold_from(m, conds, i)),
    decreases conds.len() - i,
{
    if i < conds.len() {
        let c = conds[i];
        assert(c.group_id == 0);
        if !valid {
            lemma_eval_single_group(m, conds, i + 1, false);
        } else {
            lemma_eval_single_group(m, conds, i + 1, cond_holds(m, c));
            assert(all_conds_hold_from(m, conds, i) == (cond_holds(m, c) && all_conds_hold_from(
                m,
                conds,
                i + 1,
            )));
        }
    }
}

/// What one command does to a board model, and the pre-images it records.
pub open spec fn run_command(m: BoardModel, c: Command) -> (BoardModel, Seq<StepImage>) {
    match c {
        Command::Remove(pos) => (m.remove(pos), seq![StepImage { unit: m.at(pos), pos }]),
        Command::Move(unit_pos, target_pos) => match m.at(unit_pos) {
            Some(unit) => (
                m.remove(unit_pos).set(unit.spec_set_moved(true), target_pos),
                seq![
                    StepImage { unit: Some(unit), pos: unit_pos },
                    StepImage { unit: m.at(target_pos), pos: target_pos },
                ],
            ),
            None => (m, Seq::empty()),
        },
        Command::Promote(pos) => (m.promote(pos), Seq::empty()),
    }
}

/// Running the actions of group `g` from index `i` on: the resulting model
/// and the concatenated pre-images, in execution order.
pub open spec fn run_actions_from(
    m: BoardModel,
    actions: Seq<StepAction>,
    g: i8,
    i: int,
) -> (BoardModel, Seq<StepImage>)
    decreases actions.len() - i,
{
    if i < 0 || i >= actions.len() {
        (m, Seq::empty())
    } else {
        let this = if actions[i].group_id == g {
            run_command(m, actions[i].command)
        } else {
            (m, Seq::<StepImage>::empty())
        };
        let rest = run_actions_from(this.0, actions, g, i + 1);
        (rest.0, this.1 + rest.1)
    }
}

/// Running every action of the winning group, in declaration order.
pub open spec fn run_actions(m: BoardModel, actions: Seq<StepAction>, g: i8) -> (
    BoardModel,
    Seq<StepImage>,
) {
    run_actions_from(m, actions, g, 0)
}

/// Replaying the pre-images from index `i` backward: the image recorded last
/// is restored first.
pub open spec fn spec_undo_from(m: BoardModel, images: Seq<StepImage>, i: int) -> BoardModel
    decreases i,
{
    if i <= 0 || i > images.len() {
        m
    } else {
        let img = images[i - 1];
        let m1 = match img.unit {
            Some(unit) => m.set(unit, img.pos),
            None => m.remove(img.pos),
        };
        spec_undo_from(m1, images, i - 1)
    }
}

/// Replaying all recorded pre-images in reverse.
pub open spec fn spec_undo(m: BoardModel, images: Seq<StepImage>) -> BoardModel {
    spec_undo_from(m, images, images.len() as int)
}

/// The backward replay only reads the images below `i`.
pub proof fn lemma_undo_from_take(m: BoardModel, images: Seq<StepImage>, i: int)
    requires
        0 <= i <= images.len(),
    ensures
        spec_undo_from(m, images, i) == spec_undo(m, images.take(i)),
    decreases i,
{
    if i > 0 {
        let img = images[i - 1];
        assert(images.take(i)[i - 1] == img);
        let m1 = match img.unit {
            Some(unit) => m.set(unit, img.pos),
            None => m.remove(img.pos),
        };
        assert(images.take(i).take(i - 1) =~= images.take(i - 1));
        lemma_undo_from_take(m1, images, i - 1);
        lemma_undo_from_take(m1, images.take(i), i - 1);
    } else {
        assert(images.take(0) =~= Seq::<StepImage>::empty());
    }
}

/// Replaying a concatenation in reverse replays the second part first.
pub proof fn lemma_undo_concat(m: BoardModel, xs: Seq<StepImage>, ys: Seq<StepImage>)
    ensures
        spec_undo(m, xs + ys) == spec_undo(spec_undo(m, ys), xs),
    decreases ys.len(),
{
    let lx = xs.len() as int;
    let ly = ys.len() as int;
    if ys.len() == 0 {
        assert(xs + ys =~= xs);
        assert(spec_undo(m, ys) == m);
    } else {
        let img = ys[ly - 1];
        assert((xs + ys)[lx + ly - 1] == img);
        let m1 = match img.unit {
            Some(unit) => m.set(unit, img.pos),
            None => m.remove(img.pos),
        };
        lemma_undo_from_take(m1, xs + ys, lx + ly - 1);
        assert((xs + ys).take(lx + ly - 1) =~= xs + ys.take(ly - 1));
        lemma_undo_concat(m1, xs, ys.take(ly - 1));
        lemma_undo_from_take(m1, ys, ly - 1);
    }
}

/// A promotion needs no pre-image of its own: the last image recorded
/// before it already covers the promoted square, so the backward replay
/// comes out the same whether the promotion happened or not.
pub proof fn lemma_undo_promote_covered(m: BoardModel, t: Pos, images: Seq<StepImage>)
    requires
        m.complete(),
        t.spec_onboard(),
        images.len() > 0,
        images[images.len() - 1].pos == t,
    ensures
        spec_undo(m.promote(t), images) == spec_undo(m, images),
{
    let i = images.len() as int;
    let img = images[i - 1];
    let ma = match img.unit {
        Some(unit) => m.promote(t).set(unit, img.pos),
        None => m.promote(t).remove(img.pos),
    };
    let mb = match img.unit {
        Some(unit) => m.set(unit, img.pos),
        None => m.remove(img.pos),
    };
    let mp = m.promote(t);
    assert(mp.squares.len() == m.squares.len());
    assert forall|j: int| 0 <= j < ma.squares.len() implies ma.squares[j] == mb.squares[j] by {
        if j != sq(t) {
            assert(mp.squares[j] == m.squares[j]);
        }
    }
    assert(ma.squares =~= mb.squares);
    assert(ma =~= mb);
}

/// The pre-images a run records lie on the squares its actions touch.
pub proof fn lemma_run_images_onboard(m: BoardModel, actions: Seq<StepAction>, g: i8, i: int)
    requires
        actions_onboard(actions),
    ensures
        images_onboard(run_actions_from(m, actions, g, i).1),
    decreases actions.len() - i,
{
    if 0 <= i < actions.len() {
        let this = if actions[i].group_id == g {
            run_command(m, actions[i].command)
        } else {
            (m, Seq::<StepImage>::empty())
        };
        let rest = run_actions_from(this.0, actions, g, i + 1);
        lemma_run_images_onboard(this.0, actions, g, i + 1);
        assert(images_onboard(this.1));
        assert forall|j: int|
            0 <= j < (this.1 + rest.1).len() implies ((this.1 + rest.1)[j].pos).spec_onboard() by {
            if j < this.1.len() {
                assert((this.1 + rest.1)[j] == this.1[j]);
            } else {
                assert((this.1 + rest.1)[j] == rest.1[j - this.1.len()]);
            }
        }
    }
}

/// Every position a condition list looks at lies on the board.
pub open spec fn conds_onboard(conds: Seq<StepCondition>) -> bool {
    forall|j: int| 0 <= j < conds.len() ==> (#[trigger] conds[j].pos).spec_onboard()
}

/// Every position an action list touches lies on the board.
pub open spec fn actions_onboard(actions: Seq<StepAction>) -> bool {
    forall|j: int|
        0 <= j < actions.len() ==> match (#[trigger] actions[j]).command {
            Command::Remove(pos) => pos.spec_onboard(),
            Command::Move(unit_pos, target_pos) => unit_pos.spec_onboard()
                && target_pos.spec_onboard(),
            Command::Promote(pos) => pos.spec_onboard(),
        }
}

impl ConditionState {
    /// Creates a new [`ConditionState`] with no conditions.
    fn new() -> (r: Self)
        ensures
            r.step_conditions@ == Seq::<StepCondition>::empty(),
    {
        Self { step_conditions: Vec::new() }
    }
}

impl ResultState {
    /// Creates a new [`ResultState`] with an invalid result.
    fn new() -> (r: Self)
        ensures
            r.step_result == (StepResult { group_id: None, valid: false }),
    {
        Self { step_result: StepResult { group_id: None, valid: false } }
    }
}

impl ImageState {
    /// Creates a new [`ImageState`] with no recorded pre-images.
    fn new() -> (r: Self)
        ensures
            r.step_images@ == Seq::<StepImage>::empty(),
    {
        Self { step_images: Vec::new() }
    }
}

impl Step<ConditionState> {
    /// The builder never lets the group index escape the condition count,
    /// and keeps both inside the `i8` range.
    pub open spec fn wf(self) -> bool {
        0 <= self.groups <= self.condition_state.step_conditions@.len() <= 127
    }

    /// Creates a new [`Step`] that gathers conditions, with the given base
    /// validity flag.
    pub fn new(step_valid: bool) -> (r: Self)
        ensures
            r.wf(),
            r.groups == 0,
            r.step_valid == step_valid,
            r.condition_state.step_conditions@ == Seq::<StepCondition>::empty(),
            r.actions@ == Seq::<StepAction>::empty(),
    {
        Self {
            groups: 0,
            step_valid,
            condition_state: ConditionState::new(),
            actions: Vec::new(),
        }
    }

    /// Sets the base validity flag.
    pub fn set(&mut self, step_valid: bool)
        ensures
            *final(self) == (Step { step_valid, ..*old(self) }),
    {
        self.step_valid = step_valid;
    }

    /// Opens a new condition group. A no-op while the current group is
    /// still empty, so an unused group never consumes an index.
    pub fn next_group(&mut self)
        requires
            old(self).wf(),
        ensures
            final(self).wf(),
            final(self).groups == if (old(self).groups as int)
                < old(self).condition_state.step_conditions@.len() {
                old(self).groups + 1
            } else {
                old(self).groups as int
            },
            final(self).step_valid == old(self).step_valid,
            final(self).condition_state.step_conditions@ == old(
                self,
            ).condition_state.step_conditions@,
            final(self).actions@ == old(self).actions@,
    {
        if (self.groups as usize) < self.condition_state.step_conditions.len() {
            self.groups = self.groups + 1;
        }
    }

    /// Adds a [`StepAction`] to the current group which removes the unit at
    /// `pos`.
    pub fn add_action_remove(&mut self, pos: Pos)
        ensures
            final(self).actions@ == old(self).actions@.push(
                StepAction { group_id: old(self).groups, command: Command::Remove(pos) },
            ),
            final(self).groups == old(self).groups,
            final(self).step_valid == old(self).step_valid,
            final(self).condition_state.step_conditions@ == old(
                self,
            ).condition_state.step_conditions@,
    {
        self.actions.push(StepAction { group_id: self.groups, command: Command::Remove(pos) })
    }

    /// Adds a [`StepAction`] to the current group which moves the unit from
    /// `unit_pos` to `target_pos`.
    pub fn add_action_move(&mut self, unit_pos: Pos, target_pos: Pos)
        ensures
            final(self).actions@ == old(self).actions@.push(
                StepAction {
                    group_id: old(self).groups,
                    command: Command::Move(unit_pos, target_pos),
                },
            ),
            final(self).groups == old(self).groups,
            final(self).step_valid == old(self).step_valid,
            final(self).condition_state.step_conditions@ == old(
                self,
            ).condition_state.step_conditions@,
    {
        self.actions.push(
            StepAction { group_id: self.groups, command: Command::Move(unit_pos, target_pos) },
        )
    }

    /// Adds a [`StepAction`] to the current group which promotes a pawn
    /// standing on `target_pos` once the step is done.
    pub fn add_action_promote(&mut self, target_pos: Pos)
        ensures
            final(self).actions@ == old(self).actions@.push(
                StepAction { group_id: old(self).groups, command: Command::Promote(target_pos) },
            ),
            final(self).groups == old(self).groups,
            final(self).step_valid == old(self).step_valid,
            final(self).condition_state.step_conditions@ == old(
                self,
            ).condition_state.step_conditions@,
    {
        self.actions.push(
            StepAction { group_id: self.groups, command: Command::Promote(target_pos) },
        )
    }

    /// Adds a [`StepCondition`] to the current group: the square at `pos`
    /// holds no unit.
    pub fn add_cond_pos_is_none(&mut self, pos: Pos)
        requires
            old(self).wf(),
            old(self).condition_state.step_conditions@.len() < 127,
        ensures
            final(self).wf(),
            final(self).condition_state.step_conditions@ == old(
                self,
            ).condition_state.step_conditions@.push(
                StepCondition { group_id: old(self).groups, pos, test: Test::Vacant },
            ),
            final(self).groups == old(self).groups,
            final(self).step_valid == old(self).step_valid,
            final(self).actions@ == old(self).actions@,
    {
        self.push_condition(pos, Test::Vacant);
    }

    /// Adds a [`StepCondition`] to the current group: the unit at `pos` is
    /// an enemy of `side`.
    pub fn add_cond_pos_is_enemy(&mut self, pos: Pos, side: &Side)
        requires
            old(self).wf(),
            old(self).condition_state.step_conditions@.len() < 127,
        ensures
            final(self).wf(),
            final(self).condition_state.step_conditions@ == old(
                self,
            ).condition_state.step_conditions@.push(
                StepCondition { group_id: old(self).groups, pos, test: Test::Enemy(*side) },
            ),
            final(self).groups == old(self).groups,
            final(self).step_valid == old(self).step_valid,
            final(self).actions@ == old(self).actions@,
    {
        self.push_condition(pos, Test::Enemy(*side));
    }

    /// Adds a [`StepCondition`] to the current group: the square at `pos` is
    /// either empty or holds an enemy of `side`.
    pub fn add_cond_pos_is_enemy_or_none(&mut self, pos: Pos, side: &Side)
        requires
            old(self).wf(),
            old(self).condition_state.step_conditions@.len() < 127,
        ensures
            final(self).wf(),
            final(self).condition_state.step_conditions@ == old(
                self,
            ).condition_state.step_conditions@.push(
                StepCondition { group_id: old(self).groups, pos, test: Test::EnemyOrVacant(*side) },
            ),
            final(self).groups == old(self).groups,
            final(self).step_valid == old(self).step_valid,
            final(self).actions@ == old(self).actions@,
    {
        self.push_condition(pos, Test::EnemyOrVacant(*side));
    }

    /// Adds a [`StepCondition`] to the current group: the unit at `pos`, if
    /// any, is not a king.
    pub fn add_cond_pos_not_king(&mut self, pos: Pos)
        requires
            old(self).wf(),
            old(self).condition_state.step_conditions@.len() < 127,
        ensures
            final(self).wf(),
            final(self).condition_state.step_conditions@ == old(
                self,
            ).condition_state.step_conditions@.push(
                StepCondition { group_id: old(self).groups, pos, test: Test::NotKing },
            ),
            final(self).groups == old(self).groups,
            final(self).step_valid == old(self).step_valid,
            final(self).actions@ == old(self).actions@,
    {
        self.push_condition(pos, Test::NotKing);
    }

    /// Adds a [`StepCondition`] to the current group: the unit at `pos` has
    /// not moved yet.
    pub fn add_cond_pos_not_moved(&mut self, pos: Pos)
        requires
            old(self).wf(),
            old(self).condition_state.step_conditions@.len() < 127,
        ensures
            final(self).wf(),
            final(self).condition_state.step_conditions@ == old(
                self,
            ).condition_state.step_conditions@.push(
                StepCondition { group_id: old(self).groups, pos, test: Test::NotMoved },
            ),
            final(self).groups == old(self).groups,
            final(self).step_valid == old(self).step_valid,
            final(self).actions@ == old(self).actions@,
    {
        self.push_condition(pos, Test::NotMoved);
    }

    /// The shared body of the condition builders. The condition count stays
    /// below the `i8` group-index range.
    fn push_condition(&mut self, pos: Pos, test: Test)
        requires
            old(self).wf(),
            old(self).condition_state.step_conditions@.len() < 127,
        ensures
            final(self).wf(),
            final(self).condition_state.step_conditions@ == old(
                self,
            ).condition_state.step_conditions@.push(
                StepCondition { group_id: old(self).groups, pos, test },
            ),
            final(self).groups == old(self).groups,
            final(self).step_valid == old(self).step_valid,
            final(self).actions@ == old(self).actions@,
    {
        self.condition_state.step_conditions.push(
            StepCondition { group_id: self.groups, pos, test },
        )
    }

    /// Evaluates the gathered [`StepCondition`]s on the given [`Board`].
    ///
    /// Conditions with the same `group_id` are connected with AND;
    /// groups are connected with OR, and the first satisfied group, in
    /// declaration order, decides. A step whose base flag is false is
    /// invalid outright, whatever its groups would say.
    pub fn evaluate(&self, board: &Board) -> (r: Step<ResultState>)
        requires
            self.wf(),
            board.model().complete(),
            conds_onboard(self.condition_state.step_conditions@),
        ensures
            r.groups == self.groups,
            r.step_valid == self.step_valid,
            r.actions@ == self.actions@,
            r.condition_state.step_result == spec_eval(
                board.model(),
                self.condition_state.step_conditions@,
                self.step_valid,
            ),
    {
        let ghost m = board.model();
        let ghost conds = self.condition_state.step_conditions@;

        let mut step = Step {
            groups: self.groups,
            step_valid: self.step_valid,
            condition_state: ResultState::new(),
            actions: clone_actions(&self.actions),
        };

        // A false base flag short-circuits to overall-invalid, with no
        // group recorded.
        if !self.step_valid {
            return step;
        }

        let mut group_valid = true;
        let mut group_id: i8 = 0;
        let n = self.condition_state.step_conditions.len();
        let mut i: usize = 0;

        while i < n
            invariant_except_break
                0 <= i <= n,
            invariant
                n == conds.len(),
                conds == self.condition_state.step_conditions@,
                m == board.model(),
                m.complete(),
                conds_onboard(conds),
                0 <= group_id <= 127,
                spec_eval_from(m, conds, 0, 0, true) == spec_eval_from(
                    m,
                    conds,
                    i as int,
                    group_id as int,
                    group_valid,
                ),
            ensures
                spec_eval_from(m, conds, 0, 0, true) == (group_id as int, group_valid),
            decreases n - i,
        {
            let condition = self.condition_state.step_conditions[i];

            // A valid group stands when the next group begins: done.
            if condition.group_id > group_id && group_valid {
                proof {
                    assert(spec_eval_from(m, conds, i as int, group_id as int, group_valid) == (
                        group_id as int,
                        true,
                    ));
                }
                break ;
            }
            // The current group has failed: move on to the next one.
            let advanced = condition.group_id > group_id;
            if advanced {
                group_id = group_id + 1;
                group_valid = true;
            }
            // Inside a failed group the remaining conditions are skipped.
            if !(condition.group_id == group_id && !group_valid) {
                let holds = match condition.test {
                    Test::Vacant => board.get_unit(&condition.pos).is_none(),
                    Test::Enemy(side) => match board.get_unit(&condition.pos) {
                        Some(unit) => unit.get_side() != side,
                        None => false,
                    },
                    Test::EnemyOrVacant(side) => match board.get_unit(&condition.pos) {
                        Some(unit) => unit.get_side() != side,
                        None => true,
                    },
                    Test::NotKing => match board.get_unit(&condition.pos) {
                        Some(unit) => !eq_unit_type(&Unit::King(Side::Black, true), &unit),
                        None => true,
                    },
                    Test::NotMoved => match board.get_unit(&condition.pos) {
                        Some(unit) => !unit.is_moved(),
                        None => false,
                    },
                };
                if !holds {
                    group_valid = false;
                } else if advanced {
                    group_valid = true;
                }
            }
            i = i + 1;
        }

        if group_valid {
            step.set_result(true, group_id);
        }
        step
    }
}

impl Step<ResultState> {
    /// Records the verdict of the group evaluation.
    fn set_result(&mut self, result_valid: bool, group_id: i8)
        ensures
            final(self).condition_state.step_result == (StepResult {
                group_id: Some(group_id),
                valid: result_valid,
            }),
            final(self).groups == old(self).groups,
            final(self).step_valid == old(self).step_valid,
            final(self).actions@ == old(self).actions@,
    {
        self.condition_state.step_result.valid = result_valid;
        self.condition_state.step_result.group_id = Some(group_id);
    }

    /// Checks if the evaluation found a satisfied group.
    pub fn is_valid(&self) -> (r: bool)
        ensures
            r == self.condition_state.step_result.valid,
    {
        self.condition_state.step_result.valid
    }

    /// Executes the actions of the winning group on the given board, in
    /// declaration order, recording the pre-image of every square a
    /// destructive action touches.
    pub fn execute_actions(&self, board: &mut Board) -> (r: Step<ImageState>)
        requires
            old(board).model().complete(),
            actions_onboard(self.actions@),
        ensures
            r.groups == self.groups,
            r.step_valid == self.step_valid,
            r.actions@ == self.actions@,
            final(board).model().complete(),
            ({
                let res = self.condition_state.step_result;
                if res.valid && res.group_id is Some {
                    let run = run_actions(old(board).model(), self.actions@, res.group_id->0);
                    final(board).model() == run.0 && r.condition_state.step_images@ == run.1
                } else {
                    final(board).model() == old(board).model()
                        && r.condition_state.step_images@ == Seq::<StepImage>::empty()
                }
            }),
    {
        let mut step = Step {
            groups: self.groups,
            step_valid: self.step_valid,
            condition_state: ImageState::new(),
            actions: clone_actions(&self.actions),
        };

        let group_id = match self.condition_state.step_result.group_id {
            Some(group_id) => group_id,
            None => {
                return step;
            },
        };
        if !self.condition_state.step_result.valid {
            return step;
        }

        let ghost m0 = old(board).model();
        let ghost acts = self.actions@;
        let n = self.actions.len();
        let mut i: usize = 0;

        proof {
            assert(Seq::<StepImage>::empty() + run_actions_from(m0, acts, group_id, 0).1
                =~= run_actions_from(m0, acts, group_id, 0).1);
        }

        while i < n
            invariant
                0 <= i <= n,
                n == acts.len(),
                acts == self.actions@,
                board.model().complete(),
                actions_onboard(acts),
                run_actions(m0, acts, group_id) == (
                    run_actions_from(board.model(), acts, group_id, i as int).0,
                    step.condition_state.step_images@ + run_actions_from(
                        board.model(),
                        acts,
                        group_id,
                        i as int,
                    ).1,
                ),
                step.groups == self.groups,
                step.step_valid == self.step_valid,
                step.actions@ == self.actions@,
            decreases n - i,
        {
            let ghost m_before = board.model();
            let ghost imgs_before = step.condition_state.step_images@;
            let action = self.actions[i];
            if group_id == action.group_id {
                let mut images = action.command.execute(board);
                proof {
                    assert(run_actions_from(m_before, acts, group_id, i as int) == (
                        run_actions_from(board.model(), acts, group_id, i as int + 1).0,
                        run_command(m_before, acts[i as int].command).1 + run_actions_from(
                            board.model(),
                            acts,
                            group_id,
                            i as int + 1,
                        ).1,
                    ));
                }
                step.condition_state.step_images.append(&mut images);
                proof {
                    assert(step.condition_state.step_images@ + run_actions_from(
                        board.model(),
                        acts,
                        group_id,
                        i as int + 1,
                    ).1 =~= imgs_before + run_actions_from(m_before, acts, group_id, i as int).1);
                }
            } else {
                proof {
                    assert(run_actions_from(m_before, acts, group_id, i as int) == (
                        run_actions_from(board.model(), acts, group_id, i as int + 1).0,
                        Seq::<StepImage>::empty() + run_actions_from(
                            board.model(),
                            acts,
                            group_id,
                            i as int + 1,
                        ).1,
                    ));
                    assert(step.condition_state.step_images@ + run_actions_from(
                        board.model(),
                        acts,
                        group_id,
                        i as int + 1,
                    ).1 =~= imgs_before + run_actions_from(m_before, acts, group_id, i as int).1);
                }
            }
            i = i + 1;
        }
        proof {
            assert(run_actions_from(board.model(), acts, group_id, n as int).1
                =~= Seq::<StepImage>::empty());
            assert(step.condition_state.step_images@ + Seq::<StepImage>::empty()
                =~= step.condition_state.step_images@);
        }
        step
    }
}

impl Step<ImageState> {
    /// Restores the former state of every touched square from the recorded
    /// pre-images, most recently captured first.
    pub(crate) fn reconstruct(&self, board: &mut Board)
        requires
            old(board).model().complete(),
            images_onboard(self.condition_state.step_images@),
        ensures
            final(board).model() == spec_undo(
                old(board).model(),
                self.condition_state.step_images@,
            ),
            final(board).model().complete(),
    {
        let ghost m0 = old(board).model();
        let ghost imgs = self.condition_state.step_images@;
        let mut i = self.condition_state.step_images.len();
        while i > 0
            invariant
                0 <= i <= imgs.len(),
                imgs == self.condition_state.step_images@,
                board.model().complete(),
                images_onboard(imgs),
                spec_undo(m0, imgs) == spec_undo_from(board.model(), imgs, i as int),
            decreases i,
        {
            i = i - 1;
            let image = self.condition_state.step_images[i];
            match image.unit {
                Some(unit) => board.set_unit(unit, image.pos),
                None => board.remove_unit(&image.pos),
            }
        }
    }
}

/// Every recorded pre-image lies on the board.
pub open spec fn images_onboard(images: Seq<StepImage>) -> bool {
    forall|j: int| 0 <= j < images.len() ==> (#[trigger] images[j].pos).spec_onboard()
}

impl Command {
    /// Mutates the [`Board`], giving back the pre-images of the squares the
    /// command overwrote, in the order they were captured.
    pub(crate) fn execute(&self, board: &mut Board) -> (r: Vec<StepImage>)
        requires
            old(board).model().complete(),
            match *self {
                Command::Remove(pos) => pos.spec_onboard(),
                Command::Move(unit_pos, target_pos) => unit_pos.spec_onboard()
                    && target_pos.spec_onboard(),
                Command::Promote(pos) => pos.spec_onboard(),
            },
        ensures
            final(board).model() == run_command(old(board).model(), *self).0,
            r@ == run_command(old(board).model(), *self).1,
            final(board).model().complete(),
    {
        let mut step_image: Vec<StepImage> = Vec::new();

        match self {
            Self::Remove(pos) => {
                step_image.push(StepImage { unit: board.get_unit(pos), pos: *pos });
                board.remove_unit(pos);
            },
            Self::Move(unit_pos, target_pos) => {
                if let Some(unit) = board.get_unit(unit_pos) {
                    step_image.push(StepImage { unit: Some(unit), pos: *unit_pos });
                    step_image.push(
                        StepImage { unit: board.get_unit(target_pos), pos: *target_pos },
                    );
                    board.remove_unit(unit_pos);
                    board.set_unit(unit.set_moved(true), *target_pos);
                }
            },
            Self::Promote(pos) => board.promote(*pos),
        }

        proof {
            assert(step_image@ =~= run_command(old(board).model(), *self).1);
        }
        step_image
    }
}

/// Copies an action list, so that the next phase owns its own.
fn clone_actions(actions: &Vec<StepAction>) -> (r: Vec<StepAction>)
    ensures
        r@ == actions@,
{
    let mut r: Vec<StepAction> = Vec::new();
    let mut i: usize = 0;
    while i < actions.len()
        invariant
            0 <= i <= actions@.len(),
            r@ == actions@.subrange(0, i as int),
        decreases actions@.len() - i,
    {
        r.push(actions[i]);
        i = i + 1;
    }
    proof {
        assert(r@ =~= actions@);
    }
    r
}

} // verus!
