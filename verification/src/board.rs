//! The 8x8 board: the grid of optional pieces, the cached king squares, and
//! the rule engine proper.

use vstd::prelude::*;

use crate::pos::{abs_i, clamp_i, lemma_between_onboard, sign_i, spec_between, Pos};
use crate::side::Side;
use crate::step::{
    actions_onboard, all_conds_hold_from, cond_holds, conds_onboard, lemma_eval_single_group,
    lemma_undo_concat, lemma_undo_promote_covered, run_actions, run_actions_from, run_command,
    spec_eval, spec_eval_from, spec_undo, spec_undo_from, Command, ConditionState, Step,
    StepAction, StepCondition, StepImage, StepResult, Test,
};
use crate::unit::{eq_unit_type, Moved, Unit};

verus! {

/// The mathematical model of a board: what each of the 64 squares holds,
/// row-major from the top-left corner as Black sees it, plus the cached
/// king squares.
#[verifier::ext_equal]
pub ghost struct BoardModel {
    pub squares: Seq<Option<Unit>>,
    pub black_king: Option<Pos>,
    pub white_king: Option<Pos>,
}

/// The row-major index of an on-board position.
pub open spec fn sq(p: Pos) -> int {
    p.y * 8 + p.x
}

/// Whether the square holds a king of the given side.
pub open spec fn is_king_of(occupant: Option<Unit>, side: Side) -> bool {
    match occupant {
        Some(unit) => unit is King && unit.spec_side() == side,
        None => false,
    }
}

impl BoardModel {
    /// The grid has exactly one entry per square.
    pub open spec fn complete(self) -> bool {
        self.squares.len() == 64
    }

    /// The occupant of the given square.
    pub open spec fn at(self, p: Pos) -> Option<Unit> {
        self.squares[sq(p)]
    }

    /// The cached king square of the given side.
    pub open spec fn king_pos(self, side: Side) -> Option<Pos> {
        match side {
            Side::Black => self.black_king,
            Side::White => self.white_king,
        }
    }

    /// The model with the cache of `side` pointing at `p`.
    pub open spec fn with_king(self, side: Side, p: Pos) -> BoardModel {
        match side {
            Side::Black => BoardModel { black_king: Some(p), ..self },
            Side::White => BoardModel { white_king: Some(p), ..self },
        }
    }

    /// The model after writing `unit` to `p`; placing a king also points
    /// that side's cache at `p`.
    pub open spec fn set(self, unit: Unit, p: Pos) -> BoardModel {
        let m = BoardModel { squares: self.squares.update(sq(p), Some(unit)), ..self };
        if unit is King {
            m.with_king(unit.spec_side(), p)
        } else {
            m
        }
    }

    /// The model after clearing `p`. The caches are left alone, as the
    /// engine never removes a king.
    pub open spec fn remove(self, p: Pos) -> BoardModel {
        BoardModel { squares: self.squares.update(sq(p), None), ..self }
    }

    /// The model after promoting at `p`: a pawn standing on a far rank
    /// becomes a queen of its side; any other square is left alone.
    pub open spec fn promote(self, p: Pos) -> BoardModel {
        if p.y != 0 && p.y != 7 {
            self
        } else {
            match self.at(p) {
                Some(unit) => if unit is Pawn {
                    BoardModel {
                        squares: self.squares.update(sq(p), Some(Unit::Queen(unit.spec_side()))),
                        ..self
                    }
                } else {
                    self
                },
                None => self,
            }
        }
    }

    /// The cache of `side` agrees with the grid: it points at the one square
    /// holding that side's king, or is `None` when no such king exists.
    pub open spec fn king_ok(self, side: Side) -> bool {
        match self.king_pos(side) {
            Some(p) => p.spec_onboard() && is_king_of(self.at(p), side) && forall|q: Pos|
                q.spec_onboard() && is_king_of(#[trigger] self.at(q), side) ==> q == p,
            None => forall|q: Pos| q.spec_onboard() ==> !is_king_of(#[trigger] self.at(q), side),
        }
    }

    /// A well-formed board: complete grid and both king caches truthful.
    pub open spec fn wf(self) -> bool {
        self.complete() && self.king_ok(Side::Black) && self.king_ok(Side::White)
    }
}

/// The square holds no king.
pub open spec fn not_king(occupant: Option<Unit>) -> bool {
    match occupant {
        Some(unit) => !(unit is King),
        None => true,
    }
}

impl BoardModel {
    /// Whatever the caches point at lies on the board.
    pub open spec fn caches_onboard(self) -> bool {
        &&& match self.black_king {
            Some(p) => p.spec_onboard(),
            None => true,
        }
        &&& match self.white_king {
            Some(p) => p.spec_onboard(),
            None => true,
        }
    }

    /// A king standing on `p` is the king its side's cache points at.
    pub open spec fn king_pinned(self, p: Pos) -> bool {
        match self.at(p) {
            Some(unit) => unit is King ==> self.king_pos(unit.spec_side()) == Some(p),
            None => true,
        }
    }
}

/// An on-board square's row-major index lies inside the grid.
pub proof fn lemma_sq_bounds(p: Pos)
    requires
        p.spec_onboard(),
    ensures
        0 <= sq(p) < 64,
{
}

/// Distinct on-board squares have distinct row-major indices.
pub proof fn lemma_sq_injective(p: Pos, q: Pos)
    requires
        p.spec_onboard(),
        q.spec_onboard(),
        sq(p) == sq(q),
    ensures
        p == q,
{
}

/// On a well-formed board every king is where its cache says.
pub proof fn lemma_wf_pinned(m: BoardModel, p: Pos)
    requires
        m.wf(),
        p.spec_onboard(),
    ensures
        m.king_pinned(p),
{
    if m.at(p) is Some {
        let unit = m.at(p)->0;
        if unit is King {
            let side = unit.spec_side();
            assert(is_king_of(m.at(p), side));
            match m.king_pos(side) {
                Some(q) => {
                    assert(p == q);
                },
                None => {
                    assert(!is_king_of(m.at(p), side));
                },
            }
        }
    }
}

/// Replaying a relocation's two pre-images in reverse undoes it exactly,
/// provided any king among the two squares is where its cache says.
proof fn lemma_move_restore(m: BoardModel, f: Pos, t: Pos)
    requires
        m.complete(),
        f.spec_onboard(),
        t.spec_onboard(),
        f != t,
        m.king_pinned(f),
        m.king_pinned(t),
    ensures
        run_command(m, Command::Move(f, t)).0.complete(),
        spec_undo(run_command(m, Command::Move(f, t)).0, run_command(m, Command::Move(f, t)).1)
            == m,
{
    lemma_sq_bounds(f);
    lemma_sq_bounds(t);
    assert(sq(f) != sq(t)) by {
        if sq(f) == sq(t) {
            lemma_sq_injective(f, t);
        }
    }
    if m.at(f) is Some {
        let unit = m.at(f)->0;
        let relocated = unit.spec_set_moved(true);
        let m1 = m.remove(f).set(relocated, t);
        let run = run_command(m, Command::Move(f, t));
        let imgs = run.1;
        assert(run.0 == m1);
        assert(imgs.len() == 2);
        let mb = match m.at(t) {
            Some(v) => m1.set(v, t),
            None => m1.remove(t),
        };
        let mc = mb.set(unit, f);
        assert(spec_undo(m1, imgs) == mc) by {
            reveal_with_fuel(spec_undo_from, 4);
        }
        assert(mc.squares =~= m.squares);
        assert(relocated is King <==> unit is King);
        if unit is King {
            assert(m.king_pos(unit.spec_side()) == Some(f));
        }
        if m.at(t) is Some && m.at(t)->0 is King {
            assert(m.king_pos((m.at(t)->0).spec_side()) == Some(t));
        }
        assert(mc.black_king == m.black_king);
        assert(mc.white_king == m.white_king);
        assert(mc =~= m);
    } else {
        assert(run_command(m, Command::Move(f, t)).1 =~= Seq::<StepImage>::empty());
    }
}

/// Replaying a removal's pre-image restores it, provided a removed king is
/// where its cache says.
proof fn lemma_remove_restore(m: BoardModel, o: Pos)
    requires
        m.complete(),
        o.spec_onboard(),
        m.king_pinned(o),
    ensures
        run_command(m, Command::Remove(o)).0.complete(),
        spec_undo(run_command(m, Command::Remove(o)).0, run_command(m, Command::Remove(o)).1) == m,
{
    lemma_sq_bounds(o);
    let m1 = m.remove(o);
    let run = run_command(m, Command::Remove(o));
    assert(run.0 == m1);
    assert(run.1.len() == 1);
    let mb = match m.at(o) {
        Some(v) => m1.set(v, o),
        None => m1.remove(o),
    };
    assert(spec_undo(m1, run.1) == mb) by {
        reveal_with_fuel(spec_undo_from, 3);
    }
    assert(mb.squares =~= m.squares);
    assert(mb.black_king == m.black_king);
    assert(mb.white_king == m.white_king);
    assert(mb =~= m);
}

/// Relocating a piece onto a king-free square keeps one side's cache
/// truthful.
proof fn lemma_move_king_ok(m: BoardModel, f: Pos, t: Pos, side: Side)
    requires
        m.wf(),
        f.spec_onboard(),
        t.spec_onboard(),
        f != t,
        not_king(m.at(t)),
        m.at(f) is Some,
    ensures
        run_command(m, Command::Move(f, t)).0.king_ok(side),
{
    lemma_sq_bounds(f);
    lemma_sq_bounds(t);
    assert(sq(f) != sq(t)) by {
        if sq(f) == sq(t) {
            lemma_sq_injective(f, t);
        }
    }
    lemma_wf_pinned(m, f);
    let unit = m.at(f)->0;
    let relocated = unit.spec_set_moved(true);
    let m1 = m.remove(f).set(relocated, t);
    assert(run_command(m, Command::Move(f, t)).0 == m1);
    assert(m1.at(f) is None);
    assert(m1.at(t) == Some(relocated));
    assert(relocated is King <==> unit is King);
    assert(relocated.spec_side() == unit.spec_side());
    if unit is King && unit.spec_side() == side {
        assert(m.king_pos(side) == Some(f));
        assert(m1.king_pos(side) == Some(t));
        assert(is_king_of(m1.at(t), side));
        assert forall|q: Pos|
            q.spec_onboard() && is_king_of(#[trigger] m1.at(q), side) implies q == t by {
            if q != t && q != f {
                lemma_sq_bounds(q);
                assert(sq(q) != sq(f)) by {
                    if sq(q) == sq(f) {
                        lemma_sq_injective(q, f);
                    }
                }
                assert(sq(q) != sq(t)) by {
                    if sq(q) == sq(t) {
                        lemma_sq_injective(q, t);
                    }
                }
                assert(m1.at(q) == m.at(q));
                assert(q == f);
            }
        }
    } else {
        assert(m1.king_pos(side) == m.king_pos(side));
        assert(!is_king_of(m1.at(t), side));
        assert forall|q: Pos|
            q.spec_onboard() && q != f && q != t implies m1.at(q) == m.at(q) by {
            lemma_sq_bounds(q);
            assert(sq(q) != sq(f)) by {
                if sq(q) == sq(f) {
                    lemma_sq_injective(q, f);
                }
            }
            assert(sq(q) != sq(t)) by {
                if sq(q) == sq(t) {
                    lemma_sq_injective(q, t);
                }
            }
        }
        match m.king_pos(side) {
            Some(p) => {
                assert(is_king_of(m.at(p), side));
                assert(p != t);
                assert(p != f);
                assert(is_king_of(m1.at(p), side));
                assert forall|q: Pos|
                    q.spec_onboard() && is_king_of(#[trigger] m1.at(q), side) implies q == p by {
                    assert(q != f && q != t);
                    assert(m1.at(q) == m.at(q));
                }
            },
            None => {
                assert forall|q: Pos|
                    q.spec_onboard() implies !is_king_of(#[trigger] m1.at(q), side) by {
                    if q != f && q != t {
                        assert(m1.at(q) == m.at(q));
                    }
                }
            },
        }
    }
}

/// Relocating a piece onto a king-free square keeps the board well formed.
proof fn lemma_move_wf(m: BoardModel, f: Pos, t: Pos)
    requires
        m.wf(),
        f.spec_onboard(),
        t.spec_onboard(),
        f != t,
        not_king(m.at(t)),
    ensures
        run_command(m, Command::Move(f, t)).0.wf(),
{
    if m.at(f) is Some {
        lemma_move_king_ok(m, f, t, Side::Black);
        lemma_move_king_ok(m, f, t, Side::White);
        lemma_sq_bounds(f);
        lemma_sq_bounds(t);
    }
}

/// Removing a piece that is no king keeps the board well formed.
proof fn lemma_remove_wf(m: BoardModel, o: Pos)
    requires
        m.wf(),
        o.spec_onboard(),
        not_king(m.at(o)),
    ensures
        run_command(m, Command::Remove(o)).0.wf(),
{
    lemma_sq_bounds(o);
    let m1 = m.remove(o);
    assert forall|side: Side, q: Pos|
        q.spec_onboard() implies #[trigger] is_king_of(m1.at(q), side) == is_king_of(
        m.at(q),
        side,
    ) by {
        lemma_sq_bounds(q);
        if q != o {
            assert(sq(q) != sq(o)) by {
                if sq(q) == sq(o) {
                    lemma_sq_injective(q, o);
                }
            }
            assert(m1.at(q) == m.at(q));
        } else {
            assert(m1.at(q) is None);
        }
    }
    assert(m1.king_ok(Side::Black));
    assert(m1.king_ok(Side::White));
}

/// Promotion keeps the board well formed: it turns a pawn into a queen in
/// place and touches no king and no cache.
proof fn lemma_promote_wf(m: BoardModel, t: Pos)
    requires
        m.wf(),
        t.spec_onboard(),
    ensures
        m.promote(t).wf(),
{
    lemma_sq_bounds(t);
    let m1 = m.promote(t);
    assert forall|side: Side, q: Pos|
        q.spec_onboard() implies #[trigger] is_king_of(m1.at(q), side) == is_king_of(
        m.at(q),
        side,
    ) by {
        lemma_sq_bounds(q);
        if q != t {
            assert(sq(q) != sq(t)) by {
                if sq(q) == sq(t) {
                    lemma_sq_injective(q, t);
                }
            }
            assert(m1.at(q) == m.at(q));
        }
    }
    assert(m1.king_ok(Side::Black));
    assert(m1.king_ok(Side::White));
}

/// A relocation followed by a promotion of its destination: the board stays
/// well formed, and the relocation's own pre-images undo both.
proof fn lemma_effects_move_promote(m: BoardModel, f: Pos, t: Pos)
    requires
        m.wf(),
        f.spec_onboard(),
        t.spec_onboard(),
        f != t,
        not_king(m.at(t)),
        m.at(f) is Some,
    ensures
        ({
            let rc = run_command(m, Command::Move(f, t));
            let m2 = rc.0.promote(t);
            m2.wf() && spec_undo(m2, rc.1) == m
        }),
{
    let rc = run_command(m, Command::Move(f, t));
    lemma_wf_pinned(m, f);
    lemma_wf_pinned(m, t);
    lemma_move_restore(m, f, t);
    lemma_move_wf(m, f, t);
    lemma_promote_wf(rc.0, t);
    assert(rc.1.len() == 2 && rc.1[1].pos == t);
    lemma_undo_promote_covered(rc.0, t, rc.1);
}

/// The en passant shape: a removal, a relocation onto an empty square, and
/// a promotion of the destination. Well-formedness is kept and the recorded
/// pre-images undo the three exactly.
proof fn lemma_effects_en_passant(m: BoardModel, o: Pos, f: Pos, t: Pos)
    requires
        m.wf(),
        o.spec_onboard(),
        f.spec_onboard(),
        t.spec_onboard(),
        f != t,
        f != o,
        t != o,
        not_king(m.at(o)),
        m.at(t) is None,
        m.at(f) is Some,
    ensures
        ({
            let r1 = run_command(m, Command::Remove(o));
            let r2 = run_command(r1.0, Command::Move(f, t));
            let m3 = r2.0.promote(t);
            m3.wf() && spec_undo(m3, r1.1 + r2.1) == m
        }),
{
    lemma_sq_bounds(o);
    lemma_sq_bounds(f);
    lemma_sq_bounds(t);
    lemma_wf_pinned(m, o);
    lemma_remove_restore(m, o);
    lemma_remove_wf(m, o);
    let r1 = run_command(m, Command::Remove(o));
    let m1 = r1.0;
    assert(sq(f) != sq(o)) by {
        if sq(f) == sq(o) {
            lemma_sq_injective(f, o);
        }
    }
    assert(sq(t) != sq(o)) by {
        if sq(t) == sq(o) {
            lemma_sq_injective(t, o);
        }
    }
    assert(m1.at(f) == m.at(f));
    assert(m1.at(t) == m.at(t));
    lemma_wf_pinned(m1, f);
    lemma_wf_pinned(m1, t);
    lemma_move_restore(m1, f, t);
    lemma_move_wf(m1, f, t);
    let r2 = run_command(m1, Command::Move(f, t));
    let m2 = r2.0;
    lemma_promote_wf(m2, t);
    assert(r1.1.len() == 1 && r2.1.len() == 2);
    assert((r1.1 + r2.1)[2] == r2.1[1]);
    assert(r2.1[1].pos == t);
    lemma_undo_promote_covered(m2, t, r1.1 + r2.1);
    lemma_undo_concat(m2, r1.1, r2.1);
}

/// The castling shape: the king's two-square move followed by the rook's
/// relocation onto the square the king passed over. The pre-images undo
/// both exactly; the board stays well formed unless the king's destination
/// held a king, which only the degenerate two-file castle can let through.
proof fn lemma_effects_castle(m: BoardModel, f: Pos, t: Pos, rf: Pos, rt: Pos)
    requires
        m.wf(),
        f.spec_onboard(),
        t.spec_onboard(),
        rf.spec_onboard(),
        rt.spec_onboard(),
        f != t,
        rf != rt,
        rf != f,
        rt != f,
        rt != t,
        m.at(f) is Some,
        (m.at(f)->0) is King,
        m.at(rt) is None,
        t != rf ==> m.at(t) is None,
    ensures
        ({
            let r1 = run_command(m, Command::Move(f, t));
            let r2 = run_command(r1.0, Command::Move(rf, rt));
            &&& spec_undo(r2.0, r1.1 + r2.1) == m
            &&& r2.0.complete()
            &&& (not_king(m.at(t)) ==> r2.0.wf())
        }),
{
    lemma_sq_bounds(f);
    lemma_sq_bounds(t);
    lemma_sq_bounds(rf);
    lemma_sq_bounds(rt);
    assert(sq(rf) != sq(f)) by {
        if sq(rf) == sq(f) {
            lemma_sq_injective(rf, f);
        }
    }
    assert(rf != t ==> sq(rf) != sq(t)) by {
        if sq(rf) == sq(t) {
            lemma_sq_injective(rf, t);
        }
    }
    assert(sq(rt) != sq(f)) by {
        if sq(rt) == sq(f) {
            lemma_sq_injective(rt, f);
        }
    }
    assert(sq(rt) != sq(t)) by {
        if sq(rt) == sq(t) {
            lemma_sq_injective(rt, t);
        }
    }
    let unit = m.at(f)->0;
    let side = unit.spec_side();
    lemma_wf_pinned(m, f);
    lemma_wf_pinned(m, t);
    lemma_move_restore(m, f, t);
    let r1 = run_command(m, Command::Move(f, t));
    let m1 = r1.0;
    assert(m1.king_pos(side) == Some(t));
    // Any king on the rook's home square is still where its cache says.
    assert(m1.king_pinned(rf)) by {
        if t == rf {
        } else {
            assert(m1.at(rf) == m.at(rf));
            if m1.at(rf) is Some && (m1.at(rf)->0) is King {
                let other = (m.at(rf)->0).spec_side();
                lemma_wf_pinned(m, rf);
                assert(other != side) by {
                    if other == side {
                        assert(is_king_of(m.at(f), side));
                        assert(is_king_of(m.at(rf), side));
                        assert(f == rf);
                    }
                }
                assert(m1.king_pos(other) == m.king_pos(other));
            }
        }
    }
    assert(m1.king_pinned(rt)) by {
        assert(m1.at(rt) == m.at(rt));
    }
    lemma_move_restore(m1, rf, rt);
    let r2 = run_command(m1, Command::Move(rf, rt));
    lemma_undo_concat(r2.0, r1.1, r2.1);
    if not_king(m.at(t)) {
        lemma_move_wf(m, f, t);
        assert(not_king(m1.at(rt)));
        lemma_move_wf(m1, rf, rt);
    }
}

/// The one shape of step after which the king bookkeeping can break: a
/// castle whose two-square displacement ends on the rook's home square
/// while a king stands there, so that the king capture slips past the
/// vacancy conditions, which only cover the squares strictly between king
/// and rook.
pub open spec fn spec_step_captures_king(m: BoardModel, from: Pos, to: Pos) -> bool {
    match m.at(from) {
        Some(unit) => unit is King && !unit.spec_moved() && to.y == from.y && abs_i(to.x - from.x)
            == 2 && !not_king(m.at(to)),
        None => false,
    }
}

/// A candidate of one group whose only action relocates the piece, with a
/// no-king condition on the destination: executing it keeps the board well
/// formed and its pre-images undo it.
proof fn lemma_effects_simple_move(m: BoardModel, from: Pos, to: Pos, cand: Candidate)
    requires
        m.wf(),
        from.spec_onboard(),
        to.spec_onboard(),
        from != to,
        m.at(from) is Some,
        cand.valid,
        forall|j: int| 0 <= j < cand.conds.len() ==> (#[trigger] cand.conds[j]).group_id == 0,
        exists|j: int|
            0 <= j < cand.conds.len() && cand.conds[j] == (StepCondition {
                group_id: 0,
                pos: to,
                test: Test::NotKing,
            }),
        cand.actions == seq![StepAction { group_id: 0, command: Command::Move(from, to) }],
        spec_eval(m, cand.conds, cand.valid).valid,
    ensures
        ({
            let res = spec_eval(m, cand.conds, cand.valid);
            let run = run_actions(m, cand.actions, res.group_id->0);
            run.0.wf() && spec_undo(run.0, run.1) == m
        }),
{
    let res = spec_eval(m, cand.conds, cand.valid);
    lemma_eval_single_group(m, cand.conds, 0, true);
    assert(all_conds_hold_from(m, cand.conds, 0));
    let j = choose|j: int|
        0 <= j < cand.conds.len() && cand.conds[j] == (StepCondition {
            group_id: 0,
            pos: to,
            test: Test::NotKing,
        });
    assert(cond_holds(m, cand.conds[j]));
    assert(not_king(m.at(to)));
    assert(res.group_id->0 == 0);
    let run = run_actions(m, cand.actions, 0);
    let rc = run_command(m, Command::Move(from, to));
    assert(run.0 == rc.0 && run.1 =~= rc.1) by {
        reveal_with_fuel(run_actions_from, 3);
    }
    lemma_wf_pinned(m, from);
    lemma_wf_pinned(m, to);
    lemma_move_restore(m, from, to);
    lemma_move_wf(m, from, to);
}

/// What executing an accepted step does: the grid stays complete, the
/// caches keep pointing on the board, the recorded pre-images undo the step
/// exactly, and the king bookkeeping survives every step except the
/// degenerate castle that captures a king outright.
pub proof fn lemma_step_effects(m: BoardModel, unit: Unit, from: Pos, to: Pos)
    requires
        m.wf(),
        from.spec_onboard(),
        to.spec_onboard(),
        m.at(from) == Some(unit),
        spec_eval(m, candidate_of(unit, from, to).conds, candidate_of(unit, from, to).valid).valid,
    ensures
        ({
            let cand = candidate_of(unit, from, to);
            let res = spec_eval(m, cand.conds, cand.valid);
            let run = run_actions(m, cand.actions, res.group_id->0);
            &&& run.0.complete()
            &&& run.0.caches_onboard()
            &&& spec_undo(run.0, run.1) == m
            &&& (!spec_step_captures_king(m, from, to) ==> run.0.wf())
        }),
{
    let cand = candidate_of(unit, from, to);
    let res = spec_eval(m, cand.conds, cand.valid);
    let g = res.group_id->0;
    let run = run_actions(m, cand.actions, g);
    lemma_candidate_onboard(unit, from, to);
    assert(m.caches_onboard());
    lemma_run_caches(m, cand.actions, g, 0);

    match unit {
        Unit::Pawn(side, moved) => {
            let dy = to.y - from.y;
            let direction_ok = (side == Side::Black && dy > 0) || (side == Side::White && dy < 0);
            if !direction_ok {
                assert(!res.valid);
            } else {
                let offset = if side == Side::Black {
                    Pos { x: to.x, y: clamp_i(to.y - 1) as i8 }
                } else {
                    Pos { x: to.x, y: clamp_i(to.y + 1) as i8 }
                };
                let adx = abs_i(to.x - from.x);
                let ady = abs_i(dy);
                if adx == 0 && ady == 1 {
                    lemma_eval_single_group(m, cand.conds, 0, true);
                    assert(cond_holds(m, cand.conds[0]));
                    assert(m.at(to) is None);
                    assert(g == 0);
                    let rc = run_command(m, Command::Move(from, to));
                    assert(run.0 == rc.0.promote(to) && run.1 =~= rc.1) by {
                        reveal_with_fuel(run_actions_from, 4);
                    }
                    lemma_effects_move_promote(m, from, to);
                } else if adx == 0 && ady == 2 && !moved {
                    lemma_eval_single_group(m, cand.conds, 0, true);
                    assert(cond_holds(m, cand.conds[1]));
                    assert(m.at(to) is None);
                    assert(g == 0);
                    let rc = run_command(m, Command::Move(from, to));
                    assert(run.0 == rc.0.promote(to) && run.1 =~= rc.1) by {
                        reveal_with_fuel(run_actions_from, 4);
                    }
                    lemma_effects_move_promote(m, from, to);
                } else if adx == 1 && ady == 1 {
                    let h0 = cond_holds(m, cand.conds[0]);
                    let h1 = cond_holds(m, cand.conds[1]);
                    let h2 = cond_holds(m, cand.conds[2]);
                    let h3 = cond_holds(m, cand.conds[3]);
                    let h4 = cond_holds(m, cand.conds[4]);
                    assert(res == (if h0 && h1 {
                        StepResult { group_id: Some(0i8), valid: true }
                    } else if h2 && h3 && h4 {
                        StepResult { group_id: Some(1i8), valid: true }
                    } else {
                        StepResult { group_id: None, valid: false }
                    })) by {
                        reveal_with_fuel(spec_eval_from, 8);
                    }
                    if h0 && h1 {
                        assert(not_king(m.at(to)));
                        assert(g == 0);
                        let rc = run_command(m, Command::Move(from, to));
                        assert(run.0 == rc.0.promote(to) && run.1 =~= rc.1) by {
                            reveal_with_fuel(run_actions_from, 8);
                        }
                        lemma_effects_move_promote(m, from, to);
                    } else {
                        assert(h2 && h3 && h4);
                        assert(not_king(m.at(offset)));
                        assert(m.at(to) is None);
                        assert(g == 1);
                        assert(offset.spec_onboard());
                        assert(offset != to && from != offset && from != to);
                        let r1 = run_command(m, Command::Remove(offset));
                        let r2 = run_command(r1.0, Command::Move(from, to));
                        assert(run.0 == r2.0.promote(to) && run.1 =~= r1.1 + r2.1) by {
                            reveal_with_fuel(run_actions_from, 8);
                        }
                        lemma_effects_en_passant(m, offset, from, to);
                    }
                } else {
                    assert(!res.valid);
                }
            }
        },
        Unit::Bishop(side) => {
            assert(bishop_geometry(from, to) ==> from != to);
            lemma_effects_slider(m, from, to, side, bishop_geometry(from, to));
        },
        Unit::Rook(side, _) => {
            assert(rook_geometry(from, to) ==> from != to);
            lemma_effects_slider(m, from, to, side, rook_geometry(from, to));
        },
        Unit::Queen(side) => {
            assert(queen_geometry(from, to) ==> from != to);
            lemma_effects_slider(m, from, to, side, queen_geometry(from, to));
        },
        Unit::Knight(side) => {
            if knight_geometry(from, to) {
                assert(from != to);
                lemma_effects_simple_move(m, from, to, cand);
            } else {
                assert(!res.valid);
            }
        },
        Unit::King(side, moved) => {
            let dx = to.x - from.x;
            let dyk = to.y - from.y;
            if abs_i(dx) <= 1 && abs_i(dyk) <= 1 {
                lemma_eval_single_group(m, cand.conds, 0, true);
                assert(cond_holds(m, cand.conds[1]));
                assert(not_king(m.at(to)));
                assert(from != to) by {
                    if from == to {
                        assert(m.at(to) == Some(unit));
                    }
                }
                lemma_effects_simple_move(m, from, to, cand);
            } else if dyk == 0 && dx == -2 && !moved {
                lemma_effects_castle_side(m, unit, from, to, false);
            } else if dyk == 0 && dx == 2 && !moved {
                lemma_effects_castle_side(m, unit, from, to, true);
            } else {
                assert(!res.valid);
            }
        },
    }
}

/// The slider cases of [`lemma_step_effects`].
proof fn lemma_effects_slider(m: BoardModel, from: Pos, to: Pos, side: Side, geometry_ok: bool)
    requires
        m.wf(),
        from.spec_onboard(),
        to.spec_onboard(),
        m.at(from) is Some,
        geometry_ok ==> from != to,
        spec_eval(
            m,
            slider_candidate(from, to, side, geometry_ok).conds,
            slider_candidate(from, to, side, geometry_ok).valid,
        ).valid,
    ensures
        ({
            let cand = slider_candidate(from, to, side, geometry_ok);
            let res = spec_eval(m, cand.conds, cand.valid);
            let run = run_actions(m, cand.actions, res.group_id->0);
            run.0.wf() && spec_undo(run.0, run.1) == m
        }),
{
    let cand = slider_candidate(from, to, side, geometry_ok);
    if geometry_ok {
        let vp = vacant_path(from, to);
        assert forall|j: int|
            0 <= j < cand.conds.len() implies (#[trigger] cand.conds[j]).group_id == 0 by {
            if j < vp.len() {
                assert(cand.conds[j] == vp[j]);
            }
        }
        assert(cand.conds[vp.len() as int] == (StepCondition {
            group_id: 0,
            pos: to,
            test: Test::NotKing,
        }));
        lemma_effects_simple_move(m, from, to, cand);
    } else {
        assert(!spec_eval(m, cand.conds, cand.valid).valid);
    }
}

/// The castle cases of [`lemma_step_effects`]; `kingside` tells the two
/// directions apart.
proof fn lemma_effects_castle_side(m: BoardModel, unit: Unit, from: Pos, to: Pos, kingside: bool)
    requires
        m.wf(),
        from.spec_onboard(),
        to.spec_onboard(),
        m.at(from) == Some(unit),
        unit is King,
        !unit.spec_moved(),
        to.y == from.y,
        to.x - from.x == (if kingside {
            2int
        } else {
            -2int
        }),
        spec_eval(
            m,
            candidate_of(unit, from, to).conds,
            candidate_of(unit, from, to).valid,
        ).valid,
    ensures
        ({
            let cand = candidate_of(unit, from, to);
            let res = spec_eval(m, cand.conds, cand.valid);
            let run = run_actions(m, cand.actions, res.group_id->0);
            &&& spec_undo(run.0, run.1) == m
            &&& (!spec_step_captures_king(m, from, to) ==> run.0.wf())
        }),
{
    let cand = candidate_of(unit, from, to);
    let res = spec_eval(m, cand.conds, cand.valid);
    let rf = if kingside {
        Pos { x: 7, y: to.y }
    } else {
        Pos { x: 0, y: to.y }
    };
    let rt = if kingside {
        Pos { x: clamp_i(to.x - 1) as i8, y: to.y }
    } else {
        Pos { x: clamp_i(to.x + 1) as i8, y: to.y }
    };
    let vp = vacant_path(from, rf);
    let between = spec_between(from, rf);
    let sx = sign_i(rf.x - from.x);
    assert(sx == (if kingside {
        1int
    } else {
        -1int
    }));
    assert forall|j: int|
        0 <= j < cand.conds.len() implies (#[trigger] cand.conds[j]).group_id == 0 by {
        if j < vp.len() {
            assert(cand.conds[j] == vp[j]);
        }
    }
    lemma_eval_single_group(m, cand.conds, 0, true);
    assert(res.group_id->0 == 0);
    // the rook's destination is the first square of the vacancy path
    assert(between.len() == abs_i(rf.x - from.x) - 1);
    crate::pos::lemma_unit_products(1, sx);
    crate::pos::lemma_unit_products(1, sign_i(rf.y - from.y));
    assert(between[0] == rt);
    assert(cand.conds[0] == vp[0]);
    assert(cond_holds(m, cand.conds[0]));
    assert(m.at(rt) is None);
    // and the king's destination is the second, unless it is the rook square
    if to != rf {
        crate::pos::lemma_unit_products(2, sx);
        crate::pos::lemma_unit_products(2, sign_i(rf.y - from.y));
        assert(between.len() >= 2);
        assert(between[1] == to);
        assert(cand.conds[1] == vp[1]);
        assert(cond_holds(m, cand.conds[1]));
        assert(m.at(to) is None);
    }
    assert(from != to && rf != rt && rf != from && rt != from && rt != to);
    lemma_effects_castle(m, from, to, rf, rt);
    let r1 = run_command(m, Command::Move(from, to));
    let r2 = run_command(r1.0, Command::Move(rf, rt));
    let run = run_actions(m, cand.actions, 0);
    assert(run.0 == r2.0 && run.1 =~= r1.1 + r2.1) by {
        reveal_with_fuel(run_actions_from, 4);
    }
    assert(!spec_step_captures_king(m, from, to) ==> not_king(m.at(to)));
}

/// Running actions never drops a square and only ever points a cache at an
/// on-board square.
pub proof fn lemma_run_caches(m: BoardModel, actions: Seq<StepAction>, g: i8, i: int)
    requires
        m.complete(),
        m.caches_onboard(),
        actions_onboard(actions),
    ensures
        run_actions_from(m, actions, g, i).0.complete(),
        run_actions_from(m, actions, g, i).0.caches_onboard(),
    decreases actions.len() - i,
{
    if 0 <= i < actions.len() {
        let this = if actions[i].group_id == g {
            run_command(m, actions[i].command)
        } else {
            (m, Seq::<StepImage>::empty())
        };
        assert(this.0.complete() && this.0.caches_onboard()) by {
            match actions[i].command {
                Command::Remove(pos) => {
                    lemma_sq_bounds(pos);
                },
                Command::Move(unit_pos, target_pos) => {
                    lemma_sq_bounds(unit_pos);
                    lemma_sq_bounds(target_pos);
                },
                Command::Promote(pos) => {
                    lemma_sq_bounds(pos);
                },
            }
        }
        lemma_run_caches(this.0, actions, g, i + 1);
    }
}

/// The piece standing on file `x` of a back rank at the start of a game.
pub open spec fn back_rank(side: Side, x: int) -> Unit {
    if x == 0 || x == 7 {
        Unit::Rook(side, false)
    } else if x == 1 || x == 6 {
        Unit::Knight(side)
    } else if x == 2 || x == 5 {
        Unit::Bishop(side)
    } else if x == 3 {
        Unit::Queen(side)
    } else {
        Unit::King(side, false)
    }
}

/// The occupant of square `i` in the conventional starting arrangement.
pub open spec fn initial_square(i: int) -> Option<Unit> {
    let y = i / 8;
    let x = i % 8;
    if y == 0 {
        Some(back_rank(Side::Black, x))
    } else if y == 1 {
        Some(Unit::Pawn(Side::Black, false))
    } else if y == 6 {
        Some(Unit::Pawn(Side::White, false))
    } else if y == 7 {
        Some(back_rank(Side::White, x))
    } else {
        None
    }
}

/// The starting position: 32 pieces in the conventional arrangement, the
/// kings on E8 and E1.
pub open spec fn initial_model() -> BoardModel {
    BoardModel {
        squares: Seq::new(64, |i: int| initial_square(i)),
        black_king: Some(Pos { x: 4, y: 0 }),
        white_king: Some(Pos { x: 4, y: 7 }),
    }
}

/// The starting position is well formed.
pub proof fn lemma_initial_model_wf()
    ensures
        initial_model().wf(),
{
    let m = initial_model();
    assert(m.at(Pos { x: 4, y: 0 }) == Some(Unit::King(Side::Black, false)));
    assert(m.at(Pos { x: 4, y: 7 }) == Some(Unit::King(Side::White, false)));
    assert forall|q: Pos|
        q.spec_onboard() && is_king_of(#[trigger] m.at(q), Side::Black) implies q == (Pos {
        x: 4,
        y: 0,
    }) by {
        assert(sq(q) == q.y * 8 + q.x);
    }
    assert forall|q: Pos|
        q.spec_onboard() && is_king_of(#[trigger] m.at(q), Side::White) implies q == (Pos {
        x: 4,
        y: 7,
    }) by {
        assert(sq(q) == q.y * 8 + q.x);
    }
}

/// The 8x8 grid of optional pieces and the cached king squares.
pub struct Board {
    squares: Vec<Option<Unit>>,
    black_king_pos: Option<Pos>,
    white_king_pos: Option<Pos>,
}

impl Board {
    /// The mathematical board this value represents.
    pub closed spec fn model(self) -> BoardModel {
        BoardModel {
            squares: self.squares@,
            black_king: self.black_king_pos,
            white_king: self.white_king_pos,
        }
    }

    /// Creates a new [`Board`] in the standard starting position.
    pub fn new() -> (r: Self)
        ensures
            r.model() == initial_model(),
    {
        Self::default()
    }

    /// Returns the cached [`Pos`] of the king of the given `side`, `None`
    /// when that side has no king on the board.
    fn get_king_pos(&self, side: &Side) -> (r: Option<Pos>)
        ensures
            r == self.model().king_pos(*side),
    {
        match side {
            Side::Black => self.black_king_pos,
            Side::White => self.white_king_pos,
        }
    }

    /// Points the king cache of the given `side` at `pos`.
    fn set_king_pos(&mut self, side: &Side, pos: Pos)
        ensures
            final(self).model() == old(self).model().with_king(*side, pos),
    {
        match side {
            Side::Black => self.black_king_pos = Some(pos),
            Side::White => self.white_king_pos = Some(pos),
        }
    }

    /// Gives back the [`Unit`] on the given position.
    pub fn get_unit(&self, pos: &Pos) -> (r: Option<Unit>)
        requires
            self.model().complete(),
            pos.is_onboard(),
        ensures
            r == self.model().at(*pos),
    {
        self.squares[(pos.y as usize) * 8 + (pos.x as usize)]
    }

    /// Sets the [`Unit`] on the target position, pointing the king cache at
    /// it when the unit is a king.
    pub fn set_unit(&mut self, unit: Unit, pos: Pos)
        requires
            old(self).model().complete(),
            pos.is_onboard(),
        ensures
            final(self).model() == old(self).model().set(unit, pos),
            final(self).model().complete(),
    {
        self.squares.set((pos.y as usize) * 8 + (pos.x as usize), Some(unit));
        if let Unit::King(side, _) = unit {
            self.set_king_pos(&side, pos);
        }
    }

    /// Removes a [`Unit`] from the [`Board`].
    pub fn remove_unit(&mut self, pos: &Pos)
        requires
            old(self).model().complete(),
            pos.is_onboard(),
        ensures
            final(self).model() == old(self).model().remove(*pos),
            final(self).model().complete(),
    {
        self.squares.set((pos.y as usize) * 8 + (pos.x as usize), None);
    }

    /// Promotes the [`Unit`] on `pos` to a queen, when that unit is a pawn
    /// standing on the first or the last row.
    pub(crate) fn promote(&mut self, pos: Pos)
        requires
            old(self).model().complete(),
            pos.is_onboard(),
        ensures
            final(self).model() == old(self).model().promote(pos),
            final(self).model().complete(),
    {
        if pos.y != 0 && pos.y != 7 {
            return ;
        }
        if let Some(unit) = self.get_unit(&pos) {
            if eq_unit_type(&unit, &Unit::Pawn(Side::Black, false)) {
                let queen = unit.change_type(&Unit::Queen(Side::Black));
                self.squares.set((pos.y as usize) * 8 + (pos.x as usize), Some(queen));
            }
        }
    }

    /// Builds the pawn's candidate step for the given displacement.
    fn step_pawn(&self, unit_pos: &Pos, target_pos: &Pos, side: &Side, moved: &Moved) -> (r: Step<
        ConditionState,
    >)
        requires
            unit_pos.is_onboard(),
            target_pos.is_onboard(),
        ensures
            step_matches(r, pawn_candidate(*unit_pos, *target_pos, *side, *moved)),
    {
        let mut step = Step::new(false);

        let calc_x: i8 = target_pos.x - unit_pos.x;
        let calc_y: i8 = target_pos.y - unit_pos.y;

        // Validate the step direction; the offset square sits one step
        // behind the destination, seen from the mover.
        let offset_pos: Pos;
        if *side == Side::Black && calc_y > 0 {
            offset_pos = target_pos.checked_up();
        } else if *side == Side::White && calc_y < 0 {
            offset_pos = target_pos.checked_down();
        } else {
            return step;
        }

        let adx = if calc_x < 0 {
            -calc_x
        } else {
            calc_x
        };
        let ady = if calc_y < 0 {
            -calc_y
        } else {
            calc_y
        };

        // One vertical step, e.g. D5 -> D4; two, e.g. D7 -> D5.
        if adx == 0 {
            if ady == 1 {
                step.set(true);

                step.add_cond_pos_is_none(*target_pos);

                step.add_action_move(*unit_pos, *target_pos);
            } else if ady == 2 && !*moved {
                step.set(true);

                step.add_cond_pos_is_none(offset_pos);
                step.add_cond_pos_is_none(*target_pos);

                step.add_action_move(*unit_pos, *target_pos);
            }
        } else if adx == 1 && ady == 1 {
            // Capture, e.g. D5 -> C4, and behind it en passant.
            step.set(true);

            step.add_cond_pos_is_enemy(*target_pos, side);
            step.add_cond_pos_not_king(*target_pos);

            step.add_action_move(*unit_pos, *target_pos);
            step.add_action_promote(*target_pos);

            step.next_group();
            step.add_cond_pos_is_enemy(offset_pos, side);
            step.add_cond_pos_not_king(offset_pos);
            step.add_cond_pos_is_none(*target_pos);

            step.add_action_remove(offset_pos);
            step.add_action_move(*unit_pos, *target_pos);
        }

        step.add_action_promote(*target_pos);

        proof {
            let c = pawn_candidate(*unit_pos, *target_pos, *side, *moved);
            assert(step.condition_state.step_conditions@ =~= c.conds);
            assert(step.actions@ =~= c.actions);
        }
        step
    }

    /// The shared body of the sliding pieces: a clear path, a destination
    /// that is no king and empty or enemy, and the single relocation.
    fn step_slider(&self, unit_pos: &Pos, target_pos: &Pos, side: &Side, geometry_ok: bool) -> (r:
        Step<ConditionState>)
        requires
            unit_pos.is_onboard(),
            target_pos.is_onboard(),
        ensures
            step_matches(r, slider_candidate(*unit_pos, *target_pos, *side, geometry_ok)),
    {
        let mut step = Step::new(false);

        if geometry_ok {
            step.set(true);

            self.push_vacant_path(&mut step, unit_pos, target_pos);
            step.add_cond_pos_not_king(*target_pos);
            step.add_cond_pos_is_enemy_or_none(*target_pos, side);

            step.add_action_move(*unit_pos, *target_pos);

            proof {
                let c = slider_candidate(*unit_pos, *target_pos, *side, geometry_ok);
                assert(step.condition_state.step_conditions@ =~= c.conds);
                assert(step.actions@ =~= c.actions);
            }
        }
        step
    }

    /// Adds one vacancy condition per square strictly between the two
    /// positions.
    fn push_vacant_path(&self, step: &mut Step<ConditionState>, unit_pos: &Pos, target_pos: &Pos)
        requires
            old(step).wf(),
            old(step).groups == 0,
            old(step).condition_state.step_conditions@.len() + 8 < 127,
        ensures
            final(step).wf(),
            final(step).groups == 0,
            final(step).condition_state.step_conditions@ == old(
                step,
            ).condition_state.step_conditions@ + vacant_path(*unit_pos, *target_pos),
            final(step).step_valid == old(step).step_valid,
            final(step).actions@ == old(step).actions@,
    {
        let path = unit_pos.to(target_pos);
        let ghost between = spec_between(*unit_pos, *target_pos);
        let ghost conds0 = step.condition_state.step_conditions@;
        let mut i: usize = 0;
        while i < path.len()
            invariant
                0 <= i <= path@.len(),
                path@ == between,
                between == spec_between(*unit_pos, *target_pos),
                conds0 == old(step).condition_state.step_conditions@,
                between.len() <= 6,
                step.wf(),
                step.groups == 0,
                step.condition_state.step_conditions@.len() == conds0.len() + i,
                conds0.len() + 8 < 127,
                step.condition_state.step_conditions@ == conds0 + vacant_path(
                    *unit_pos,
                    *target_pos,
                ).take(i as int),
                step.step_valid == old(step).step_valid,
                step.actions@ == old(step).actions@,
            decreases path@.len() - i,
        {
            step.add_cond_pos_is_none(path[i]);
            proof {
                let vp = vacant_path(*unit_pos, *target_pos);
                assert(vp.len() == between.len());
                assert(vp[i as int] == (StepCondition {
                    group_id: 0,
                    pos: between[i as int],
                    test: Test::Vacant,
                }));
                assert(vp.take(i as int + 1) =~= vp.take(i as int).push(vp[i as int]));
                assert(step.condition_state.step_conditions@ =~= conds0 + vp.take(i as int + 1));
            }
            i = i + 1;
        }
        proof {
            assert(vacant_path(*unit_pos, *target_pos).take(between.len() as int) =~= vacant_path(
                *unit_pos,
                *target_pos,
            ));
        }
    }

    /// Builds the bishop's candidate step: a diagonal displacement.
    fn step_bishop(&self, unit_pos: &Pos, target_pos: &Pos, side: &Side) -> (r: Step<
        ConditionState,
    >)
        requires
            unit_pos.is_onboard(),
            target_pos.is_onboard(),
        ensures
            step_matches(
                r,
                slider_candidate(
                    *unit_pos,
                    *target_pos,
                    *side,
                    bishop_geometry(*unit_pos, *target_pos),
                ),
            ),
    {
        let adx = abs_diff(target_pos.x, unit_pos.x);
        let ady = abs_diff(target_pos.y, unit_pos.y);
        self.step_slider(unit_pos, target_pos, side, adx == ady && adx + ady != 0)
    }

    /// Builds the knight's candidate step: the L-shaped displacement.
    fn step_knight(&self, unit_pos: &Pos, target_pos: &Pos, side: &Side) -> (r: Step<
        ConditionState,
    >)
        requires
            unit_pos.is_onboard(),
            target_pos.is_onboard(),
        ensures
            step_matches(r, knight_candidate(*unit_pos, *target_pos, *side)),
    {
        let mut step = Step::new(false);

        let adx = abs_diff(target_pos.x, unit_pos.x);
        let ady = abs_diff(target_pos.y, unit_pos.y);

        if (adx == 1 && ady == 2) || (adx == 2 && ady == 1) {
            step.set(true);

            step.add_cond_pos_not_king(*target_pos);
            step.add_cond_pos_is_enemy_or_none(*target_pos, side);

            step.add_action_move(*unit_pos, *target_pos);

            proof {
                let c = knight_candidate(*unit_pos, *target_pos, *side);
                assert(step.condition_state.step_conditions@ =~= c.conds);
                assert(step.actions@ =~= c.actions);
            }
        }
        step
    }

    /// Builds the rook's candidate step: a horizontal or vertical
    /// displacement.
    fn step_rook(&self, unit_pos: &Pos, target_pos: &Pos, side: &Side) -> (r: Step<ConditionState>)
        requires
            unit_pos.is_onboard(),
            target_pos.is_onboard(),
        ensures
            step_matches(
                r,
                slider_candidate(
                    *unit_pos,
                    *target_pos,
                    *side,
                    rook_geometry(*unit_pos, *target_pos),
                ),
            ),
    {
        let adx = abs_diff(target_pos.x, unit_pos.x);
        let ady = abs_diff(target_pos.y, unit_pos.y);
        self.step_slider(unit_pos, target_pos, side, (adx == 0 || ady == 0) && adx + ady != 0)
    }

    /// Builds the queen's candidate step: any straight displacement.
    fn step_queen(&self, unit_pos: &Pos, target_pos: &Pos, side: &Side) -> (r: Step<ConditionState>)
        requires
            unit_pos.is_onboard(),
            target_pos.is_onboard(),
        ensures
            step_matches(
                r,
                slider_candidate(
                    *unit_pos,
                    *target_pos,
                    *side,
                    queen_geometry(*unit_pos, *target_pos),
                ),
            ),
    {
        let adx = abs_diff(target_pos.x, unit_pos.x);
        let ady = abs_diff(target_pos.y, unit_pos.y);
        self.step_slider(
            unit_pos,
            target_pos,
            side,
            (adx == 0 || ady == 0 || adx == ady) && adx + ady != 0,
        )
    }

    /// Builds the king's candidate step: the one-square move, or castling.
    fn step_king(&self, unit_pos: &Pos, target_pos: &Pos, side: &Side, moved: &Moved) -> (r: Step<
        ConditionState,
    >)
        requires
            unit_pos.is_onboard(),
            target_pos.is_onboard(),
        ensures
            step_matches(r, king_candidate(*unit_pos, *target_pos, *side, *moved)),
    {
        let mut step = Step::new(false);

        let calc_x: i8 = target_pos.x - unit_pos.x;
        let calc_y: i8 = target_pos.y - unit_pos.y;
        let adx = if calc_x < 0 {
            -calc_x
        } else {
            calc_x
        };
        let ady = if calc_y < 0 {
            -calc_y
        } else {
            calc_y
        };

        if adx <= 1 && ady <= 1 {
            // The ordinary one-square move.
            step.set(true);

            step.add_cond_pos_is_enemy_or_none(*target_pos, side);
            step.add_cond_pos_not_king(*target_pos);

            step.add_action_move(*unit_pos, *target_pos);
        } else if calc_y == 0 {
            if calc_x == -2 && !*moved {
                // Castle toward file A, e.g. E1 -> C1.
                step.set(true);

                let rook_from = target_pos.start_row();
                self.push_vacant_path(&mut step, unit_pos, &rook_from);
                step.add_cond_pos_not_moved(rook_from);

                step.add_action_move(*unit_pos, *target_pos);
                step.add_action_move(rook_from, target_pos.checked_right());
            } else if calc_x == 2 && !*moved {
                // Castle toward file H, e.g. E1 -> G1.
                step.set(true);

                let rook_from = target_pos.end_row();
                self.push_vacant_path(&mut step, unit_pos, &rook_from);
                step.add_cond_pos_not_moved(rook_from);

                step.add_action_move(*unit_pos, *target_pos);
                step.add_action_move(rook_from, target_pos.checked_left());
            }
        }

        proof {
            let c = king_candidate(*unit_pos, *target_pos, *side, *moved);
            assert(step.condition_state.step_conditions@ =~= c.conds);
            assert(step.actions@ =~= c.actions);
        }
        step
    }

    /// Searches along ray direction `dir` for the first occupied square.
    ///
    /// Returns its [`Pos`] when a unit is found before the board edge,
    /// `None` otherwise.
    fn find_unit_direction(&self, pos: Pos, dir: u8) -> (r: Option<Pos>)
        requires
            self.model().complete(),
            pos.is_onboard(),
            dir < 8,
        ensures
            r == first_occupied(self.model(), pos, dir as int),
    {
        let ghost m = self.model();
        let ghost d = dir as int;
        let mut cur = pos;
        let mut k: u8 = 0;
        loop
            invariant
                self.model() == m,
                m.complete(),
                dir < 8,
                d == dir as int,
                pos.spec_onboard(),
                cur.spec_onboard(),
                0 <= k <= 7,
                cur.x == pos.x + k * dir_delta(d).0,
                cur.y == pos.y + k * dir_delta(d).1,
                first_occupied(m, pos, d) == first_occupied_from(m, cur, d, (8 - k) as nat),
            decreases 8 - k,
        {
            let check = step_dir(&cur, dir);
            if !check.is_onboard() {
                return None;
            }
            if self.get_unit(&check).is_some() {
                return Some(check);
            }
            proof {
                crate::pos::lemma_unit_products(k as int, dir_delta(d).0);
                crate::pos::lemma_unit_products(k as int, dir_delta(d).1);
                crate::pos::lemma_unit_products(k as int + 1, dir_delta(d).0);
                crate::pos::lemma_unit_products(k as int + 1, dir_delta(d).1);
            }
            cur = check;
            k = k + 1;
        }
    }

    /// Searches for knights one jump away from the given [`Pos`].
    ///
    /// Returns the squares of all the knights found, of either side, in
    /// offset-table order and without repetition: exactly
    /// [`knight_list`]. The two quantified clauses restate the list's
    /// content for the check-detection proof.
    fn find_knights(&self, pos: Pos) -> (r: Vec<Pos>)
        requires
            self.model().complete(),
            pos.is_onboard(),
        ensures
            r@ == knight_list(self.model(), pos),
            forall|j: int| 0 <= j < r@.len() ==> knight_found(self.model(), pos, #[trigger] r@[j]),
            forall|k: int|
                0 <= k < 8 && knight_at(self.model(), pos, k) ==> r@.contains(knight_square(pos, k)),
    {
        let ghost m = self.model();
        let mut positions: Vec<Pos> = Vec::new();
        let mut k: u8 = 0;
        while k < 8
            invariant
                self.model() == m,
                m.complete(),
                pos.spec_onboard(),
                0 <= k <= 8,
                knight_list(m, pos) == positions@ + knight_list_from(m, pos, k as int),
                forall|j: int| 0 <= j < positions@.len() ==> knight_found(m, pos, #[trigger] positions@[j]),
                forall|kk: int|
                    0 <= kk < k && knight_at(m, pos, kk) ==> positions@.contains(
                        knight_square(pos, kk),
                    ),
            decreases 8 - k,
        {
            let check = knight_square_at(&pos, k);
            let ghost before = positions@;
            let mut pushed = false;
            if check.is_onboard() {
                if let Some(unit) = self.get_unit(&check) {
                    if eq_unit_type(&unit, &Unit::Knight(Side::Black)) {
                        positions.push(check);
                        pushed = true;
                    }
                }
            }
            proof {
                if pushed {
                    assert(positions@ == before.push(check));
                    assert(knight_at(m, pos, k as int));
                    assert(positions@ + knight_list_from(m, pos, k as int + 1) =~= before
                        + knight_list_from(m, pos, k as int));
                    assert(positions@[before.len() as int] == check);
                    assert forall|kk: int|
                        0 <= kk < k + 1 && knight_at(m, pos, kk) implies positions@.contains(
                        knight_square(pos, kk),
                    ) by {
                        if kk < k {
                            let j = choose|j: int|
                                0 <= j < before.len() && before[j] == knight_square(pos, kk);
                            assert(positions@[j] == knight_square(pos, kk));
                        } else {
                            assert(positions@[before.len() as int] == knight_square(pos, kk));
                        }
                    }
                } else {
                    assert(!knight_at(m, pos, k as int));
                    assert(positions@ + knight_list_from(m, pos, k as int + 1) =~= before
                        + knight_list_from(m, pos, k as int));
                    assert forall|kk: int|
                        0 <= kk < k + 1 && knight_at(m, pos, kk) implies positions@.contains(
                        knight_square(pos, kk),
                    ) by {}
                }
            }
            k = k + 1;
        }
        proof {
            assert(positions@ + knight_list_from(m, pos, 8) =~= positions@);
        }
        positions
    }

    /// Returns true if the given [`Unit`] would check a king standing on
    /// `king_pos` by its raw attack geometry.
    fn test_checking(&self, unit: &Unit, unit_pos: &Pos, king_pos: &Pos) -> (r: bool)
        requires
            unit_pos.is_onboard(),
            king_pos.is_onboard(),
        ensures
            r == threat_geometry(*unit, *unit_pos, *king_pos),
    {
        let dx = abs_diff(king_pos.x, unit_pos.x);
        let dy = abs_diff(king_pos.y, unit_pos.y);

        match unit {
            Unit::Pawn(side, _) => {
                let direction_ok = match side {
                    Side::Black => king_pos.y >= unit_pos.y,
                    Side::White => king_pos.y <= unit_pos.y,
                };
                direction_ok && dx == 1 && dy == 1
            },
            Unit::Bishop(_) => dx == dy && dx + dy != 0,
            Unit::Knight(_) => (dx == 1 && dy == 2) || (dx == 2 && dy == 1),
            Unit::Rook(_, _) => (dx == 0 || dy == 0) && dx + dy != 0,
            Unit::Queen(_) => (dx == 0 || dy == 0 || dx == dy) && dx + dy != 0,
            Unit::King(_, _) => dx <= 1 && dy <= 1,
        }
    }

    /// Returns true when the king of `side` is checked on this board.
    fn test_checked_status(&self, side: &Side) -> (r: bool)
        requires
            self.model().complete(),
            self.model().caches_onboard(),
        ensures
            r == spec_checked(self.model(), *side),
    {
        let ghost m = self.model();
        let king_pos = match self.get_king_pos(side) {
            Some(p) => p,
            None => {
                return false;
            },
        };

        let mut d: u8 = 0;
        while d < 8
            invariant
                self.model() == m,
                m.complete(),
                Some(king_pos) == m.king_pos(*side),
                king_pos.spec_onboard(),
                0 <= d <= 8,
                forall|dd: int| 0 <= dd < d ==> !ray_threat(m, king_pos, dd, *side),
            decreases 8 - d,
        {
            if let Some(p) = self.find_unit_direction(king_pos, d) {
                proof {
                    lemma_first_occupied_props(m, king_pos, d as int, 8);
                }
                let unit = self.get_unit(&p).unwrap();
                if unit.get_side() != *side {
                    if self.test_checking(&unit, &p, &king_pos) {
                        proof {
                            assert(ray_threat(m, m.king_pos(*side)->0, d as int, *side));
                            assert(spec_checked(m, *side));
                        }
                        return true;
                    }
                }
            }
            d = d + 1;
        }

        let knights = self.find_knights(king_pos);
        let mut j: usize = 0;
        while j < knights.len()
            invariant
                self.model() == m,
                m.complete(),
                Some(king_pos) == m.king_pos(*side),
                king_pos.spec_onboard(),
                0 <= j <= knights@.len(),
                forall|jj: int| 0 <= jj < knights@.len() ==> knight_found(m, king_pos, #[trigger] knights@[jj]),
                forall|k: int|
                    0 <= k < 8 && knight_at(m, king_pos, k) ==> knights@.contains(
                        knight_square(king_pos, k),
                    ),
                forall|jj: int|
                    0 <= jj < j ==> !is_enemy_of(m.at(#[trigger] knights@[jj]), *side),
                forall|dd: int| 0 <= dd < 8 ==> !ray_threat(m, king_pos, dd, *side),
            decreases knights@.len() - j,
        {
            let p = knights[j];
            proof {
                assert(knight_found(m, king_pos, p));
            }
            let unit = self.get_unit(&p).unwrap();
            if unit.get_side() != *side {
                if self.test_checking(&unit, &p, &king_pos) {
                    proof {
                        let k = choose|k: int|
                            0 <= k < 8 && p == knight_square(king_pos, k) && knight_at(
                                m,
                                king_pos,
                                k,
                            );
                        assert(knight_threat(m, m.king_pos(*side)->0, k, *side));
                        assert(spec_checked(m, *side));
                    }
                    return true;
                }
            }
            j = j + 1;
        }

        proof {
            assert forall|k: int| 0 <= k < 8 implies !knight_threat(m, king_pos, k, *side) by {
                if knight_at(m, king_pos, k) {
                    let q = knight_square(king_pos, k);
                    assert(knights@.contains(q));
                    let jj = choose|jj: int| 0 <= jj < knights@.len() && knights@[jj] == q;
                    assert(!is_enemy_of(m.at(q), *side));
                }
            }
        }
        false
    }
}

/// The square holds a piece of the side opposite to `side`.
pub open spec fn is_enemy_of(occupant: Option<Unit>, side: Side) -> bool {
    match occupant {
        Some(unit) => unit.spec_side() != side,
        None => false,
    }
}

/// The verdict of the group evaluation for the piece standing on `from`.
pub open spec fn spec_step_result(m: BoardModel, from: Pos, to: Pos) -> StepResult {
    let cand = candidate_of(m.at(from)->0, from, to);
    spec_eval(m, cand.conds, cand.valid)
}

/// Full legality of the step from `from` to `to` on `m`: one condition
/// group of the piece's candidate is satisfied, and executing the winning
/// group's actions does not leave the mover's own king checked.
pub open spec fn spec_step_ok(m: BoardModel, from: Pos, to: Pos) -> bool {
    let unit = m.at(from)->0;
    let cand = candidate_of(unit, from, to);
    let res = spec_eval(m, cand.conds, cand.valid);
    res.valid && !spec_checked(
        run_actions(m, cand.actions, res.group_id->0).0,
        unit.spec_side(),
    )
}

/// The board after an attempted step: rewritten by the winning group's
/// actions when the step is fully legal, unchanged otherwise.
pub open spec fn spec_step_post(m: BoardModel, from: Pos, to: Pos) -> BoardModel {
    if spec_step_ok(m, from, to) {
        run_actions(
            m,
            candidate_of(m.at(from)->0, from, to).actions,
            spec_step_result(m, from, to).group_id->0,
        ).0
    } else {
        m
    }
}

/// A step whose displacement the piece's geometry already rejects is never
/// legal, and the board after attempting it is the board it started from:
/// with [`Board::step_unit`]'s contract, the attempt returns false and
/// leaves every square as it was, for every piece and every target square.
pub proof fn lemma_geometric_illegal_rejected(m: BoardModel, from: Pos, to: Pos)
    requires
        m.at(from) is Some,
        !candidate_of(m.at(from)->0, from, to).valid,
    ensures
        !spec_step_ok(m, from, to),
        spec_step_post(m, from, to) == m,
{
    let cand = candidate_of(m.at(from)->0, from, to);
    assert(!spec_eval(m, cand.conds, cand.valid).valid);
}

/// The occupant of a square with its moved-flag cleared.
pub open spec fn flagless(occupant: Option<Unit>) -> Option<Unit> {
    match occupant {
        Some(unit) => Some(unit.spec_set_moved(false)),
        None => None,
    }
}

/// The two grids hold the same arrangement of pieces, ignoring
/// moved-flags.
pub open spec fn same_occupancy(m1: BoardModel, m2: BoardModel) -> bool {
    &&& m1.squares.len() == m2.squares.len()
    &&& forall|i: int|
        0 <= i < m1.squares.len() ==> flagless(#[trigger] m1.squares[i]) == flagless(m2.squares[i])
}

/// The ray search cannot tell two boards of the same occupancy apart.
proof fn lemma_first_occupied_congruent(m1: BoardModel, m2: BoardModel, p: Pos, d: int, fuel: nat)
    requires
        m1.complete(),
        m2.complete(),
        same_occupancy(m1, m2),
    ensures
        first_occupied_from(m1, p, d, fuel) == first_occupied_from(m2, p, d, fuel),
    decreases fuel,
{
    if fuel > 0 {
        let q = dir_step(p, d);
        if q.spec_onboard() {
            lemma_sq_bounds(q);
            assert(flagless(m1.at(q)) == flagless(m2.at(q)));
            if !(m1.at(q) is Some) {
                lemma_first_occupied_congruent(m1, m2, q, d, (fuel - 1) as nat);
            }
        }
    }
}

/// Check detection cannot tell two boards apart that hold the same
/// arrangement, up to moved-flags, with the same king caches: the attack
/// geometry never reads a moved-flag.
pub proof fn lemma_checked_congruent(m1: BoardModel, m2: BoardModel, side: Side)
    requires
        m1.complete(),
        m2.complete(),
        same_occupancy(m1, m2),
        m1.black_king == m2.black_king,
        m1.white_king == m2.white_king,
    ensures
        spec_checked(m1, side) == spec_checked(m2, side),
{
    match m1.king_pos(side) {
        None => {
            assert(m2.king_pos(side) is None);
        },
        Some(kp) => {
            assert forall|d: int|
                0 <= d < 8 implies #[trigger] ray_threat(m1, kp, d, side) == ray_threat(
                m2,
                kp,
                d,
                side,
            ) by {
                lemma_first_occupied_congruent(m1, m2, kp, d, 8);
                match first_occupied(m1, kp, d) {
                    Some(p) => {
                        lemma_first_occupied_props(m1, kp, d, 8);
                        lemma_sq_bounds(p);
                        assert(flagless(m1.at(p)) == flagless(m2.at(p)));
                        let a = m1.at(p)->0;
                        let b = m2.at(p)->0;
                        assert(a.spec_set_moved(false) == b.spec_set_moved(false));
                        assert(threat_geometry(a, p, kp) == threat_geometry(b, p, kp));
                        assert(a.spec_side() == b.spec_side());
                    },
                    None => {},
                }
            }
            assert forall|k: int|
                0 <= k < 8 implies #[trigger] knight_threat(m1, kp, k, side) == knight_threat(
                m2,
                kp,
                k,
                side,
            ) by {
                let q = knight_square(kp, k);
                if q.spec_onboard() {
                    lemma_sq_bounds(q);
                    assert(flagless(m1.at(q)) == flagless(m2.at(q)));
                }
            }
            if spec_checked(m1, side) {
                if exists|d: int| 0 <= d < 8 && ray_threat(m1, kp, d, side) {
                    let d = choose|d: int| 0 <= d < 8 && ray_threat(m1, kp, d, side);
                    assert(ray_threat(m2, m2.king_pos(side)->0, d, side));
                } else {
                    let k = choose|k: int| 0 <= k < 8 && knight_threat(m1, kp, k, side);
                    assert(knight_threat(m2, m2.king_pos(side)->0, k, side));
                }
            }
            if spec_checked(m2, side) {
                if exists|d: int| 0 <= d < 8 && ray_threat(m2, kp, d, side) {
                    let d = choose|d: int| 0 <= d < 8 && ray_threat(m2, kp, d, side);
                    assert(ray_threat(m1, m1.king_pos(side)->0, d, side));
                } else {
                    let k = choose|k: int| 0 <= k < 8 && knight_threat(m2, kp, k, side);
                    assert(knight_threat(m1, m1.king_pos(side)->0, k, side));
                }
            }
        },
    }
}

/// The squares strictly between two squares, walked from the other end,
/// are the same squares in reverse order, and none of them is an endpoint.
proof fn lemma_between_reverse(a: Pos, b: Pos)
    requires
        a.spec_onboard(),
        b.spec_onboard(),
    ensures
        spec_between(b, a).len() == spec_between(a, b).len(),
        forall|j: int|
            0 <= j < spec_between(b, a).len() ==> #[trigger] spec_between(b, a)[j] == spec_between(
                a,
                b,
            )[spec_between(a, b).len() - 1 - j],
        forall|j: int|
            0 <= j < spec_between(a, b).len() ==> #[trigger] spec_between(a, b)[j] != a
                && spec_between(a, b)[j] != b,
{
    let dx = b.x - a.x;
    let dy = b.y - a.y;
    if !(dx == 0 && dy == 0) && (dx == 0 || dy == 0 || abs_i(dx) == abs_i(dy)) {
        let num = if dx != 0 {
            abs_i(dx)
        } else {
            abs_i(dy)
        };
        let sx = sign_i(dx);
        let sy = sign_i(dy);
        assert(sign_i(a.x - b.x) == -sx && sign_i(a.y - b.y) == -sy);
        assert forall|j: int|
            0 <= j < spec_between(b, a).len() implies #[trigger] spec_between(b, a)[j]
            == spec_between(a, b)[spec_between(a, b).len() - 1 - j] by {
            crate::pos::lemma_unit_products(j + 1, sx);
            crate::pos::lemma_unit_products(j + 1, sy);
            crate::pos::lemma_unit_products(num - j - 1, sx);
            crate::pos::lemma_unit_products(num - j - 1, sy);
            crate::pos::lemma_unit_products(num, sx);
            crate::pos::lemma_unit_products(num, sy);
        }
        assert forall|j: int|
            0 <= j < spec_between(a, b).len() implies #[trigger] spec_between(a, b)[j] != a
            && spec_between(a, b)[j] != b by {
            crate::pos::lemma_unit_products(j + 1, sx);
            crate::pos::lemma_unit_products(j + 1, sy);
            crate::pos::lemma_unit_products(num, sx);
            crate::pos::lemma_unit_products(num, sy);
        }
    }
}

/// Round trip: a legal move of a reversible piece onto an empty square,
/// followed by the exact reverse displacement, restores the original
/// occupancy square for square; only the relocated piece's moved-flag
/// stays set. Reversible are bishop, knight, rook and queen, and the
/// king's one-square move; the pawn cannot retrace its step. The law asks
/// that the mover's king not already stand in check on the original board:
/// otherwise the reverse move, which restores that board, is itself
/// rejected by the self-check rule.
pub proof fn lemma_round_trip(m: BoardModel, from: Pos, to: Pos)
    requires
        m.wf(),
        from.spec_onboard(),
        to.spec_onboard(),
        m.at(from) is Some,
        match m.at(from)->0 {
            Unit::Pawn(..) => false,
            Unit::King(..) => abs_i(to.x - from.x) <= 1 && abs_i(to.y - from.y) <= 1,
            _ => true,
        },
        m.at(to) is None,
        spec_step_ok(m, from, to),
        !spec_checked(m, (m.at(from)->0).spec_side()),
    ensures
        spec_step_ok(spec_step_post(m, from, to), to, from),
        same_occupancy(spec_step_post(spec_step_post(m, from, to), to, from), m),
{
    let unit = m.at(from)->0;
    let side = unit.spec_side();
    let cand = candidate_of(unit, from, to);
    let res = spec_eval(m, cand.conds, cand.valid);
    assert(from != to);
    lemma_sq_bounds(from);
    lemma_sq_bounds(to);
    assert(sq(from) != sq(to)) by {
        if sq(from) == sq(to) {
            lemma_sq_injective(from, to);
        }
    }

    // The forward step is a single-group candidate whose one action is the
    // relocation; its conditions all hold.
    let vp = vacant_path(from, to);
    assert forall|j: int|
        0 <= j < cand.conds.len() implies (#[trigger] cand.conds[j]).group_id == 0 by {
        if j < vp.len() {
            assert(cand.conds[j] == vp[j]);
        }
    }
    lemma_eval_single_group(m, cand.conds, 0, true);
    assert(res.valid && res.group_id->0 == 0);
    assert(all_conds_hold_from(m, cand.conds, 0));
    assert(cand.actions == seq![StepAction { group_id: 0, command: Command::Move(from, to) }]);

    let relocated = unit.spec_set_moved(true);
    let m1 = m.remove(from).set(relocated, to);
    assert(spec_step_post(m, from, to) == m1) by {
        reveal_with_fuel(run_actions_from, 3);
    }
    assert(m1.at(to) == Some(relocated));
    assert(m1.at(from) is None);
    assert forall|q: Pos| q.spec_onboard() && q != from && q != to implies #[trigger] m1.at(q)
        == m.at(q) by {
        lemma_sq_bounds(q);
        if sq(q) == sq(from) {
            lemma_sq_injective(q, from);
        }
        if sq(q) == sq(to) {
            lemma_sq_injective(q, to);
        }
    }

    // The reverse displacement proposes the mirror candidate, and every
    // one of its conditions holds on the moved board: the path squares are
    // the same squares in reverse order, and the vacated source is empty.
    let cand2 = candidate_of(relocated, to, from);
    assert(relocated.spec_side() == side);
    let vp2 = vacant_path(to, from);
    lemma_between_reverse(from, to);
    lemma_between_onboard(from, to);
    assert(cand2.valid);
    assert forall|j: int|
        0 <= j < cand2.conds.len() implies (#[trigger] cand2.conds[j]).group_id == 0 by {
        if j < vp2.len() {
            assert(cand2.conds[j] == vp2[j]);
        }
    }
    assert forall|j: int| 0 <= j < vp2.len() implies cond_holds(m1, #[trigger] cand2.conds[j]) by {
        let n = spec_between(from, to).len() as int;
        let q = spec_between(to, from)[j];
        assert(cand2.conds[j] == vp2[j]);
        assert(q == spec_between(from, to)[n - 1 - j]);
        assert(cond_holds(m, cand.conds[n - 1 - j]));
        assert(cand.conds[n - 1 - j] == vp[n - 1 - j]);
        assert(m.at(q) is None);
        assert(q != from && q != to);
        assert(m1.at(q) == m.at(q));
    }
    assert(all_conds_hold_from(m1, cand2.conds, 0)) by {
        assert forall|j: int|
            0 <= j < cand2.conds.len() implies cond_holds(m1, #[trigger] cand2.conds[j]) by {
            if j >= vp2.len() {
                assert(cand2.conds[j].pos == from);
            }
        }
    }
    lemma_eval_single_group(m1, cand2.conds, 0, true);
    let res2 = spec_eval(m1, cand2.conds, cand2.valid);
    assert(res2.valid && res2.group_id->0 == 0);
    assert(cand2.actions == seq![StepAction { group_id: 0, command: Command::Move(to, from) }]);

    // Moving back lands the piece on its old square, with only its
    // moved-flag changed, and the caches exactly restored.
    assert(relocated.spec_set_moved(true) == relocated);
    let m2 = m1.remove(to).set(relocated, from);
    assert(run_actions(m1, cand2.actions, 0).0 == m2) by {
        reveal_with_fuel(run_actions_from, 3);
    }
    assert(m2.squares.len() == 64);
    assert(same_occupancy(m2, m)) by {
        assert forall|i: int|
            0 <= i < m2.squares.len() implies flagless(#[trigger] m2.squares[i]) == flagless(
            m.squares[i],
        ) by {
            assert(unit.spec_set_moved(false) == relocated.spec_set_moved(false));
        }
    }
    if unit is King {
        lemma_wf_pinned(m, from);
        assert(m.king_pos(side) == Some(from));
    }
    assert(m2.black_king == m.black_king);
    assert(m2.white_king == m.white_king);
    lemma_checked_congruent(m2, m, side);
    assert(!spec_checked(m2, side));
    assert(spec_step_ok(m1, to, from));
    assert(spec_step_post(m1, to, from) == m2);
}

/// Every king that has never moved stands on its home file E. The starting
/// position satisfies this, every step preserves it, and under it the
/// degenerate castle of [`spec_step_captures_king`] cannot pass the
/// vacancy conditions, so the king bookkeeping survives every step.
pub open spec fn kings_at_home(m: BoardModel) -> bool {
    forall|p: Pos|
        p.spec_onboard() && (match #[trigger] m.at(p) {
            Some(unit) => unit is King && !unit.spec_moved(),
            None => false,
        }) ==> p.x == 4
}

/// The starting position keeps its unmoved kings on the home file.
pub proof fn lemma_initial_kings_at_home()
    ensures
        kings_at_home(initial_model()),
{
    assert forall|p: Pos|
        p.spec_onboard() && (match #[trigger] initial_model().at(p) {
            Some(unit) => unit is King && !unit.spec_moved(),
            None => false,
        }) implies p.x == 4 by {
        assert(sq(p) == p.y * 8 + p.x);
    }
}

/// After running any actions, a square either still holds what it held, or
/// holds no piece, no king, or a piece whose moved-flag is set: relocation
/// always marks the moved piece, and promotion writes a queen.
spec fn square_provenance(m: BoardModel, m2: BoardModel, p: Pos) -> bool {
    m2.at(p) == m.at(p) || match m2.at(p) {
        None => true,
        Some(unit) => !(unit is King) || unit.spec_moved(),
    }
}

/// Running actions can only clear squares, mark moved pieces, or promote;
/// it never writes an unmoved king anywhere.
proof fn lemma_run_squares_provenance(m: BoardModel, actions: Seq<StepAction>, g: i8, i: int)
    requires
        m.complete(),
        actions_onboard(actions),
    ensures
        forall|p: Pos|
            p.spec_onboard() ==> #[trigger] square_provenance(
                m,
                run_actions_from(m, actions, g, i).0,
                p,
            ),
    decreases actions.len() - i,
{
    if 0 <= i < actions.len() {
        let this = if actions[i].group_id == g {
            run_command(m, actions[i].command)
        } else {
            (m, Seq::<StepImage>::empty())
        };
        let m2 = run_actions_from(m, actions, g, i).0;
        lemma_run_squares_provenance(this.0, actions, g, i + 1);
        assert(m2 == run_actions_from(this.0, actions, g, i + 1).0);
        assert forall|p: Pos| p.spec_onboard() implies #[trigger] square_provenance(
            m,
            m2,
            p,
        ) by {
            lemma_sq_bounds(p);
            assert(square_provenance(this.0, m2, p));
            assert(square_provenance(m, this.0, p)) by {
                match actions[i].command {
                    Command::Remove(pos) => {
                        lemma_sq_bounds(pos);
                    },
                    Command::Move(unit_pos, target_pos) => {
                        lemma_sq_bounds(unit_pos);
                        lemma_sq_bounds(target_pos);
                    },
                    Command::Promote(pos) => {
                        lemma_sq_bounds(pos);
                    },
                }
            }
        }
    } else {
        assert forall|p: Pos| p.spec_onboard() implies #[trigger] square_provenance(
            m,
            run_actions_from(m, actions, g, i).0,
            p,
        ) by {}
    }
}

/// From a position whose unmoved kings stand at home, an accepted step is
/// never the degenerate king-capturing castle: the king would have to
/// start on file E, so its destination cannot be the rook's home square,
/// and the vacancy conditions then cover it.
pub proof fn lemma_at_home_never_captures_king(m: BoardModel, from: Pos, to: Pos)
    requires
        m.wf(),
        kings_at_home(m),
        from.spec_onboard(),
        to.spec_onboard(),
        m.at(from) is Some,
        spec_step_ok(m, from, to),
    ensures
        !spec_step_captures_king(m, from, to),
{
    let unit = m.at(from)->0;
    let cand = candidate_of(unit, from, to);
    if spec_step_captures_king(m, from, to) {
        assert(from.x == 4);
        let kingside = to.x - from.x == 2;
        let rf = if kingside {
            Pos { x: 7, y: to.y }
        } else {
            Pos { x: 0, y: to.y }
        };
        let vp = vacant_path(from, rf);
        let sx = sign_i(rf.x - from.x);
        assert forall|j: int|
            0 <= j < cand.conds.len() implies (#[trigger] cand.conds[j]).group_id == 0 by {
            if j < vp.len() {
                assert(cand.conds[j] == vp[j]);
            }
        }
        lemma_eval_single_group(m, cand.conds, 0, true);
        assert(all_conds_hold_from(m, cand.conds, 0));
        crate::pos::lemma_unit_products(2, sx);
        crate::pos::lemma_unit_products(2, sign_i(rf.y - from.y));
        assert(spec_between(from, rf)[1] == to);
        assert(cand.conds[1] == vp[1]);
        assert(cond_holds(m, cand.conds[1]));
        assert(m.at(to) is None);
    }
}

/// The board invariant of the engine in one theorem: from any well-formed
/// position whose unmoved kings stand at home — the starting position is
/// one, and the property persists — an attempted step, accepted or
/// rejected, leaves a well-formed position whose unmoved kings stand at
/// home: the king-position caches always equal the squares actually
/// holding the kings.
pub proof fn lemma_step_preserves_wf(m: BoardModel, from: Pos, to: Pos)
    requires
        m.wf(),
        kings_at_home(m),
        from.spec_onboard(),
        to.spec_onboard(),
        m.at(from) is Some,
    ensures
        spec_step_post(m, from, to).wf(),
        kings_at_home(spec_step_post(m, from, to)),
{
    if spec_step_ok(m, from, to) {
        let unit = m.at(from)->0;
        let cand = candidate_of(unit, from, to);
        let res = spec_eval(m, cand.conds, cand.valid);
        let post = spec_step_post(m, from, to);
        lemma_at_home_never_captures_king(m, from, to);
        lemma_step_effects(m, unit, from, to);
        lemma_candidate_onboard(unit, from, to);
        lemma_run_squares_provenance(m, cand.actions, res.group_id->0, 0);
        assert forall|p: Pos|
            p.spec_onboard() && (match #[trigger] post.at(p) {
                Some(u) => u is King && !u.spec_moved(),
                None => false,
            }) implies p.x == 4 by {
            assert(square_provenance(m, post, p));
        }
    }
}

/// Rejection is idempotent: an illegal step leaves the board as it was, so
/// attempting the same step again gives the same false verdict and the
/// same board — no state drifts across repeated rejections.
pub proof fn lemma_rejection_idempotent(m: BoardModel, from: Pos, to: Pos)
    requires
        !spec_step_ok(m, from, to),
    ensures
        spec_step_post(m, from, to) == m,
        !spec_step_ok(spec_step_post(m, from, to), from, to),
        spec_step_post(spec_step_post(m, from, to), from, to) == m,
{
}

impl Board {
    /// Attempts the step from `unit_pos` to `target_pos` for the piece
    /// standing on `unit_pos`, which the caller has checked to exist.
    ///
    /// Returns true and commits the move exactly when it is fully legal,
    /// including the rule that it must not leave the mover's own king in
    /// check; returns false and leaves the board square for square
    /// unchanged otherwise, rolling the move back from its recorded
    /// pre-images when the check test is what rejected it.
    pub fn step_unit(&mut self, unit_pos: &Pos, target_pos: &Pos) -> (r: bool)
        requires
            old(self).model().wf(),
            unit_pos.is_onboard(),
            target_pos.is_onboard(),
            old(self).model().at(*unit_pos) is Some,
        ensures
            r == spec_step_ok(old(self).model(), *unit_pos, *target_pos),
            final(self).model() == spec_step_post(old(self).model(), *unit_pos, *target_pos),
            final(self).model().complete(),
            final(self).model().caches_onboard(),
            !spec_step_captures_king(old(self).model(), *unit_pos, *target_pos)
                ==> final(self).model().wf(),
    {
        let ghost m = self.model();

        let selected_unit = self.get_unit(unit_pos).unwrap();
        let ghost cand = candidate_of(selected_unit, *unit_pos, *target_pos);

        // Candidate
        let step = match selected_unit {
            Unit::Pawn(side, moved) => self.step_pawn(unit_pos, target_pos, &side, &moved),
            Unit::Bishop(side) => self.step_bishop(unit_pos, target_pos, &side),
            Unit::Knight(side) => self.step_knight(unit_pos, target_pos, &side),
            Unit::Rook(side, _) => self.step_rook(unit_pos, target_pos, &side),
            Unit::Queen(side) => self.step_queen(unit_pos, target_pos, &side),
            Unit::King(side, moved) => self.step_king(unit_pos, target_pos, &side, &moved),
        };
        proof {
            assert(step_matches(step, cand));
            lemma_candidate_onboard(selected_unit, *unit_pos, *target_pos);
        }

        // Evaluate
        let step = step.evaluate(self);
        let ghost res = spec_eval(m, cand.conds, cand.valid);
        if !step.is_valid() {
            return false;
        }

        // Execute
        let step = step.execute_actions(self);
        proof {
            lemma_step_effects(m, selected_unit, *unit_pos, *target_pos);
            crate::step::lemma_run_images_onboard(m, cand.actions, res.group_id->0, 0);
        }

        // Checked status, and rollback when the step exposed the own king
        if self.test_checked_status(&selected_unit.get_side()) {
            step.reconstruct(self);
            return false;
        }

        true
    }
}

/// The unit displacement of each of the eight ray directions, in the order
/// up, up-left, up-right, down, down-left, down-right, left, right.
pub open spec fn dir_delta(d: int) -> (int, int) {
    if d == 0 {
        (0, -1)
    } else if d == 1 {
        (-1, -1)
    } else if d == 2 {
        (1, -1)
    } else if d == 3 {
        (0, 1)
    } else if d == 4 {
        (-1, 1)
    } else if d == 5 {
        (1, 1)
    } else if d == 6 {
        (-1, 0)
    } else {
        (1, 0)
    }
}

/// One step from `p` along ray direction `d`.
pub open spec fn dir_step(p: Pos, d: int) -> Pos {
    Pos { x: (p.x + dir_delta(d).0) as i8, y: (p.y + dir_delta(d).1) as i8 }
}

/// The first occupied square reached by walking at most `fuel` steps from
/// `p` along direction `d`, stopping at the board edge.
pub open spec fn first_occupied_from(m: BoardModel, p: Pos, d: int, fuel: nat) -> Option<Pos>
    decreases fuel,
{
    if fuel == 0 {
        None
    } else {
        let q = dir_step(p, d);
        if !q.spec_onboard() {
            None
        } else if m.at(q) is Some {
            Some(q)
        } else {
            first_occupied_from(m, q, d, (fuel - 1) as nat)
        }
    }
}

/// The first occupied square on the ray from `p` in direction `d`; eight
/// steps always reach the board edge.
pub open spec fn first_occupied(m: BoardModel, p: Pos, d: int) -> Option<Pos> {
    first_occupied_from(m, p, d, 8)
}

/// A square the first occupied walk returns is on the board and occupied.
pub proof fn lemma_first_occupied_props(m: BoardModel, p: Pos, d: int, fuel: nat)
    ensures
        match first_occupied_from(m, p, d, fuel) {
            Some(q) => q.spec_onboard() && m.at(q) is Some,
            None => true,
        },
    decreases fuel,
{
    if fuel > 0 {
        let q = dir_step(p, d);
        if q.spec_onboard() && !(m.at(q) is Some) {
            lemma_first_occupied_props(m, q, d, (fuel - 1) as nat);
        }
    }
}

/// Whether a piece of this kind, standing on `unit_pos`, could capture on
/// `king_pos` by its raw attack geometry. Path blocking is not considered
/// here; the ray search has already established it. A pawn threatens only
/// one square diagonally forward, seen from its own side.
pub open spec fn threat_geometry(unit: Unit, unit_pos: Pos, king_pos: Pos) -> bool {
    let dx = abs_i(king_pos.x - unit_pos.x);
    let dy = abs_i(king_pos.y - unit_pos.y);
    match unit {
        Unit::Pawn(side, _) => {
            let direction_ok = match side {
                Side::Black => king_pos.y >= unit_pos.y,
                Side::White => king_pos.y <= unit_pos.y,
            };
            direction_ok && dx == 1 && dy == 1
        },
        Unit::Bishop(_) => dx == dy && dx + dy != 0,
        Unit::Knight(_) => (dx == 1 && dy == 2) || (dx == 2 && dy == 1),
        Unit::Rook(_, _) => (dx == 0 || dy == 0) && dx + dy != 0,
        Unit::Queen(_) => (dx == 0 || dy == 0 || dx == dy) && dx + dy != 0,
        Unit::King(_, _) => dx <= 1 && dy <= 1,
    }
}

/// The first piece along ray `d` from the king is an enemy whose attack
/// geometry reaches the king.
pub open spec fn ray_threat(m: BoardModel, king_pos: Pos, d: int, side: Side) -> bool {
    match first_occupied(m, king_pos, d) {
        Some(p) => match m.at(p) {
            Some(unit) => unit.spec_side() != side && threat_geometry(unit, p, king_pos),
            None => false,
        },
        None => false,
    }
}

/// The eight knight displacements.
pub open spec fn knight_offset(k: int) -> (int, int) {
    if k == 0 {
        (-2, 1)
    } else if k == 1 {
        (-1, 2)
    } else if k == 2 {
        (1, 2)
    } else if k == 3 {
        (2, 1)
    } else if k == 4 {
        (2, -1)
    } else if k == 5 {
        (1, -2)
    } else if k == 6 {
        (-1, -2)
    } else {
        (-2, -1)
    }
}

/// The square one knight jump `k` away from `p`.
pub open spec fn knight_square(p: Pos, k: int) -> Pos {
    Pos { x: (p.x + knight_offset(k).0) as i8, y: (p.y + knight_offset(k).1) as i8 }
}

/// Knight jump `k` from `p` lands on the board, on a knight.
pub open spec fn knight_at(m: BoardModel, p: Pos, k: int) -> bool {
    let q = knight_square(p, k);
    q.spec_onboard() && match m.at(q) {
        Some(unit) => unit is Knight,
        None => false,
    }
}

/// The squares of jumps `k` and later that land on the board, on a knight,
/// in offset-table order.
pub open spec fn knight_list_from(m: BoardModel, p: Pos, k: int) -> Seq<Pos>
    decreases 8 - k,
{
    if k < 0 || k >= 8 {
        Seq::empty()
    } else {
        let rest = knight_list_from(m, p, k + 1);
        if knight_at(m, p, k) {
            seq![knight_square(p, k)] + rest
        } else {
            rest
        }
    }
}

/// The squares one knight jump away from `p` that hold a knight of either
/// side: the eight offsets in table order, keeping those that land on the
/// board on a knight.
pub open spec fn knight_list(m: BoardModel, p: Pos) -> Seq<Pos> {
    knight_list_from(m, p, 0)
}

/// Knight jump `k` from the king lands on an enemy knight.
pub open spec fn knight_threat(m: BoardModel, king_pos: Pos, k: int, side: Side) -> bool {
    knight_at(m, king_pos, k) && match m.at(knight_square(king_pos, k)) {
        Some(unit) => unit.spec_side() != side,
        None => false,
    }
}

/// `q` holds a knight reachable by one jump from `p`.
pub open spec fn knight_found(m: BoardModel, p: Pos, q: Pos) -> bool {
    exists|k: int| 0 <= k < 8 && q == knight_square(p, k) && knight_at(m, p, k)
}

/// The king of `side` is under attack: some enemy piece, found as the first
/// occupant of one of the eight rays from the king or on a knight-jump
/// square, threatens the king's square by its attack geometry.
pub open spec fn spec_checked(m: BoardModel, side: Side) -> bool {
    match m.king_pos(side) {
        None => false,
        Some(king_pos) => (exists|d: int| 0 <= d < 8 && ray_threat(m, king_pos, d, side)) || (
        exists|k: int| 0 <= k < 8 && knight_threat(m, king_pos, k, side)),
    }
}

/// One exec step from `p` along ray direction `dir`.
fn step_dir(p: &Pos, dir: u8) -> (r: Pos)
    requires
        p.spec_onboard(),
        dir < 8,
    ensures
        r == dir_step(*p, dir as int),
{
    if dir == 0 {
        p.up()
    } else if dir == 1 {
        p.up_left()
    } else if dir == 2 {
        p.up_right()
    } else if dir == 3 {
        p.down()
    } else if dir == 4 {
        p.down_left()
    } else if dir == 5 {
        p.down_right()
    } else if dir == 6 {
        p.left()
    } else {
        p.right()
    }
}

/// The square one knight jump `k` away from `p`.
fn knight_square_at(p: &Pos, k: u8) -> (r: Pos)
    requires
        p.spec_onboard(),
        k < 8,
    ensures
        r == knight_square(*p, k as int),
{
    let offset: (i8, i8) = if k == 0 {
        (-2, 1)
    } else if k == 1 {
        (-1, 2)
    } else if k == 2 {
        (1, 2)
    } else if k == 3 {
        (2, 1)
    } else if k == 4 {
        (2, -1)
    } else if k == 5 {
        (1, -2)
    } else if k == 6 {
        (-1, -2)
    } else {
        (-2, -1)
    };
    Pos { x: p.x + offset.0, y: p.y + offset.1 }
}

/// The absolute difference of two on-board coordinates.
fn abs_diff(a: i8, b: i8) -> (r: i8)
    requires
        0 <= a < 8,
        0 <= b < 8,
    ensures
        r == abs_i(a - b),
{
    if a >= b {
        a - b
    } else {
        b - a
    }
}

/// The conditions and actions a piece kind proposes for one displacement:
/// the raw material of [`crate::step::Step`], before any square is read.
pub ghost struct Candidate {
    pub valid: bool,
    pub groups: int,
    pub conds: Seq<StepCondition>,
    pub actions: Seq<StepAction>,
}

/// The candidate of a displacement that the piece's geometry already
/// rejects: no conditions, no actions, invalid from the start.
pub open spec fn empty_candidate() -> Candidate {
    Candidate { valid: false, groups: 0, conds: Seq::empty(), actions: Seq::empty() }
}

/// One vacancy condition, in group 0, for every square strictly between
/// `a` and `b`.
pub open spec fn vacant_path(a: Pos, b: Pos) -> Seq<StepCondition> {
    spec_between(a, b).map(
        |i: int, p: Pos| StepCondition { group_id: 0, pos: p, test: Test::Vacant },
    )
}

/// A purely diagonal displacement.
pub open spec fn bishop_geometry(from: Pos, to: Pos) -> bool {
    let dx = abs_i(to.x - from.x);
    let dy = abs_i(to.y - from.y);
    dx == dy && dx + dy != 0
}

/// A purely horizontal or vertical displacement.
pub open spec fn rook_geometry(from: Pos, to: Pos) -> bool {
    let dx = abs_i(to.x - from.x);
    let dy = abs_i(to.y - from.y);
    (dx == 0 || dy == 0) && dx + dy != 0
}

/// A horizontal, vertical or diagonal displacement.
pub open spec fn queen_geometry(from: Pos, to: Pos) -> bool {
    let dx = abs_i(to.x - from.x);
    let dy = abs_i(to.y - from.y);
    (dx == 0 || dy == 0 || dx == dy) && dx + dy != 0
}

/// The knight's L-shaped displacement.
pub open spec fn knight_geometry(from: Pos, to: Pos) -> bool {
    let dx = abs_i(to.x - from.x);
    let dy = abs_i(to.y - from.y);
    (dx == 1 && dy == 2) || (dx == 2 && dy == 1)
}

/// The candidate shared by the sliding pieces: the path between the squares
/// must be clear, the destination must not hold a king, and must be empty or
/// an enemy; the single action relocates the piece.
pub open spec fn slider_candidate(from: Pos, to: Pos, side: Side, geometry_ok: bool) -> Candidate {
    if geometry_ok {
        Candidate {
            valid: true,
            groups: 0,
            conds: vacant_path(from, to) + seq![
                StepCondition { group_id: 0, pos: to, test: Test::NotKing },
                StepCondition { group_id: 0, pos: to, test: Test::EnemyOrVacant(side) },
            ],
            actions: seq![StepAction { group_id: 0, command: Command::Move(from, to) }],
        }
    } else {
        empty_candidate()
    }
}

/// The knight's candidate: the destination must not hold a king and must be
/// empty or an enemy.
pub open spec fn knight_candidate(from: Pos, to: Pos, side: Side) -> Candidate {
    if knight_geometry(from, to) {
        Candidate {
            valid: true,
            groups: 0,
            conds: seq![
                StepCondition { group_id: 0, pos: to, test: Test::NotKing },
                StepCondition { group_id: 0, pos: to, test: Test::EnemyOrVacant(side) },
            ],
            actions: seq![StepAction { group_id: 0, command: Command::Move(from, to) }],
        }
    } else {
        empty_candidate()
    }
}

/// The pawn's candidate. The displacement must point toward the enemy side.
/// A single advance needs an empty destination; the double advance needs an
/// unmoved pawn and two empty squares; the diagonal step carries two groups,
/// the ordinary capture and, behind it, en passant. Arriving on a far rank
/// promotes, whichever group validated.
pub open spec fn pawn_candidate(from: Pos, to: Pos, side: Side, moved: bool) -> Candidate {
    let dy = to.y - from.y;
    let direction_ok = (side == Side::Black && dy > 0) || (side == Side::White && dy < 0);
    if !direction_ok {
        empty_candidate()
    } else {
        let offset = if side == Side::Black {
            Pos { x: to.x, y: clamp_i(to.y - 1) as i8 }
        } else {
            Pos { x: to.x, y: clamp_i(to.y + 1) as i8 }
        };
        let adx = abs_i(to.x - from.x);
        let ady = abs_i(dy);
        if adx == 0 && ady == 1 {
            Candidate {
                valid: true,
                groups: 0,
                conds: seq![StepCondition { group_id: 0, pos: to, test: Test::Vacant }],
                actions: seq![
                    StepAction { group_id: 0, command: Command::Move(from, to) },
                    StepAction { group_id: 0, command: Command::Promote(to) },
                ],
            }
        } else if adx == 0 && ady == 2 && !moved {
            Candidate {
                valid: true,
                groups: 0,
                conds: seq![
                    StepCondition { group_id: 0, pos: offset, test: Test::Vacant },
                    StepCondition { group_id: 0, pos: to, test: Test::Vacant },
                ],
                actions: seq![
                    StepAction { group_id: 0, command: Command::Move(from, to) },
                    StepAction { group_id: 0, command: Command::Promote(to) },
                ],
            }
        } else if adx == 1 && ady == 1 {
            Candidate {
                valid: true,
                groups: 1,
                conds: seq![
                    StepCondition { group_id: 0, pos: to, test: Test::Enemy(side) },
                    StepCondition { group_id: 0, pos: to, test: Test::NotKing },
                    StepCondition { group_id: 1, pos: offset, test: Test::Enemy(side) },
                    StepCondition { group_id: 1, pos: offset, test: Test::NotKing },
                    StepCondition { group_id: 1, pos: to, test: Test::Vacant },
                ],
                actions: seq![
                    StepAction { group_id: 0, command: Command::Move(from, to) },
                    StepAction { group_id: 0, command: Command::Promote(to) },
                    StepAction { group_id: 1, command: Command::Remove(offset) },
                    StepAction { group_id: 1, command: Command::Move(from, to) },
                    StepAction { group_id: 1, command: Command::Promote(to) },
                ],
            }
        } else {
            Candidate {
                valid: false,
                groups: 0,
                conds: Seq::empty(),
                actions: seq![StepAction { group_id: 0, command: Command::Promote(to) }],
            }
        }
    }
}

/// The king's candidate: an ordinary move of Chebyshev distance at most one,
/// or castling, a two-square horizontal displacement of an unmoved king over
/// a clear path toward an unmoved rook on the edge file, which relocates the
/// rook to the square the king passed over.
pub open spec fn king_candidate(from: Pos, to: Pos, side: Side, moved: bool) -> Candidate {
    let dx = to.x - from.x;
    let dy = to.y - from.y;
    if abs_i(dx) <= 1 && abs_i(dy) <= 1 {
        Candidate {
            valid: true,
            groups: 0,
            conds: seq![
                StepCondition { group_id: 0, pos: to, test: Test::EnemyOrVacant(side) },
                StepCondition { group_id: 0, pos: to, test: Test::NotKing },
            ],
            actions: seq![StepAction { group_id: 0, command: Command::Move(from, to) }],
        }
    } else if dy == 0 && dx == -2 && !moved {
        let rook_from = Pos { x: 0, y: to.y };
        let rook_to = Pos { x: clamp_i(to.x + 1) as i8, y: to.y };
        Candidate {
            valid: true,
            groups: 0,
            conds: vacant_path(from, rook_from) + seq![
                StepCondition { group_id: 0, pos: rook_from, test: Test::NotMoved },
            ],
            actions: seq![
                StepAction { group_id: 0, command: Command::Move(from, to) },
                StepAction { group_id: 0, command: Command::Move(rook_from, rook_to) },
            ],
        }
    } else if dy == 0 && dx == 2 && !moved {
        let rook_from = Pos { x: 7, y: to.y };
        let rook_to = Pos { x: clamp_i(to.x - 1) as i8, y: to.y };
        Candidate {
            valid: true,
            groups: 0,
            conds: vacant_path(from, rook_from) + seq![
                StepCondition { group_id: 0, pos: rook_from, test: Test::NotMoved },
            ],
            actions: seq![
                StepAction { group_id: 0, command: Command::Move(from, to) },
                StepAction { group_id: 0, command: Command::Move(rook_from, rook_to) },
            ],
        }
    } else {
        empty_candidate()
    }
}

/// The candidate a piece proposes for the displacement from `from` to `to`.
pub open spec fn candidate_of(unit: Unit, from: Pos, to: Pos) -> Candidate {
    match unit {
        Unit::Pawn(side, moved) => pawn_candidate(from, to, side, moved),
        Unit::Bishop(side) => slider_candidate(from, to, side, bishop_geometry(from, to)),
        Unit::Knight(side) => knight_candidate(from, to, side),
        Unit::Rook(side, _) => slider_candidate(from, to, side, rook_geometry(from, to)),
        Unit::Queen(side) => slider_candidate(from, to, side, queen_geometry(from, to)),
        Unit::King(side, moved) => king_candidate(from, to, side, moved),
    }
}

/// A freshly built [`Step`] agrees with the candidate in every part.
pub open spec fn step_matches(s: Step<ConditionState>, c: Candidate) -> bool {
    &&& s.wf()
    &&& s.groups == c.groups
    &&& s.step_valid == c.valid
    &&& s.condition_state.step_conditions@ == c.conds
    &&& s.actions@ == c.actions
}

/// A vacancy path between on-board squares, followed by conditions on
/// on-board squares, only reads on-board squares.
proof fn lemma_path_conds_onboard(a: Pos, b: Pos, tail: Seq<StepCondition>)
    requires
        forall|j: int| 0 <= j < tail.len() ==> (#[trigger] tail[j].pos).spec_onboard(),
    ensures
        conds_onboard(vacant_path(a, b) + tail),
{
    lemma_between_onboard(a, b);
    let s = vacant_path(a, b) + tail;
    assert forall|j: int| 0 <= j < s.len() implies (#[trigger] s[j].pos).spec_onboard() by {
        let n = vacant_path(a, b).len() as int;
        if j < n {
            assert(s[j] == vacant_path(a, b)[j]);
            assert(vacant_path(a, b)[j].pos == spec_between(a, b)[j]);
        } else {
            assert(s[j] == tail[j - n]);
        }
    }
}

/// Every square a candidate reads or touches lies on the board.
pub proof fn lemma_candidate_onboard(unit: Unit, from: Pos, to: Pos)
    requires
        from.spec_onboard(),
        to.spec_onboard(),
    ensures
        conds_onboard(candidate_of(unit, from, to).conds),
        actions_onboard(candidate_of(unit, from, to).actions),
{
    let c = candidate_of(unit, from, to);
    match unit {
        Unit::Pawn(side, moved) => {
            assert(conds_onboard(c.conds));
            assert(actions_onboard(c.actions));
        },
        Unit::Knight(side) => {
            assert(conds_onboard(c.conds));
            assert(actions_onboard(c.actions));
        },
        Unit::King(side, moved) => {
            let dx = to.x - from.x;
            let dy = to.y - from.y;
            if abs_i(dx) <= 1 && abs_i(dy) <= 1 {
                assert(conds_onboard(c.conds));
            } else if dy == 0 && dx == -2 && !moved {
                lemma_path_conds_onboard(
                    from,
                    Pos { x: 0, y: to.y },
                    seq![
                        StepCondition {
                            group_id: 0,
                            pos: Pos { x: 0, y: to.y },
                            test: Test::NotMoved,
                        },
                    ],
                );
            } else if dy == 0 && dx == 2 && !moved {
                lemma_path_conds_onboard(
                    from,
                    Pos { x: 7, y: to.y },
                    seq![
                        StepCondition {
                            group_id: 0,
                            pos: Pos { x: 7, y: to.y },
                            test: Test::NotMoved,
                        },
                    ],
                );
            }
            assert(actions_onboard(c.actions));
        },
        Unit::Bishop(side) => {
            lemma_slider_candidate_onboard(from, to, side, bishop_geometry(from, to));
        },
        Unit::Rook(side, _) => {
            lemma_slider_candidate_onboard(from, to, side, rook_geometry(from, to));
        },
        Unit::Queen(side) => {
            lemma_slider_candidate_onboard(from, to, side, queen_geometry(from, to));
        },
    }
}

/// Every square a slider candidate reads or touches lies on the board.
proof fn lemma_slider_candidate_onboard(from: Pos, to: Pos, side: Side, geometry_ok: bool)
    requires
        from.spec_onboard(),
        to.spec_onboard(),
    ensures
        conds_onboard(slider_candidate(from, to, side, geometry_ok).conds),
        actions_onboard(slider_candidate(from, to, side, geometry_ok).actions),
{
    if geometry_ok {
        lemma_path_conds_onboard(
            from,
            to,
            seq![
                StepCondition { group_id: 0, pos: to, test: Test::NotKing },
                StepCondition { group_id: 0, pos: to, test: Test::EnemyOrVacant(side) },
            ],
        );
    }
}

/// The occupant of square `i` in the starting arrangement.
fn initial_square_at(i: usize) -> (r: Option<Unit>)
    requires
        i < 64,
    ensures
        r == initial_square(i as int),
{
    let y = i / 8;
    let x = i % 8;
    if y == 0 || y == 7 {
        let side = if y == 0 {
            Side::Black
        } else {
            Side::White
        };
        if x == 0 || x == 7 {
            Some(Unit::Rook(side, false))
        } else if x == 1 || x == 6 {
            Some(Unit::Knight(side))
        } else if x == 2 || x == 5 {
            Some(Unit::Bishop(side))
        } else if x == 3 {
            Some(Unit::Queen(side))
        } else {
            Some(Unit::King(side, false))
        }
    } else if y == 1 {
        Some(Unit::Pawn(Side::Black, false))
    } else if y == 6 {
        Some(Unit::Pawn(Side::White, false))
    } else {
        None
    }
}

impl Default for Board {
    /// The standard starting layout.
    fn default() -> (r: Self)
        ensures
            r.model() == initial_model(),
    {
        let mut squares: Vec<Option<Unit>> = Vec::new();
        let mut i: usize = 0;
        while i < 64
            invariant
                i <= 64,
                squares@.len() == i,
                forall|j: int| 0 <= j < i ==> squares@[j] == initial_square(j),
            decreases 64 - i,
        {
            squares.push(initial_square_at(i));
            i = i + 1;
        }
        let board = Board {
            squares,
            black_king_pos: Some(Pos { x: 4, y: 0 }),
            white_king_pos: Some(Pos { x: 4, y: 7 }),
        };
        proof {
            assert(board.model().squares =~= initial_model().squares);
            assert(board.model() =~= initial_model());
        }
        board
    }
}

} // verus!
