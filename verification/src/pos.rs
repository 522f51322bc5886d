//! Board coordinates and the geometry helpers the rule engine builds on.

use vstd::prelude::*;

verus! {

/// Width and height of the board.
pub const BOARD_SIZE: i8 = 8;

/// A coordinate on (or, for the unclamped steppers, just off) the board.
///
/// `x` is the file index, `0` for file A through `7` for file H.
/// `y` is the rank index counted from the top of the board as Black sees it:
/// `0` for rank 8 down to `7` for rank 1. So "up" on the board means a
/// decreasing `y`.
#[derive(Clone, Copy, Debug, PartialEq, Eq, Structural)]
pub struct Pos {
    pub x: i8,
    pub y: i8,
}

/// The absolute value of a mathematical integer.
pub open spec fn abs_i(v: int) -> int {
    if v < 0 {
        -v
    } else {
        v
    }
}

/// The sign of a mathematical integer: -1, 0 or 1.
pub open spec fn sign_i(v: int) -> int {
    if v > 0 {
        1
    } else if v < 0 {
        -1
    } else {
        0
    }
}

/// `v` clamped to the board range `0 ..= BOARD_SIZE - 1`.
pub open spec fn clamp_i(v: int) -> int {
    if v < 0 {
        0
    } else if v > BOARD_SIZE - 1 {
        BOARD_SIZE - 1
    } else {
        v
    }
}

/// The ordered sequence of squares strictly between `a` and `b`, when the two
/// are distinct, both on the board, and aligned horizontally, vertically or
/// diagonally; the empty sequence otherwise.
pub open spec fn spec_between(a: Pos, b: Pos) -> Seq<Pos> {
    if !a.spec_onboard() || !b.spec_onboard() {
        Seq::empty()
    } else {
        let dx = b.x - a.x;
        let dy = b.y - a.y;
        if dx == 0 && dy == 0 {
            Seq::empty()
        } else if dx == 0 || dy == 0 || abs_i(dx) == abs_i(dy) {
            let num = if dx != 0 {
                abs_i(dx)
            } else {
                abs_i(dy)
            };
            Seq::new(
                (num - 1) as nat,
                |i: int|
                    Pos {
                        x: (a.x + (i + 1) * sign_i(dx)) as i8,
                        y: (a.y + (i + 1) * sign_i(dy)) as i8,
                    },
            )
        } else {
            Seq::empty()
        }
    }
}

/// What `from_text` accepts: exactly two characters, a file letter (either
/// case) and a rank digit, naming a square on the board.
pub open spec fn spec_parse_square(s: Seq<char>) -> Option<Pos> {
    if s.len() != 2 {
        None
    } else {
        let c0 = s[0] as int;
        let c1 = s[1] as int;
        let col = if 97 <= c0 <= 122 {
            c0 - 32
        } else {
            c0
        };
        let x = col - 65;
        let y = BOARD_SIZE - (c1 - 48);
        if 0 <= x < BOARD_SIZE && 0 <= y < BOARD_SIZE {
            Some(Pos { x: x as i8, y: y as i8 })
        } else {
            None
        }
    }
}

impl Pos {
    /// True when the coordinate lies on the board.
    pub open spec fn spec_onboard(&self) -> bool {
        0 <= self.x < BOARD_SIZE && 0 <= self.y < BOARD_SIZE
    }

    /// Creates a new [`Pos`]; the coordinates may lie off the board.
    pub fn new(x: i8, y: i8) -> (r: Self)
        ensures
            r == (Pos { x, y }),
    {
        Self { x, y }
    }

    /// Gives back true when this [`Pos`] is bounded by `BOARD_SIZE`.
    #[verifier::when_used_as_spec(spec_onboard)]
    pub fn is_onboard(&self) -> (r: bool)
        ensures
            r == self.spec_onboard(),
    {
        0 <= self.x && self.x < BOARD_SIZE && 0 <= self.y && self.y < BOARD_SIZE
    }

    /// Parses an algebraic square label such as `"D5"` (case-insensitive).
    ///
    /// Returns `None` for any text that is not exactly a file letter followed
    /// by a rank digit naming a square on the board.
    pub fn from_text(s: &str) -> (r: Option<Pos>)
        ensures
            r == spec_parse_square(s@),
    {
        let n = s.unicode_len();
        if n != 2 {
            return None;
        }
        let v0 = s.get_char(0) as u32;
        let v1 = s.get_char(1) as u32;
        let col: u32 = if 97 <= v0 && v0 <= 122 {
            v0 - 32
        } else {
            v0
        };
        if col < 65 || col >= 65 + 8 {
            return None;
        }
        if v1 < 49 || v1 > 56 {
            return None;
        }
        let x = col - 65;
        let y = 8 - (v1 - 48);
        Some(Pos { x: x as i8, y: y as i8 })
    }

    /// One square up, stopping at the board edge. E.g. D4 -> D5, D8 -> D8.
    pub fn checked_up(&self) -> (r: Self)
        ensures
            r.x == self.x,
            r.y == clamp_i(self.y - 1),
    {
        Self { x: self.x, y: minus_one_clamped(self.y) }
    }

    /// One square up and left, stopping at the board edge. E.g. D4 -> C5.
    pub fn checked_up_left(&self) -> (r: Self)
        ensures
            r.x == clamp_i(self.x - 1),
            r.y == clamp_i(self.y - 1),
    {
        Self { x: minus_one_clamped(self.x), y: minus_one_clamped(self.y) }
    }

    /// One square up and right, stopping at the board edge. E.g. D4 -> E5.
    pub fn checked_up_right(&self) -> (r: Self)
        ensures
            r.x == clamp_i(self.x + 1),
            r.y == clamp_i(self.y - 1),
    {
        Self { x: plus_one_clamped(self.x), y: minus_one_clamped(self.y) }
    }

    /// One square down, stopping at the board edge. E.g. D4 -> D3.
    pub fn checked_down(&self) -> (r: Self)
        ensures
            r.x == self.x,
            r.y == clamp_i(self.y + 1),
    {
        Self { x: self.x, y: plus_one_clamped(self.y) }
    }

    /// One square down and left, stopping at the board edge. E.g. D4 -> C3.
    pub fn checked_down_left(&self) -> (r: Self)
        ensures
            r.x == clamp_i(self.x - 1),
            r.y == clamp_i(self.y + 1),
    {
        Self { x: minus_one_clamped(self.x), y: plus_one_clamped(self.y) }
    }

    /// One square down and right, stopping at the board edge. E.g. D4 -> E3.
    pub fn checked_down_right(&self) -> (r: Self)
        ensures
            r.x == clamp_i(self.x + 1),
            r.y == clamp_i(self.y + 1),
    {
        Self { x: plus_one_clamped(self.x), y: plus_one_clamped(self.y) }
    }

    /// One square left, stopping at the board edge. E.g. D4 -> C4.
    pub fn checked_left(&self) -> (r: Self)
        ensures
            r.x == clamp_i(self.x - 1),
            r.y == self.y,
    {
        Self { x: minus_one_clamped(self.x), y: self.y }
    }

    /// One square right, stopping at the board edge. E.g. D4 -> E4.
    pub fn checked_right(&self) -> (r: Self)
        ensures
            r.x == clamp_i(self.x + 1),
            r.y == self.y,
    {
        Self { x: plus_one_clamped(self.x), y: self.y }
    }

    /// One square up, possibly off the board. E.g. D4 -> D5.
    pub fn up(&self) -> (r: Self)
        requires
            self.y > i8::MIN,
        ensures
            r.x == self.x,
            r.y == self.y - 1,
    {
        Self { x: self.x, y: self.y - 1 }
    }

    /// One square up and left, possibly off the board. E.g. D4 -> C5.
    pub fn up_left(&self) -> (r: Self)
        requires
            self.x > i8::MIN,
            self.y > i8::MIN,
        ensures
            r.x == self.x - 1,
            r.y == self.y - 1,
    {
        Self { x: self.x - 1, y: self.y - 1 }
    }

    /// One square up and right, possibly off the board. E.g. D4 -> E5.
    pub fn up_right(&self) -> (r: Self)
        requires
            self.x < i8::MAX,
            self.y > i8::MIN,
        ensures
            r.x == self.x + 1,
            r.y == self.y - 1,
    {
        Self { x: self.x + 1, y: self.y - 1 }
    }

    /// One square down, possibly off the board. E.g. D4 -> D3.
    pub fn down(&self) -> (r: Self)
        requires
            self.y < i8::MAX,
        ensures
            r.x == self.x,
            r.y == self.y + 1,
    {
        Self { x: self.x, y: self.y + 1 }
    }

    /// One square down and left, possibly off the board. E.g. D4 -> C3.
    pub fn down_left(&self) -> (r: Self)
        requires
            self.x > i8::MIN,
            self.y < i8::MAX,
        ensures
            r.x == self.x - 1,
            r.y == self.y + 1,
    {
        Self { x: self.x - 1, y: self.y + 1 }
    }

    /// One square down and right, possibly off the board. E.g. D4 -> E3.
    pub fn down_right(&self) -> (r: Self)
        requires
            self.x < i8::MAX,
            self.y < i8::MAX,
        ensures
            r.x == self.x + 1,
            r.y == self.y + 1,
    {
        Self { x: self.x + 1, y: self.y + 1 }
    }

    /// One square left, possibly off the board. E.g. D4 -> C4.
    pub fn left(&self) -> (r: Self)
        requires
            self.x > i8::MIN,
        ensures
            r.x == self.x - 1,
            r.y == self.y,
    {
        Self { x: self.x - 1, y: self.y }
    }

    /// One square right, possibly off the board. E.g. D4 -> E4.
    pub fn right(&self) -> (r: Self)
        requires
            self.x < i8::MAX,
        ensures
            r.x == self.x + 1,
            r.y == self.y,
    {
        Self { x: self.x + 1, y: self.y }
    }

    /// The first square of this rank. E.g. D4 -> A4.
    pub fn start_row(&self) -> (r: Self)
        ensures
            r == (Pos { x: 0, y: self.y }),
    {
        Self { x: 0, y: self.y }
    }

    /// The last square of this rank. E.g. D4 -> H4.
    pub fn end_row(&self) -> (r: Self)
        ensures
            r == (Pos { x: 7, y: self.y }),
    {
        Self { x: 7, y: self.y }
    }

    /// The top square of this file, rank 8. E.g. D4 -> D8.
    pub fn start_column(&self) -> (r: Self)
        ensures
            r == (Pos { x: self.x, y: 0 }),
    {
        Self { x: self.x, y: 0 }
    }

    /// The bottom square of this file, rank 1. E.g. D4 -> D1.
    pub fn end_column(&self) -> (r: Self)
        ensures
            r == (Pos { x: self.x, y: 7 }),
    {
        Self { x: self.x, y: 7 }
    }

    /// The squares strictly between `self` and `pos`, in order, when the two
    /// are aligned horizontally, vertically or diagonally; empty otherwise.
    pub fn to(&self, pos: &Pos) -> (r: Vec<Pos>)
        ensures
            r@ == spec_between(*self, *pos),
    {
        let mut positions: Vec<Pos> = Vec::new();

        if !self.is_onboard() || !pos.is_onboard() {
            return positions;
        }

        let calc_x: i8 = pos.x - self.x;
        let calc_y: i8 = pos.y - self.y;

        let num: i8;
        let step_x: i8;
        let step_y: i8;

        if calc_x != 0 && calc_y == 0 {
            num = abs_one_digit(calc_x);
            step_x = sign_one_digit(calc_x);
            step_y = 0;
        } else if calc_x == 0 && calc_y != 0 {
            num = abs_one_digit(calc_y);
            step_x = 0;
            step_y = sign_one_digit(calc_y);
        } else if calc_x != 0 && calc_y != 0 && abs_one_digit(calc_x) == abs_one_digit(calc_y) {
            num = abs_one_digit(calc_x);
            step_x = sign_one_digit(calc_x);
            step_y = sign_one_digit(calc_y);
        } else {
            assert(spec_between(*self, *pos) =~= Seq::empty());
            return positions;
        }

        proof {
            lemma_unit_products(num as int, step_x as int);
            lemma_unit_products(num as int, step_y as int);
            assert(spec_between(*self, *pos).len() == num - 1);
        }

        let mut px: i8 = self.x;
        let mut py: i8 = self.y;
        let mut i: i8 = 1;
        while i < num
            invariant
                1 <= i <= num,
                1 <= num <= 7,
                step_x == sign_i(pos.x - self.x),
                step_y == sign_i(pos.y - self.y),
                px == self.x + (i - 1) * step_x,
                py == self.y + (i - 1) * step_y,
                num * step_x == pos.x - self.x,
                num * step_y == pos.y - self.y,
                self.spec_onboard(),
                pos.spec_onboard(),
                positions@.len() == i - 1,
                forall|j: int|
                    0 <= j < i - 1 ==> positions@[j] == spec_between(*self, *pos)[j],
                spec_between(*self, *pos).len() == num - 1,
            decreases num - i,
        {
            proof {
                lemma_step_bounds(self.x as int, pos.x as int, step_x as int, i as int, num as int);
                lemma_step_bounds(self.y as int, pos.y as int, step_y as int, i as int, num as int);
            }
            px = px + step_x;
            py = py + step_y;
            positions.push(Pos { x: px, y: py });
            i = i + 1;
        }
        proof {
            assert(positions@ =~= spec_between(*self, *pos));
        }
        positions
    }

    /// The component-wise absolute value. E.g. (-3, 2) -> (3, 2).
    pub fn abs(&self) -> (r: Self)
        requires
            self.x > i8::MIN,
            self.y > i8::MIN,
        ensures
            r.x == abs_i(self.x as int),
            r.y == abs_i(self.y as int),
    {
        Self {
            x: if self.x < 0 {
                -self.x
            } else {
                self.x
            },
            y: if self.y < 0 {
                -self.y
            } else {
                self.y
            },
        }
    }

    /// The sum of the two components, used to tell the zero offset apart.
    pub fn sum(&self) -> (r: i8)
        requires
            i8::MIN <= self.x + self.y <= i8::MAX,
        ensures
            r == self.x + self.y,
    {
        self.x + self.y
    }
}

/// `v - 1` clamped to the board range, computed without overflow.
fn minus_one_clamped(v: i8) -> (r: i8)
    ensures
        r == clamp_i(v - 1),
{
    if v <= 0 {
        0
    } else if v - 1 > BOARD_SIZE - 1 {
        BOARD_SIZE - 1
    } else {
        v - 1
    }
}

/// `v + 1` clamped to the board range, computed without overflow.
fn plus_one_clamped(v: i8) -> (r: i8)
    ensures
        r == clamp_i(v + 1),
{
    if v >= BOARD_SIZE - 1 {
        BOARD_SIZE - 1
    } else if v + 1 < 0 {
        0
    } else {
        v + 1
    }
}

/// Absolute value of a file or rank difference, which fits in one digit.
fn abs_one_digit(v: i8) -> (r: i8)
    requires
        -7 <= v <= 7,
    ensures
        r == abs_i(v as int),
{
    if v < 0 {
        -v
    } else {
        v
    }
}

/// The sign of a file or rank difference.
fn sign_one_digit(v: i8) -> (r: i8)
    requires
        -7 <= v <= 7,
    ensures
        r == sign_i(v as int),
{
    if v > 0 {
        1
    } else if v < 0 {
        -1
    } else {
        0
    }
}

/// Products with a factor that is -1, 0 or 1, spelled out so that the
/// surrounding linear reasoning can use them.
pub proof fn lemma_unit_products(k: int, s: int)
    ensures
        s == 1 ==> k * s == k,
        s == -1 ==> k * s == -k,
        s == 0 ==> k * s == 0,
{
    assert(s == 1 ==> k * s == k) by (nonlinear_arith);
    assert(s == -1 ==> k * s == -k) by (nonlinear_arith);
    assert(s == 0 ==> k * s == 0) by (nonlinear_arith);
}

/// Every square strictly between two on-board squares is itself on the
/// board.
pub proof fn lemma_between_onboard(a: Pos, b: Pos)
    ensures
        forall|j: int|
            0 <= j < spec_between(a, b).len() ==> (#[trigger] spec_between(a, b)[j]).spec_onboard(),
{
    if a.spec_onboard() && b.spec_onboard() {
        let dx = b.x - a.x;
        let dy = b.y - a.y;
        if !(dx == 0 && dy == 0) && (dx == 0 || dy == 0 || abs_i(dx) == abs_i(dy)) {
            let num = if dx != 0 {
                abs_i(dx)
            } else {
                abs_i(dy)
            };
            let sx = sign_i(dx);
            let sy = sign_i(dy);
            assert forall|j: int|
                0 <= j < spec_between(a, b).len() implies (
            #[trigger] spec_between(a, b)[j]).spec_onboard() by {
                lemma_unit_products(num, sx);
                lemma_unit_products(num, sy);
                lemma_step_bounds(a.x as int, b.x as int, sx, j + 1, num);
                lemma_step_bounds(a.y as int, b.y as int, sy, j + 1, num);
            }
        }
    }
}

/// Walking `i` unit steps of sign `s` from `a` toward `b` stays strictly
/// between the two coordinates.
proof fn lemma_step_bounds(a: int, b: int, s: int, i: int, num: int)
    requires
        0 <= a <= 7,
        0 <= b <= 7,
        s == sign_i(b - a),
        1 <= i <= num,
        a + num * s == b,
    ensures
        0 <= a + i * s <= 7,
        a + (i - 1) * s + s == a + i * s,
{
    assert((i - 1) * s + s == i * s) by (nonlinear_arith);
    lemma_unit_products(i, s);
    lemma_unit_products(num, s);
}

} // verus!
