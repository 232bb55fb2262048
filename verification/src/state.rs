//! What the animal can be doing, which way it can be facing, and the frames
//! each of those is drawn with.

use vstd::prelude::*;

use crate::rounding::magnitude;

verus! {

/// One of the eight directions the animal can run in.
#[derive(Debug, Clone, Copy, PartialEq, Eq, Structural)]
pub enum Direction {
    Up,
    Down,
    Left,
    Right,
    UpLeft,
    UpRight,
    DownLeft,
    DownRight,
}

/// A screen edge the animal can scratch at.
#[derive(Debug, Clone, Copy, PartialEq, Eq, Structural)]
pub enum Wall {
    Up,
    Down,
    Left,
    Right,
}

/// What the animal is doing. The idle chain runs
/// `Stop -> Jare -> Kaki -> Akubi -> Sleep`, and any cursor movement kicks it
/// back to `Awake`.
#[derive(Debug, Clone, Copy, PartialEq, Eq, Structural)]
pub enum State {
    /// Standing still, just arrived.
    Stop,
    /// Washing its face.
    Jare,
    /// Scratching itself.
    Kaki,
    /// Yawning.
    Akubi,
    Sleep,
    /// The startle before it starts running.
    Awake,
    Move(Direction),
    /// Clawing at a screen edge it cannot get past.
    Scratch(Wall),
}

impl Default for State {
    fn default() -> (state: State)
        ensures
            state == State::Stop,
    {
        State::Stop
    }
}

/// The names of the two frames a state alternates between.
pub open spec fn frame_names(state: State) -> (Seq<char>, Seq<char>) {
    match state {
        State::Stop => ("mati2"@, "mati2"@),
        State::Jare => ("jare2"@, "mati2"@),
        State::Kaki => ("kaki1"@, "kaki2"@),
        State::Akubi => ("mati3"@, "mati3"@),
        State::Sleep => ("sleep1"@, "sleep2"@),
        State::Awake => ("awake"@, "awake"@),
        State::Move(Direction::Up) => ("up1"@, "up2"@),
        State::Move(Direction::Down) => ("down1"@, "down2"@),
        State::Move(Direction::Left) => ("left1"@, "left2"@),
        State::Move(Direction::Right) => ("right1"@, "right2"@),
        State::Move(Direction::UpLeft) => ("upleft1"@, "upleft2"@),
        State::Move(Direction::UpRight) => ("upright1"@, "upright2"@),
        State::Move(Direction::DownLeft) => ("dwleft1"@, "dwleft2"@),
        State::Move(Direction::DownRight) => ("dwright1"@, "dwright2"@),
        State::Scratch(Wall::Up) => ("utogi1"@, "utogi2"@),
        State::Scratch(Wall::Down) => ("dtogi1"@, "dtogi2"@),
        State::Scratch(Wall::Left) => ("ltogi1"@, "ltogi2"@),
        State::Scratch(Wall::Right) => ("rtogi1"@, "rtogi2"@),
    }
}

impl State {
    /// The two frame names this state alternates between.
    #[must_use]
    pub fn frames(self) -> (names: [&'static str; 2])
        ensures
            names[0]@ == frame_names(self).0,
            names[1]@ == frame_names(self).1,
    {
        match self {
            State::Stop => ["mati2", "mati2"],
            State::Jare => ["jare2", "mati2"],
            State::Kaki => ["kaki1", "kaki2"],
            State::Akubi => ["mati3", "mati3"],
            State::Sleep => ["sleep1", "sleep2"],
            State::Awake => ["awake", "awake"],
            State::Move(Direction::Up) => ["up1", "up2"],
            State::Move(Direction::Down) => ["down1", "down2"],
            State::Move(Direction::Left) => ["left1", "left2"],
            State::Move(Direction::Right) => ["right1", "right2"],
            State::Move(Direction::UpLeft) => ["upleft1", "upleft2"],
            State::Move(Direction::UpRight) => ["upright1", "upright2"],
            State::Move(Direction::DownLeft) => ["dwleft1", "dwleft2"],
            State::Move(Direction::DownRight) => ["dwright1", "dwright2"],
            State::Scratch(Wall::Up) => ["utogi1", "utogi2"],
            State::Scratch(Wall::Down) => ["dtogi1", "dtogi2"],
            State::Scratch(Wall::Left) => ["ltogi1", "ltogi2"],
            State::Scratch(Wall::Right) => ["rtogi1", "rtogi2"],
        }
    }

    #[must_use]
    pub fn is_moving(self) -> (moving: bool)
        ensures
            moving == (self is Move),
    {
        matches!(self, State::Move(_))
    }
}

/// How far a step goes along a direction, times the length of a one-pixel step
/// in that direction. Screen `y` grows downwards.
pub open spec fn along(direction: Direction, across: int, down: int) -> int {
    match direction {
        Direction::Up => -down,
        Direction::Down => down,
        Direction::Left => -across,
        Direction::Right => across,
        Direction::UpLeft => -across - down,
        Direction::UpRight => across - down,
        Direction::DownLeft => down - across,
        Direction::DownRight => across + down,
    }
}

/// The squared length of one step along a direction: a pixel on each axis that
/// it uses.
pub open spec fn length_squared(direction: Direction) -> int {
    match direction {
        Direction::Up | Direction::Down | Direction::Left | Direction::Right => 1,
        _ => 2,
    }
}

/// Whether the angle between a step and `near` is smaller than the angle
/// between the step and `far`: the cosine of the first is positive and the
/// larger one.
pub open spec fn closer(across: int, down: int, near: Direction, far: Direction) -> bool {
    let (n, f) = (along(near, across, down), along(far, across, down));
    n > 0 && (f <= 0 || n * n * length_squared(far) > f * f * length_squared(near))
}

/// Whether `leg` is more than `1 + sqrt(2)` times `other`. That is the tangent of
/// three eighths of a half turn, where the diagonal ends and the axis begins.
pub open spec fn dominates(leg: int, other: int) -> bool {
    leg * leg > 2 * leg * other + other * other
}

/// The direction of a step, if it goes anywhere.
pub open spec fn direction_of(across: int, down: int) -> Option<Direction> {
    let (a, d) = (magnitude(across), magnitude(down));
    if across == 0 && down == 0 {
        None
    } else if dominates(d, a) {
        Some(if down < 0 { Direction::Up } else { Direction::Down })
    } else if dominates(a, d) {
        Some(if across > 0 { Direction::Right } else { Direction::Left })
    } else if down < 0 {
        Some(if across > 0 { Direction::UpRight } else { Direction::UpLeft })
    } else {
        Some(if across > 0 { Direction::DownRight } else { Direction::DownLeft })
    }
}

/// Picks the one of eight directions closest to a step.
pub fn heading(step: (i32, i32)) -> (direction: Option<Direction>)
    ensures
        direction == direction_of(step.0 as int, step.1 as int),
{
    let (across, down): (i32, i32) = step;
    if across == 0 && down == 0 {
        return None;
    }
    let a: i128 = if across < 0 { -(across as i128) } else { across as i128 };
    let d: i128 = if down < 0 { -(down as i128) } else { down as i128 };
    proof {
        let limit: int = 0x8000_0000;
        assert(0 <= a * a <= limit * limit && 0 <= d * d <= limit * limit && 0 <= a * d <= limit
            * limit) by (nonlinear_arith)
            requires
                0 <= a <= limit,
                0 <= d <= limit,
        ;
        assert(2 * a * d == 2 * (a * d) && 2 * d * a == 2 * (a * d)) by (nonlinear_arith);
    }
    let cross: i128 = 2 * (a * d);
    Some(
        if d * d > cross + a * a {
            if down < 0 {
                Direction::Up
            } else {
                Direction::Down
            }
        } else if a * a > cross + d * d {
            if across > 0 {
                Direction::Right
            } else {
                Direction::Left
            }
        } else if down < 0 {
            if across > 0 {
                Direction::UpRight
            } else {
                Direction::UpLeft
            }
        } else {
            if across > 0 {
                Direction::DownRight
            } else {
                Direction::DownLeft
            }
        },
    )
}

/// Twice a square is no square.
proof fn no_rational_root_of_two(x: nat, y: nat)
    requires
        x * x == 2 * (y * y),
    ensures
        x == 0,
        y == 0,
    decreases x,
{
    if x == 0 {
        assert(y == 0) by (nonlinear_arith)
            requires
                0 == 2 * (y * y),
        ;
    } else {
        assert(x % 2 == 0) by (nonlinear_arith)
            requires
                x * x == 2 * (y * y),
        {
            let k = x as int / 2;
            if x % 2 == 1 {
                assert(x == 2 * k + 1);
                assert(x * x == 2 * (2 * (k * k) + 2 * k) + 1);
            }
        }
        let half = x / 2;
        assert(y * y == 2 * (half * half)) by (nonlinear_arith)
            requires
                x * x == 2 * (y * y),
                x == 2 * half,
        ;
        assert(y < x) by (nonlinear_arith)
            requires
                x * x == 2 * (y * y),
                x > 0,
        ;
        no_rational_root_of_two(y, half);
        assert(x == 0) by (nonlinear_arith)
            requires
                x * x == 2 * (y * y),
                y == 0,
        ;
    }
}

/// A leg never only just dominates: the bound between axis and diagonal is
/// irrational.
proof fn domination_is_strict(leg: int, other: int)
    requires
        leg >= 0,
        other >= 0,
        leg > 0 || other > 0,
    ensures
        leg * leg != 2 * leg * other + other * other,
{
    if leg * leg == 2 * leg * other + other * other {
        assert((leg - other) * (leg - other) == 2 * (other * other)) by (nonlinear_arith)
            requires
                leg * leg == 2 * leg * other + other * other,
        ;
        let gap = magnitude(leg - other);
        assert(gap * gap == (leg - other) * (leg - other)) by (nonlinear_arith)
            requires
                gap == leg - other || gap == other - leg,
        ;
        no_rational_root_of_two(gap as nat, other as nat);
    }
}

/// The direction of a step is strictly closer to it than each of the other
/// seven.
pub proof fn direction_is_the_closest(across: int, down: int, other: Direction)
    requires
        across != 0 || down != 0,
        direction_of(across, down) != Some(other),
    ensures
        closer(across, down, direction_of(across, down)->0, other),
{
    let near = direction_of(across, down)->0;
    let (a, d) = (magnitude(across), magnitude(down));
    let (n, f) = (along(near, across, down), along(other, across, down));
    domination_is_strict(d, a);
    domination_is_strict(a, d);
    let axis = length_squared(other) == 1;
    assert(axis ==> f == a || f == -a || f == d || f == -d);
    assert(!axis ==> f == a + d || f == -(a + d) || f == a - d || f == d - a);
    assert(f * f == a * a || f * f == d * d || f * f == (a + d) * (a + d) || f * f == (a - d) * (a - d))
        by (nonlinear_arith)
        requires
            f == a || f == -a || f == d || f == -d || f == a + d || f == -(a + d) || f == a - d || f == d
                - a,
    ;
    assert(axis ==> f * f == a * a || f * f == d * d) by (nonlinear_arith)
        requires
            axis ==> f == a || f == -a || f == d || f == -d,
    ;
    assert(!axis ==> f * f == (a + d) * (a + d) || f * f == (a - d) * (a - d)) by (nonlinear_arith)
        requires
            !axis ==> f == a + d || f == -(a + d) || f == a - d || f == d - a,
    ;
    if dominates(d, a) || dominates(a, d) {
        let (leg, rest) = if dominates(d, a) { (d, a) } else { (a, d) };
        assert(n == leg);
        assert(leg > rest && leg * leg > rest * rest && 2 * (leg * leg) > (leg + rest) * (leg + rest)
            && 2 * (leg * leg) > (leg - rest) * (leg - rest)) by (nonlinear_arith)
            requires
                dominates(leg, rest),
                leg >= 0,
                rest >= 0,
        ;
        assert((a + d) * (a + d) == (leg + rest) * (leg + rest) && (a - d) * (a - d) == (leg - rest) * (
        leg - rest)) by (nonlinear_arith)
            requires
                (leg == a && rest == d) || (leg == d && rest == a),
        ;
        if axis && f > 0 {
            assert(f == rest);
        }
    } else {
        assert(n == a + d);
        assert(a > 0 && d > 0) by (nonlinear_arith)
            requires
                !dominates(a, d),
                !dominates(d, a),
                a >= 0,
                d >= 0,
                a > 0 || d > 0,
        ;
        assert((a + d) * (a + d) > 2 * (a * a) && (a + d) * (a + d) > 2 * (d * d)) by (nonlinear_arith)
            requires
                a * a < 2 * a * d + d * d,
                d * d < 2 * d * a + a * a,
        ;
        assert((a + d) * (a + d) > (a - d) * (a - d)) by (nonlinear_arith)
            requires
                a > 0,
                d > 0,
        ;
        if !axis && f > 0 {
            assert(f == a - d || f == d - a);
            assert(f * f == (a - d) * (a - d)) by (nonlinear_arith)
                requires
                    f == a - d || f == d - a,
            ;
        }
    }
}

} // verus!
