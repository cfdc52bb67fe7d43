//! Smoothed motion of one on-screen entity toward a target point.
use vstd::prelude::*;

verus! {

/// A point on screen, in tenths of a pixel.
#[derive(Clone, Copy, Debug, PartialEq, Eq, Structural)]
pub struct Point {
    pub x: i32,
    pub y: i32,
}

impl Point {
    pub fn new(x: i32, y: i32) -> (p: Point)
        ensures
            p.x == x,
            p.y == y,
    {
        Point { x, y }
    }

    pub open spec fn zero_spec() -> Point {
        Point { x: 0, y: 0 }
    }

    #[verifier::when_used_as_spec(zero_spec)]
    pub fn zero() -> (p: Point)
        ensures
            p == Point::zero_spec(),
    {
        Point { x: 0, y: 0 }
    }
}

/// The largest `r` with `r * r <= n`.
pub open spec fn floor_sqrt(n: nat) -> nat
    decreases n,
{
    if n == 0 {
        0
    } else {
        let r = floor_sqrt((n - 1) as nat);
        if (r + 1) * (r + 1) <= n {
            r + 1
        } else {
            r
        }
    }
}

pub proof fn lemma_floor_sqrt_bounds(n: nat)
    ensures
        floor_sqrt(n) * floor_sqrt(n) <= n,
        n < (floor_sqrt(n) + 1) * (floor_sqrt(n) + 1),
    decreases n,
{
    if n > 0 {
        lemma_floor_sqrt_bounds((n - 1) as nat);
        let r = floor_sqrt((n - 1) as nat);
        assert((r + 1) * (r + 1) < (r + 2) * (r + 2)) by (nonlinear_arith);
        if (r + 1) * (r + 1) <= n {
            assert(floor_sqrt(n) == r + 1);
            assert(n <= (r + 1) * (r + 1));
            assert(n < (floor_sqrt(n) + 1) * (floor_sqrt(n) + 1));
        } else {
            assert(floor_sqrt(n) == r);
        }
    } else {
        assert(floor_sqrt(n) == 0);
        assert((0 + 1) * (0 + 1) == 1) by (nonlinear_arith);
    }
}

pub proof fn lemma_floor_sqrt_unique(n: nat, r: nat)
    requires
        r * r <= n,
        n < (r + 1) * (r + 1),
    ensures
        floor_sqrt(n) == r,
{
    lemma_floor_sqrt_bounds(n);
    let s = floor_sqrt(n);
    if s < r {
        assert((s + 1) * (s + 1) <= r * r) by (nonlinear_arith)
            requires
                s + 1 <= r,
        ;
    } else if r < s {
        assert((r + 1) * (r + 1) <= s * s) by (nonlinear_arith)
            requires
                r + 1 <= s,
        ;
    }
}

/// Integer square root, rounded down.
pub fn isqrt(n: u128) -> (r: u64)
    requires
        n < 0x4_0000_0000_0000_0000,
    ensures
        r == floor_sqrt(n as nat),
        r < 0x4_0000_0000,
{
    let mut lo: u128 = 0;
    let mut hi: u128 = 0x4_0000_0000;
    assert(n < hi * hi) by (nonlinear_arith)
        requires
            n < 0x4_0000_0000_0000_0000,
            hi == 0x4_0000_0000,
    ;
    while lo + 1 < hi
        invariant
            lo < hi <= 0x4_0000_0000,
            lo * lo <= n,
            n < hi * hi,
        decreases hi - lo,
    {
        let mid: u128 = lo + (hi - lo) / 2;
        assert(mid * mid <= 0x4_0000_0000 * 0x4_0000_0000) by (nonlinear_arith)
            requires
                mid <= 0x4_0000_0000,
        ;
        if mid * mid <= n {
            lo = mid;
        } else {
            hi = mid;
        }
    }
    proof {
        lemma_floor_sqrt_unique(n as nat, lo as nat);
    }
    lo as u64
}

/// Default travel speed: one hundred pixels per second.
pub const DEFAULT_SPEED: u32 = 1000;

/// Squared distance between two points.
pub open spec fn dist_sq(a: Point, b: Point) -> nat {
    ((b.x - a.x) * (b.x - a.x) + (b.y - a.y) * (b.y - a.y)) as nat
}

/// Distance covered in `dt` milliseconds at `speed` tenths of a pixel per second.
pub open spec fn travel(speed: u32, dt: u32) -> nat {
    (speed * dt / 1000) as nat
}

/// One coordinate moved from `c` toward `t` by `travel / dist` of the way.
pub open spec fn step_axis(c: int, t: int, travel: nat, dist: nat) -> int {
    if t >= c {
        c + (t - c) * (travel as int) / (dist as int)
    } else {
        c - (c - t) * (travel as int) / (dist as int)
    }
}

proof fn lemma_step_axis_between(c: int, t: int, travel: nat, dist: nat)
    requires
        travel < dist,
    ensures
        c <= t ==> c <= step_axis(c, t, travel, dist) <= t,
        t < c ==> t <= step_axis(c, t, travel, dist) <= c,
{
    let a: int = if t >= c { t - c } else { c - t };
    assert(0 <= a * (travel as int) / (dist as int) <= a) by (nonlinear_arith)
        requires
            travel < dist,
            a >= 0,
    ;
}

/// Smoothed motion toward a target point, with an optional idle
/// oscillation ("breathing") whose phase advances with time.
#[derive(Clone, Copy, Debug)]
pub struct Target {
    /// Where the entity is now.
    pub current_pos: Point,
    /// Where the entity is heading.
    pub target_pos: Point,
    /// Travel speed, in tenths of a pixel per second.
    pub speed: u32,
    /// Whether the idle oscillation runs.
    pub breath: bool,
    /// Amplitude of the idle oscillation, in tenths of a pixel.
    pub breath_size: Point,
    /// Angular speed of the idle oscillation, in milliradians per second.
    pub breath_speed: u32,
    /// Milliseconds of oscillation so far.
    pub time: u64,
}

impl Target {
    pub open spec fn current(&self) -> Point {
        self.current_pos
    }

    pub open spec fn goal(&self) -> Point {
        self.target_pos
    }

    pub open spec fn phase_time(&self) -> u64 {
        self.time
    }

    /// Settled: the current position equals the target exactly.
    pub open spec fn settled(&self) -> bool {
        self.current_pos == self.target_pos
    }

    /// The current position after one step of `dt` milliseconds.
    pub open spec fn stepped(&self, dt: u32) -> Point {
        let d = floor_sqrt(dist_sq(self.current_pos, self.target_pos));
        let tr = travel(self.speed, dt);
        if self.settled() {
            self.current_pos
        } else if d <= tr || d * 100 < self.speed {
            self.target_pos
        } else {
            Point {
                x: step_axis(self.current_pos.x as int, self.target_pos.x as int, tr, d) as i32,
                y: step_axis(self.current_pos.y as int, self.target_pos.y as int, tr, d) as i32,
            }
        }
    }

    /// The animator after one step of `dt` milliseconds.
    pub open spec fn advanced(&self, dt: u32) -> Target {
        Target { current_pos: self.stepped(dt), ..*self }
    }

    /// The animator after its target is set to `p`.
    pub open spec fn retargeted(&self, p: Point) -> Target {
        Target {
            target_pos: p,
            current_pos: if self.current_pos == Point::zero_spec() { p } else { self.current_pos },
            ..*self
        }
    }

    /// A resting animator at the origin, at the default speed.
    pub open spec fn new_spec() -> Target {
        Target {
            current_pos: Point::zero_spec(),
            target_pos: Point::zero_spec(),
            speed: DEFAULT_SPEED,
            breath: false,
            breath_size: Point { x: 10, y: 15 },
            breath_speed: 2000,
            time: 0,
        }
    }

    #[verifier::when_used_as_spec(new_spec)]
    pub fn new() -> (t: Target)
        ensures
            t == Target::new_spec(),
    {
        Self::new_with_speed(DEFAULT_SPEED, Point::zero())
    }

    /// An animator resting at `target`.
    pub fn new_with_speed(speed: u32, target: Point) -> (t: Target)
        ensures
            t == (Target { current_pos: target, target_pos: target, speed, ..Target::new_spec() }),
    {
        Target {
            current_pos: target,
            target_pos: target,
            speed,
            breath: false,
            breath_size: Point::new(10, 15),
            breath_speed: 2000,
            time: 0,
        }
    }

    /// Sets the destination; an animator still at the origin is placed
    /// there at once instead of sliding in from the origin.
    pub fn set_target(&mut self, target: Point)
        ensures
            *final(self) == old(self).retargeted(target),
    {
        self.target_pos = target;
        if self.current_pos == Point::zero() {
            self.current_pos = target;
        }
    }

    pub fn is_active(&self) -> (r: bool)
        ensures
            r == self.settled(),
    {
        self.current_pos == self.target_pos
    }

    /// Moves `speed * dt` toward the target, snapping onto it when the
    /// remaining distance is within that travel or under a hundredth of
    /// the speed.
    pub fn update(&mut self, dt: u32)
        ensures
            *final(self) == old(self).advanced(dt),
    {
        if self.current_pos == self.target_pos {
            return;
        }
        let c = self.current_pos;
        let t = self.target_pos;
        let dx: i64 = t.x as i64 - c.x as i64;
        let dy: i64 = t.y as i64 - c.y as i64;
        let ax: u64 = if dx >= 0 { dx as u64 } else { (-dx) as u64 };
        let ay: u64 = if dy >= 0 { dy as u64 } else { (-dy) as u64 };
        assert(ax * ax <= 0x1_0000_0000 * 0x1_0000_0000) by (nonlinear_arith)
            requires
                ax <= 0x1_0000_0000,
        ;
        assert(ay * ay <= 0x1_0000_0000 * 0x1_0000_0000) by (nonlinear_arith)
            requires
                ay <= 0x1_0000_0000,
        ;
        let sq: u128 = ax as u128 * ax as u128 + ay as u128 * ay as u128;
        assert(sq == dist_sq(c, t)) by (nonlinear_arith)
            requires
                sq == ax * ax + ay * ay,
                ax == if dx >= 0 { dx as int } else { -dx },
                ay == if dy >= 0 { dy as int } else { -dy },
                dx == t.x - c.x,
                dy == t.y - c.y,
        ;
        let d: u64 = isqrt(sq);
        assert(self.speed as u64 * dt as u64 <= 0xffff_ffff * 0xffff_ffff) by (nonlinear_arith)
            requires
                self.speed <= 0xffff_ffff,
                dt <= 0xffff_ffff,
        ;
        let tr: u64 = self.speed as u64 * dt as u64 / 1000;
        if d <= tr || (d as u128) * 100 < self.speed as u128 {
            self.current_pos = t;
            return;
        }
        proof {
            lemma_step_axis_between(c.x as int, t.x as int, tr as nat, d as nat);
            lemma_step_axis_between(c.y as int, t.y as int, tr as nat, d as nat);
        }
        assert(ax * tr <= 0x1_0000_0000 * 0x4_0000_0000 && ay * tr <= 0x1_0000_0000 * 0x4_0000_0000)
            by (nonlinear_arith)
            requires
                ax <= 0x1_0000_0000,
                ay <= 0x1_0000_0000,
                tr < d,
                d < 0x4_0000_0000,
        ;
        let sx: u64 = (ax as u128 * tr as u128 / d as u128) as u64;
        let sy: u64 = (ay as u128 * tr as u128 / d as u128) as u64;
        let nx: i64 = if dx >= 0 { c.x as i64 + sx as i64 } else { c.x as i64 - sx as i64 };
        let ny: i64 = if dy >= 0 { c.y as i64 + sy as i64 } else { c.y as i64 - sy as i64 };
        self.current_pos = Point { x: nx as i32, y: ny as i32 };
    }

    /// The animator after its oscillation phase advances by `dt` milliseconds.
    pub open spec fn breathed(&self, dt: u32) -> Target {
        if self.breath {
            Target { time: sat_add_u64(self.time, dt as u64), ..*self }
        } else {
            *self
        }
    }

    /// Advances the idle oscillation's phase by `dt` milliseconds when it runs.
    pub fn breath_update(&mut self, dt: u32)
        ensures
            *final(self) == old(self).breathed(dt),
    {
        if self.breath {
            self.time = self.time.saturating_add(dt as u64);
        }
    }

    /// Milliseconds of oscillation so far.
    pub fn breath_time(&self) -> (r: u64)
        ensures
            r == self.time,
    {
        self.time
    }

    pub fn get_pos_no_offset(&self) -> (p: Point)
        ensures
            p == self.current(),
    {
        self.current_pos
    }

    pub fn get_target(&self) -> (p: Point)
        ensures
            p == self.goal(),
    {
        self.target_pos
    }
}

/// `a + b`, held at `u64::MAX`.
pub open spec fn sat_add_u64(a: u64, b: u64) -> u64 {
    if a + b > u64::MAX { u64::MAX } else { (a + b) as u64 }
}

} // verus!
