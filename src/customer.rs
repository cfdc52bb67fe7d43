//! Customers, their requests and patience, and the line they stand in.
use vstd::prelude::*;

use crate::moving_target::{sat_add_u64, Point, Target};
use crate::random::RandomSource;
use crate::sandwitch::{
    clamp_i32, clamp_to_i32, get_interior_ingredient, Ingredients, Sandwitch, SandwitchMachine,
    SandwichView,
};

verus! {

/// Shortest request.
pub const MIN_REQUEST_SIZE: u64 = 2;

/// Spread of request sizes for a fresh game, in tenths of an ingredient.
pub const MAX_REQUEST_DELTA: u64 = 30;

/// Growth of that spread per point of score, in tenths of an ingredient.
pub const REQUEST_DELTA_STEP: u64 = 2;

/// Request sizes come from one draw in `0..REQUEST_DRAW_RANGE`, read as a
/// fraction of one.
pub const REQUEST_DRAW_RANGE: u64 = 1_000_000;

/// Patience of a customer in a fresh game, its floor, and its loss per
/// point of score, in milliseconds.
pub const INITIAL_WAIT_TIME: u64 = 45_000;
pub const MIN_WAIT_TIME: u64 = 15_000;
pub const WAIT_TIME_STEP: u64 = 800;

/// Time between arrivals in a fresh game, its floor, and its loss per
/// point of score, in milliseconds.
pub const INITIAL_SPAWN_TIME: u64 = 15_000;
pub const MIN_SPAWN_TIME: u64 = 5_000;
pub const SPAWN_TIME_STEP: u64 = 400;

pub const INITIAL_LIVES: u32 = 3;

/// How many customers at the head of the line are served at once.
pub const ACTIVE_CUSTOMERS: usize = 3;

/// Longest line.
pub const MAX_CUSTOMERS: usize = 6;

/// Patience, in milliseconds, of a customer arriving at `score`.
pub open spec fn wait_limit_for(score: nat) -> nat {
    if INITIAL_WAIT_TIME >= MIN_WAIT_TIME + WAIT_TIME_STEP * score {
        (INITIAL_WAIT_TIME - WAIT_TIME_STEP * score) as nat
    } else {
        MIN_WAIT_TIME as nat
    }
}

/// Spread of request sizes, in tenths, for a customer arriving at `score`.
pub open spec fn request_delta_for(score: nat) -> nat {
    let d = MAX_REQUEST_DELTA + REQUEST_DELTA_STEP * score;
    if d > u64::MAX { u64::MAX as nat } else { d as nat }
}

/// Time between arrivals, in milliseconds, once `score` points are made.
pub open spec fn spawn_delay_for(score: nat) -> nat {
    if INITIAL_SPAWN_TIME >= MIN_SPAWN_TIME + SPAWN_TIME_STEP * score {
        (INITIAL_SPAWN_TIME - SPAWN_TIME_STEP * score) as nat
    } else {
        MIN_SPAWN_TIME as nat
    }
}

/// Request size for a draw: `round(draw / REQUEST_DRAW_RANGE * delta / 10
/// + MIN_REQUEST_SIZE)`, halves rounded up.
pub open spec fn request_size_for(draw: nat, delta: nat) -> nat {
    let half = 10 * REQUEST_DRAW_RANGE;
    (MIN_REQUEST_SIZE + (2 * draw * delta + half) / (2 * half)) as nat
}

pub fn wait_limit(score: u64) -> (r: u64)
    ensures
        r == wait_limit_for(score as nat),
{
    if score >= 38 {
        MIN_WAIT_TIME
    } else if INITIAL_WAIT_TIME - WAIT_TIME_STEP * score >= MIN_WAIT_TIME {
        INITIAL_WAIT_TIME - WAIT_TIME_STEP * score
    } else {
        MIN_WAIT_TIME
    }
}

pub fn request_delta(score: u64) -> (r: u64)
    ensures
        r == request_delta_for(score as nat),
{
    if score > (u64::MAX - MAX_REQUEST_DELTA) / REQUEST_DELTA_STEP {
        u64::MAX
    } else {
        MAX_REQUEST_DELTA + score * REQUEST_DELTA_STEP
    }
}

pub fn spawn_delay(score: u64) -> (r: u64)
    ensures
        r == spawn_delay_for(score as nat),
{
    if score >= 26 {
        MIN_SPAWN_TIME
    } else if INITIAL_SPAWN_TIME - SPAWN_TIME_STEP * score >= MIN_SPAWN_TIME {
        INITIAL_SPAWN_TIME - SPAWN_TIME_STEP * score
    } else {
        MIN_SPAWN_TIME
    }
}

pub fn request_size(draw: u64, delta: u64) -> (r: u64)
    requires
        draw < REQUEST_DRAW_RANGE,
    ensures
        r == request_size_for(draw as nat, delta as nat),
{
    assert(2 * draw * delta <= 2 * 1_000_000 * 0xffff_ffff_ffff_ffff) by (nonlinear_arith)
        requires
            draw < 1_000_000,
            delta <= 0xffff_ffff_ffff_ffff,
    ;
    let num: u128 = 2 * draw as u128 * delta as u128 + 10 * REQUEST_DRAW_RANGE as u128;
    let q: u128 = num / (20 * REQUEST_DRAW_RANGE as u128);
    assert(q <= delta as u128 / 10 + 1) by (nonlinear_arith)
        requires
            draw < 1_000_000,
            num == 2 * draw * delta + 10_000_000,
            q == num / 20_000_000,
    ;
    MIN_REQUEST_SIZE + q as u64
}

/// Where a customer enters, in tenths of a pixel.
pub const CUSTOMER_START_X: i32 = 5000;
pub const CUSTOMER_START_Y: i32 = 2800;

/// Where departing customers leave, in tenths of a pixel.
pub const CUSTOMER_END_X: i32 = 750;
pub const CUSTOMER_END_Y: i32 = 4250;

/// Place of the first customer in line, and the spacing between places.
pub const LINE_BASE_X: i32 = 800;
pub const LINE_BASE_Y: i32 = 2950;
pub const LINE_SPACING: i32 = 900;

/// How far below a departing customer its sandwich is carried.
pub const CARRY_OFFSET_Y: i32 = 300;

pub open spec fn customer_start() -> Point {
    Point { x: CUSTOMER_START_X, y: CUSTOMER_START_Y }
}

pub open spec fn customer_end() -> Point {
    Point { x: CUSTOMER_END_X, y: CUSTOMER_END_Y }
}

/// Place `k` of the line.
pub open spec fn line_point(k: int) -> Point {
    Point { x: clamp_i32(LINE_BASE_X + LINE_SPACING * k), y: LINE_BASE_Y }
}

pub fn line_position(k: u128) -> (p: Point)
    requires
        k <= 0x2_0000_0000_0000_0000,
    ensures
        p == line_point(k as int),
{
    assert(LINE_SPACING * k <= 900 * 0x2_0000_0000_0000_0000) by (nonlinear_arith)
        requires
            k <= 0x2_0000_0000_0000_0000,
            LINE_SPACING == 900,
    ;
    let x: i128 = LINE_BASE_X as i128 + LINE_SPACING as i128 * k as i128;
    Point::new(clamp_to_i32(x), LINE_BASE_Y)
}

/// `a - b`, held at zero.
pub open spec fn sat_sub_u32(a: u32, b: nat) -> u32 {
    if b >= a { 0 } else { (a - b) as u32 }
}

/// A request is met by a sandwich that holds exactly its ingredients, in
/// order, each of them settled.
pub open spec fn request_matches(req: Seq<Ingredients>, s: SandwichView) -> bool {
    &&& s.ingredients.len() == req.len()
    &&& forall|i: int|
        0 <= i < req.len() ==> #[trigger] s.targets[i].settled() && s.ingredients[i] == req[i]
}

/// One patron: a request, a patience timer, and an animator.
pub struct Customer {
    pub ings: Vec<Ingredients>,
    /// The sandwich carried away after a match.
    pub sandwitch: Option<Sandwitch>,
    pub finished: bool,
    pub target: Target,
    /// At its place in the line: the request shows and the timer runs.
    pub waiting: bool,
    /// Patience, in milliseconds.
    pub wait_max: u64,
    /// Time waited, in milliseconds.
    pub wait_time: u64,
    /// Spread of request sizes, in tenths of an ingredient.
    pub max_request_delta: u64,
}

impl Customer {
    pub open spec fn timed_out(&self) -> bool {
        self.wait_time > self.wait_max
    }

    /// The customer after one step of `dt` milliseconds.
    pub open spec fn advanced(self, dt: u32) -> Customer {
        Customer {
            target: self.target.advanced(dt),
            wait_time: if self.waiting {
                sat_add_u64(self.wait_time, dt as u64)
            } else {
                self.wait_time
            },
            ..self
        }
    }

    /// A customer arriving at `score`, with no request yet.
    pub fn new(score: u64) -> (c: Customer)
        ensures
            c.ings@.len() == 0,
            c.sandwitch is None,
            !c.finished,
            c.target == (Target { breath: true, ..Target::new_spec() }),
            !c.waiting,
            c.wait_time == 0,
            c.wait_max == wait_limit_for(score as nat),
            c.max_request_delta == request_delta_for(score as nat),
    {
        let mut c = Customer {
            ings: Vec::new(),
            sandwitch: None,
            finished: false,
            target: Target::new(),
            waiting: false,
            wait_max: wait_limit(score),
            wait_time: 0,
            max_request_delta: request_delta(score),
        };
        c.target.breath = true;
        c
    }

    /// Draws a request: bread at both ends, interior ingredients under the
    /// single-retry rule against bread, of a size drawn from the spread.
    pub fn populate<R: RandomSource>(&mut self, rng: &mut R)
        ensures
            exists|draw: nat|
                draw < REQUEST_DRAW_RANGE && #[trigger] request_size_for(
                    draw,
                    old(self).max_request_delta as nat,
                ) + old(self).ings@.len() == final(self).ings@.len(),
            final(self).ings@.len() >= old(self).ings@.len() + MIN_REQUEST_SIZE,
            final(self).ings@.skip(final(self).ings@.len() - old(self).ings@.len())
                == old(self).ings@,
            final(self).ings@[0] == Ingredients::Bread,
            final(self).ings@[final(self).ings@.len() - old(self).ings@.len() - 1]
                == Ingredients::Bread,
            final(self).sandwitch == old(self).sandwitch,
            final(self).finished == old(self).finished,
            final(self).target == old(self).target,
            final(self).waiting == old(self).waiting,
            final(self).wait_max == old(self).wait_max,
            final(self).wait_time == old(self).wait_time,
            final(self).max_request_delta == old(self).max_request_delta,
    {
        let draw = rng.below(REQUEST_DRAW_RANGE);
        let size = request_size(draw, self.max_request_delta);
        let ghost k = old(self).ings@.len();
        let mut i: u64 = 0;
        while i < size
            invariant
                i <= size,
                size >= MIN_REQUEST_SIZE,
                self.ings@.len() == k + i,
                self.ings@.skip(i as int) == old(self).ings@,
                i > 0 ==> self.ings@[i - 1] == Ingredients::Bread,
                i == size ==> self.ings@[0] == Ingredients::Bread,
                self.sandwitch == old(self).sandwitch,
                self.finished == old(self).finished,
                self.target == old(self).target,
                self.waiting == old(self).waiting,
                self.wait_max == old(self).wait_max,
                self.wait_time == old(self).wait_time,
                self.max_request_delta == old(self).max_request_delta,
            decreases size - i,
        {
            let ing = if i == 0 || i == size - 1 {
                Ingredients::Bread
            } else {
                get_interior_ingredient(rng)
            };
            let ghost before = self.ings@;
            self.ings.insert(0, ing);
            assert(self.ings@.skip(i + 1) =~= before.skip(i as int));
            i = i + 1;
        }
        assert(request_size_for(draw as nat, old(self).max_request_delta as nat) + k
            == self.ings@.len());
    }

    /// Whether `sw` meets the request.
    pub fn meets(&self, sw: &Sandwitch) -> (r: bool)
        requires
            sw.wf(),
        ensures
            r == request_matches(self.ings@, sw@),
    {
        if sw.ingredients.len() != self.ings.len() {
            return false;
        }
        let n = self.ings.len();
        let mut i: usize = 0;
        while i < n
            invariant
                n == self.ings@.len(),
                n == sw@.len(),
                sw.wf(),
                i <= n,
                forall|k: int|
                    0 <= k < i ==> (#[trigger] sw.ing_targets@[k]).settled()
                        && sw.ingredients@[k] == self.ings@[k],
            decreases n - i,
        {
            if !sw.ing_targets[i].is_active() {
                return false;
            }
            if !(self.ings[i] == sw.ingredients[i]) {
                return false;
            }
            assert forall|k: int| 0 <= k < i + 1 implies (#[trigger] sw.ing_targets@[k]).settled()
                && sw.ingredients@[k] == self.ings@[k] by {
                if k == i {
                    assert(sw.ing_targets@[i as int].settled());
                }
            }
            i = i + 1;
        }
        true
    }

    /// Whether `sw` meets the request; a met request marks the customer
    /// finished, and nothing changes otherwise.
    pub fn request_met(&mut self, sw: &Sandwitch) -> (r: bool)
        requires
            sw.wf(),
        ensures
            r == request_matches(old(self).ings@, sw@),
            *final(self) == (if r {
                Customer { finished: true, ..*old(self) }
            } else {
                *old(self)
            }),
    {
        let r = self.meets(sw);
        if r {
            self.finished = true;
        }
        r
    }

    /// Steps the animator by `dt` milliseconds, and the timer too while
    /// waiting.
    pub fn update(&mut self, dt: u32)
        ensures
            *final(self) == old(self).advanced(dt),
            final(self).waiting == old(self).waiting,
            old(self).waiting ==> final(self).wait_time >= old(self).wait_time,
    {
        self.target.update(dt);
        if self.waiting {
            self.wait_time = self.wait_time.saturating_add(dt as u64);
        }
    }

    /// The customer at roster index `i` after one frame of `dt`
    /// milliseconds, `leaving` customers being on their way out. A waiting
    /// customer holds still while others leave; the others walk to their
    /// place, counting the places of those leaving, and start waiting on
    /// arrival.
    pub open spec fn in_line(self, i: int, leaving: int, dt: u32) -> Customer {
        let t0 = if self.waiting { self.target.breathed(dt) } else { self.target };
        if self.waiting && leaving > 0 {
            Customer { target: t0, ..self }
        } else {
            let t1 = if t0.current() == Point::zero_spec() {
                t0.retargeted(customer_start())
            } else {
                t0
            };
            let k = if self.waiting { i } else { i + leaving };
            let t2 = t1.retargeted(line_point(k));
            let w = self.waiting || t2.settled();
            Customer { target: t2, waiting: w, ..self }.advanced(dt)
        }
    }

    /// Whether that frame ends this customer's patience.
    pub open spec fn times_out_in_line(self, i: int, leaving: int, dt: u32) -> bool {
        !(self.waiting && leaving > 0) && self.in_line(i, leaving, dt).timed_out()
    }

    /// One frame in line, for the customer at roster index `i`.
    pub fn step_in_line(&mut self, i: usize, leaving: usize, dt: u32) -> (timed_out: bool)
        ensures
            *final(self) == old(self).in_line(i as int, leaving as int, dt),
            timed_out == old(self).times_out_in_line(i as int, leaving as int, dt),
    {
        let was_waiting = self.waiting;
        if was_waiting {
            self.target.breath_update(dt);
        }
        if was_waiting && leaving > 0 {
            return false;
        }
        if self.target.get_pos_no_offset() == Point::zero() {
            self.target.set_target(Point::new(CUSTOMER_START_X, CUSTOMER_START_Y));
        }
        let k: u128 = if was_waiting { i as u128 } else { i as u128 + leaving as u128 };
        self.target.set_target(line_position(k));
        if self.target.is_active() {
            self.waiting = true;
        }
        self.update(dt);
        self.waited_too_long()
    }

    /// Whether the carried sandwich, if any, is well formed.
    pub open spec fn carries_wf(self) -> bool {
        match self.sandwitch {
            Some(sw) => sw.wf(),
            None => true,
        }
    }

    /// An angry customer after one frame of `dt` milliseconds of walking
    /// out.
    pub open spec fn walked_out(self, dt: u32) -> Customer {
        Customer { target: self.target.retargeted(customer_end()), ..self }.advanced(dt)
    }

    /// One frame of an angry customer walking out; whether it has arrived.
    pub fn step_angry(&mut self, dt: u32) -> (gone: bool)
        ensures
            *final(self) == old(self).walked_out(dt),
            gone == final(self).target.settled(),
    {
        self.target.set_target(Point::new(CUSTOMER_END_X, CUSTOMER_END_Y));
        self.update(dt);
        self.target.is_active()
    }

    /// `next` is this served customer after one frame of `dt` milliseconds
    /// of walking out: the sandwich is carried just below it, and the
    /// customer moves only once the sandwich has caught up.
    pub open spec fn walked_out_served(self, next: Customer, dt: u32) -> bool {
        let t1 = self.target.retargeted(customer_end());
        let carry = Point { x: t1.current().x, y: clamp_i32(t1.current().y + CARRY_OFFSET_Y) };
        &&& next.carries_wf()
        &&& next.ings == self.ings
        &&& next.finished == self.finished
        &&& next.waiting == self.waiting
        &&& next.wait_max == self.wait_max
        &&& next.wait_time == self.wait_time
        &&& next.max_request_delta == self.max_request_delta
        &&& match self.sandwitch {
            Some(sw) => {
                let moved = sw@.retargeted(carry).advanced(dt);
                &&& next.sandwitch matches Some(sw2) && sw2@ == moved
                &&& next.target == if moved.anchor.settled() {
                    t1.advanced(dt)
                } else {
                    t1
                }
            },
            None => {
                &&& next.sandwitch is None
                &&& next.target == t1.advanced(dt)
            },
        }
    }

    /// One frame of a served customer walking out: the sandwich is carried
    /// just below it, and the customer moves only once the sandwich has
    /// caught up. Returns whether the customer has arrived.
    pub fn step_leaving(&mut self, dt: u32) -> (gone: bool)
        requires
            old(self).carries_wf(),
        ensures
            old(self).walked_out_served(*final(self), dt),
            gone == final(self).target.settled(),
    {
        self.target.set_target(Point::new(CUSTOMER_END_X, CUSTOMER_END_Y));
        let pos = self.target.get_pos_no_offset();
        let carry = Point::new(pos.x, clamp_to_i32(pos.y as i128 + CARRY_OFFSET_Y as i128));
        let mut arrived = true;
        match &mut self.sandwitch {
            Some(sw) => {
                sw.set_target(carry);
                sw.update(dt);
                arrived = sw.target.is_active();
            },
            None => {},
        }
        if arrived {
            self.target.update(dt);
        }
        self.target.is_active()
    }

    pub fn waited_too_long(&self) -> (r: bool)
        ensures
            r == self.timed_out(),
    {
        self.wait_time > self.wait_max
    }
}

/// The last of the first `n` customers of `rs` whose patience ends this
/// frame, `leaving` customers being on their way out.
pub open spec fn last_timeout(rs: Seq<Customer>, n: int, leaving: int, dt: u32) -> Option<usize>
    decreases n,
{
    if n <= 0 {
        None
    } else if rs[n - 1].times_out_in_line(n - 1, leaving, dt) {
        Some((n - 1) as usize)
    } else {
        last_timeout(rs, n - 1, leaving, dt)
    }
}

proof fn lemma_last_timeout(rs: Seq<Customer>, n: int, leaving: int, dt: u32)
    requires
        n <= usize::MAX,
    ensures
        last_timeout(rs, n, leaving, dt) matches Some(i) ==> 0 <= i < n
            && rs[i as int].times_out_in_line(i as int, leaving, dt),
    decreases n,
{
    if n > 0 {
        lemma_last_timeout(rs, n - 1, leaving, dt);
    }
}

/// Every angry customer after one frame of walking out.
pub open spec fn walk_out_all(s: Seq<Customer>, dt: u32) -> Seq<Customer> {
    s.map_values(|c: Customer| c.walked_out(dt))
}

/// Those not yet at their destination, order kept.
pub open spec fn still_walking(s: Seq<Customer>) -> Seq<Customer> {
    s.filter(|c: Customer| !c.target.settled())
}

proof fn lemma_still_walking_step(s: Seq<Customer>, i: int)
    requires
        0 <= i < s.len(),
    ensures
        still_walking(s.take(i + 1)) == (if !s[i].target.settled() {
            still_walking(s.take(i)).push(s[i])
        } else {
            still_walking(s.take(i))
        }),
{
    reveal(Seq::filter);
    assert(s.take(i + 1).drop_last() =~= s.take(i));
}

proof fn lemma_still_walking_push(s: Seq<Customer>, c: Customer)
    ensures
        still_walking(s.push(c)) == (if !c.target.settled() {
            still_walking(s).push(c)
        } else {
            still_walking(s)
        }),
{
    reveal(Seq::filter);
    assert(s.push(c).drop_last() =~= s);
}

proof fn lemma_still_walking_len(s: Seq<Customer>)
    ensures
        still_walking(s).len() <= s.len(),
{
    s.lemma_filter_len(|c: Customer| !c.target.settled());
}

/// Whether a customer arrives in a frame of `dt` milliseconds, the clock
/// standing at `clock`, arrivals due every `delay`, and `len` in line.
pub open spec fn spawn_fires(clock: u64, delay: u64, len: nat, dt: u32) -> bool {
    sat_add_u64(clock, dt as u64) > delay && len < MAX_CUSTOMERS
}

/// A customer that has just arrived, at `score`.
pub open spec fn fresh_arrival(c: Customer, score: u64) -> bool {
    &&& !c.waiting
    &&& c.wait_time == 0
    &&& c.wait_max == wait_limit_for(score as nat)
    &&& c.sandwitch is None
    &&& !c.finished
}

/// `s` is roster `r` after the arrival step: when `fires`, a fresh customer
/// joins the end and the first `active` customers without a request get one;
/// otherwise nothing changes.
pub open spec fn arrived(r: Seq<Customer>, s: Seq<Customer>, fires: bool, score: u64, active: int) -> bool {
    if fires {
        &&& s.len() == r.len() + 1
        &&& forall|k: int| 0 <= k < r.len() ==> refreshed(r[k], #[trigger] s[k], k, active)
        &&& fresh_arrival(s.last(), score)
    } else {
        s == r
    }
}

/// Roster `s` after one frame in line: the first `active` customers step,
/// `leaving` customers being on their way out; the rest stay idle.
pub open spec fn stepped_roster(s: Seq<Customer>, active: int, leaving: int, dt: u32) -> Seq<Customer> {
    Seq::new(s.len(), |i: int| if i < active { s[i].in_line(i, leaving, dt) } else { s[i] })
}

/// The smaller of `a` and `b`.
pub open spec fn min_int(a: int, b: int) -> int {
    if a < b { a } else { b }
}

/// Customer `i` of `roster`, among the first `active`, is waiting and its
/// request is met by slot `j` of `slots`.
pub open spec fn can_serve(
    roster: Seq<Customer>,
    active: int,
    slots: Seq<SandwichView>,
    j: int,
    i: int,
) -> bool {
    &&& 0 <= i < active
    &&& i < roster.len()
    &&& 0 <= j < slots.len()
    &&& roster[i].waiting
    &&& request_matches(roster[i].ings@, slots[j])
}

/// `c2` is customer `c` leaving finished with a sandwich whose contents
/// are `slot`.
pub open spec fn carried_away(c: Customer, c2: Customer, slot: SandwichView) -> bool {
    &&& c2 == Customer { finished: true, sandwitch: c2.sandwitch, ..c }
    &&& c2.sandwitch matches Some(sw) && sw.wf() && sw@ == slot
}

/// A waiting customer stays waiting through a frame in line, and the time
/// it has waited does not decrease; only a move to the leaving or angry
/// customers ends its wait.
pub proof fn lemma_wait_monotone(c: Customer, i: int, leaving: int, dt: u32)
    requires
        c.waiting,
    ensures
        c.in_line(i, leaving, dt).waiting,
        c.in_line(i, leaving, dt).wait_time >= c.wait_time,
{
}

/// `n`, held at `u64::MAX`.
pub open spec fn min_u64(n: int) -> u64 {
    if n > u64::MAX { u64::MAX } else { n as u64 }
}

/// Through a frame of the line in which nobody's patience runs out, a
/// waiting customer at the head of the line stays in its place, keeps
/// waiting, and the time it has waited does not decrease.
pub proof fn lemma_line_wait_monotone(
    l: CustomerLine,
    s: Seq<Customer>,
    next: CustomerLine,
    dt: u32,
    k: int,
)
    requires
        l.roster_frame(s, next, dt),
        0 <= k < l.active_customers,
        k < l.customers@.len(),
        l.customers@[k].waiting,
        last_timeout(
            s,
            min_int(s.len() as int, l.active_customers as int),
            l.leaving_customers@.len() as int,
            dt,
        ) is None,
    ensures
        next.customers@[k].waiting,
        next.customers@[k].wait_time >= l.customers@[k].wait_time,
{
    let a = l.active_customers as int;
    let le = l.leaving_customers@.len() as int;
    assert(s[k].waiting && s[k].wait_time == l.customers@[k].wait_time);
    assert(next.customers@ == stepped_roster(s, a, le, dt));
    assert(next.customers@[k] == s[k].in_line(k, le, dt));
    lemma_wait_monotone(s[k], k, le, dt);
}

/// `b` is `a` with its request possibly changed.
pub open spec fn same_but_request(a: Customer, b: Customer) -> bool {
    b == Customer { ings: b.ings, ..a }
}

/// `b` is customer `a` at roster index `i` after requests are drawn for
/// the first `active` customers that have none.
pub open spec fn refreshed(a: Customer, b: Customer, i: int, active: int) -> bool {
    if i < active && a.ings@.len() == 0 {
        &&& same_but_request(a, b)
        &&& b.ings@.len() >= MIN_REQUEST_SIZE
        &&& b.ings@[0] == Ingredients::Bread
        &&& b.ings@.last() == Ingredients::Bread
    } else {
        b == a
    }
}

/// The customers waiting in line, those leaving served, those leaving
/// angry, the arrival clock, the score and the lives left.
pub struct CustomerLine {
    pub active_customers: usize,
    pub customers: Vec<Customer>,
    pub leaving_customers: Vec<Customer>,
    pub angry_customers: Vec<Customer>,
    pub time_since_customer: u64,
    pub next_customer_delay: u64,
    pub score: u64,
    pub lives: u32,
}

impl CustomerLine {
    /// How many customers at the head of the line are served at once.
    pub open spec fn active_count(&self) -> nat {
        self.active_customers as nat
    }

    /// The customers in line, head first.
    pub open spec fn roster(&self) -> Seq<Customer> {
        self.customers@
    }

    /// The customers walking out with a sandwich.
    pub open spec fn leaving(&self) -> Seq<Customer> {
        self.leaving_customers@
    }

    /// The customers walking out angry.
    pub open spec fn angry(&self) -> Seq<Customer> {
        self.angry_customers@
    }

    /// Milliseconds since the last arrival.
    pub open spec fn clock(&self) -> u64 {
        self.time_since_customer
    }

    /// Milliseconds between arrivals.
    pub open spec fn delay(&self) -> u64 {
        self.next_customer_delay
    }

    pub open spec fn score_spec(&self) -> u64 {
        self.score
    }

    pub open spec fn lives_spec(&self) -> u32 {
        self.lives
    }

    /// A fresh line: nobody yet, the first arrival half an interval away,
    /// no score and every life left.
    pub open spec fn fresh(&self) -> bool {
        &&& self.wf()
        &&& self.active_count() == ACTIVE_CUSTOMERS
        &&& self.roster().len() == 0
        &&& self.leaving().len() == 0
        &&& self.angry().len() == 0
        &&& self.clock() == INITIAL_SPAWN_TIME / 2
        &&& self.delay() == INITIAL_SPAWN_TIME
        &&& self.score_spec() == 0
        &&& self.lives_spec() == INITIAL_LIVES
    }

    pub open spec fn wf(&self) -> bool {
        &&& self.active_customers == ACTIVE_CUSTOMERS
        &&& self.customers@.len() <= MAX_CUSTOMERS
        &&& forall|i: int|
            0 <= i < self.leaving_customers@.len()
                ==> #[trigger] self.leaving_customers@[i].carries_wf()
    }

    /// A fresh line: nobody yet, the first arrival half an interval away.
    pub fn new() -> (l: CustomerLine)
        ensures
            l.fresh(),
    {
        CustomerLine {
            active_customers: ACTIVE_CUSTOMERS,
            customers: Vec::new(),
            leaving_customers: Vec::new(),
            angry_customers: Vec::new(),
            time_since_customer: INITIAL_SPAWN_TIME / 2,
            next_customer_delay: INITIAL_SPAWN_TIME,
            score: 0,
            lives: INITIAL_LIVES,
        }
    }

    pub fn get_score(&self) -> (r: u64)
        ensures
            r == self.score_spec(),
    {
        self.score
    }

    pub fn lives(&self) -> (r: u32)
        ensures
            r == self.lives_spec(),
    {
        self.lives
    }

    pub fn customers(&self) -> (r: &Vec<Customer>)
        ensures
            r@ == self.roster(),
    {
        &self.customers
    }

    pub fn leaving_customers(&self) -> (r: &Vec<Customer>)
        ensures
            r@ == self.leaving(),
    {
        &self.leaving_customers
    }

    pub fn angry_customers(&self) -> (r: &Vec<Customer>)
        ensures
            r@ == self.angry(),
    {
        &self.angry_customers
    }

    pub fn active_customers(&self) -> (r: usize)
        ensures
            r == self.active_count(),
    {
        self.active_customers
    }

    /// One more point, and arrivals come sooner.
    fn add_score(&mut self)
        ensures
            final(self).score == sat_add_u64(old(self).score, 1),
            final(self).next_customer_delay == spawn_delay_for(final(self).score as nat),
            *final(self) == (CustomerLine {
                score: final(self).score,
                next_customer_delay: final(self).next_customer_delay,
                ..*old(self)
            }),
    {
        self.score = self.score.saturating_add(1);
        self.next_customer_delay = spawn_delay(self.score);
    }

    /// Draws a request for each of the first `active_customers` customers
    /// that has none.
    fn populate_customers<R: RandomSource>(&mut self, rng: &mut R)
        ensures
            final(self).customers@.len() == old(self).customers@.len(),
            forall|i: int|
                0 <= i < old(self).customers@.len() ==> refreshed(
                    old(self).customers@[i],
                    #[trigger] final(self).customers@[i],
                    i,
                    old(self).active_customers as int,
                ),
            *final(self) == (CustomerLine { customers: final(self).customers, ..*old(self) }),
    {
        let mut i: usize = 0;
        while i < self.active_customers && i < self.customers.len()
            invariant
                self.customers@.len() == old(self).customers@.len(),
                i <= self.customers@.len(),
                forall|k: int|
                    0 <= k < i ==> refreshed(
                        old(self).customers@[k],
                        #[trigger] self.customers@[k],
                        k,
                        old(self).active_customers as int,
                    ),
                forall|k: int|
                    i <= k < self.customers@.len() ==> #[trigger] self.customers@[k]
                        == old(self).customers@[k],
                *self == (CustomerLine { customers: self.customers, ..*old(self) }),
            decreases self.customers@.len() - i,
        {
            if self.customers[i].ings.len() == 0 {
                self.customers[i].populate(rng);
                assert(self.customers@[i as int].ings@.skip(
                    self.customers@[i as int].ings@.len() as int,
                ).len() == 0);
            }
            i = i + 1;
        }
    }

    /// Steps the first `active_customers` customers through one frame in
    /// line; returns the last of them whose patience ran out.
    fn step_roster(&mut self, dt: u32) -> (timed: Option<usize>)
        ensures
            final(self).customers@ == Seq::new(
                old(self).customers@.len(),
                |i: int|
                    if i < old(self).active_customers {
                        old(self).customers@[i].in_line(
                            i,
                            old(self).leaving_customers@.len() as int,
                            dt,
                        )
                    } else {
                        old(self).customers@[i]
                    },
            ),
            timed == last_timeout(
                old(self).customers@,
                if old(self).customers@.len() < old(self).active_customers {
                    old(self).customers@.len() as int
                } else {
                    old(self).active_customers as int
                },
                old(self).leaving_customers@.len() as int,
                dt,
            ),
            *final(self) == (CustomerLine { customers: final(self).customers, ..*old(self) }),
    {
        let leaving = self.leaving_customers.len();
        let ghost l = leaving as int;
        let mut timed: Option<usize> = None;
        let mut i: usize = 0;
        while i < self.active_customers && i < self.customers.len()
            invariant
                self.customers@.len() == old(self).customers@.len(),
                i <= self.customers@.len(),
                i <= self.active_customers,
                leaving == old(self).leaving_customers@.len(),
                l == leaving as int,
                forall|k: int|
                    0 <= k < i ==> #[trigger] self.customers@[k] == old(self).customers@[k].in_line(
                        k,
                        l,
                        dt,
                    ),
                forall|k: int|
                    i <= k < self.customers@.len() ==> #[trigger] self.customers@[k]
                        == old(self).customers@[k],
                timed == last_timeout(old(self).customers@, i as int, l, dt),
                *self == (CustomerLine { customers: self.customers, ..*old(self) }),
            decreases self.customers@.len() - i,
        {
            let ghost before = self.customers@;
            let out = self.customers[i].step_in_line(i, leaving, dt);
            if out {
                timed = Some(i);
            }
            proof {
                assert(self.customers@ == before.update(i as int, self.customers@[i as int]));
                assert forall|k: int| 0 <= k < i + 1 implies #[trigger] self.customers@[k]
                    == old(self).customers@[k].in_line(k, l, dt) by {
                    if k < i {
                        assert(self.customers@[k] == before[k]);
                    }
                }
                assert(out == old(self).customers@[i as int].times_out_in_line(i as int, l, dt));
                assert(last_timeout(old(self).customers@, i + 1, l, dt) == if out {
                    Some(i)
                } else {
                    last_timeout(old(self).customers@, i as int, l, dt)
                });
            }
            i = i + 1;
        }
        assert(self.customers@ =~= Seq::new(
            old(self).customers@.len(),
            |k: int|
                if k < old(self).active_customers {
                    old(self).customers@[k].in_line(k, l, dt)
                } else {
                    old(self).customers@[k]
                },
        ));
        timed
    }

    /// Walks every angry customer one frame toward the exit; each one that
    /// arrives leaves the game and costs a life, down to zero.
    fn step_angry_all(&mut self, dt: u32)
        ensures
            final(self).angry_customers@ == still_walking(
                walk_out_all(old(self).angry_customers@, dt),
            ),
            final(self).lives == sat_sub_u32(
                old(self).lives,
                (old(self).angry_customers@.len() - final(self).angry_customers@.len()) as nat,
            ),
            *final(self) == (CustomerLine {
                angry_customers: final(self).angry_customers,
                lives: final(self).lives,
                ..*old(self)
            }),
    {
        let mut rest: Vec<Customer> = Vec::new();
        std::mem::swap(&mut rest, &mut self.angry_customers);
        let ghost orig = rest@;
        let ghost walked = walk_out_all(orig, dt);
        let n = rest.len();
        let mut i: usize = 0;
        while i < n
            invariant
                n == orig.len(),
                walked == walk_out_all(orig, dt),
                i <= n,
                rest@ == orig.skip(i as int),
                self.angry_customers@ == still_walking(walked.take(i as int)),
                self.lives == sat_sub_u32(
                    old(self).lives,
                    (i - self.angry_customers@.len()) as nat,
                ),
                self.angry_customers@.len() <= i,
                *self == (CustomerLine {
                    angry_customers: self.angry_customers,
                    lives: self.lives,
                    ..*old(self)
                }),
            decreases n - i,
        {
            let mut c = rest.remove(0);
            assert(c == orig[i as int]);
            let gone = c.step_angry(dt);
            proof {
                lemma_still_walking_step(walked, i as int);
            }
            if gone {
                if self.lives > 0 {
                    self.lives = self.lives - 1;
                }
            } else {
                self.angry_customers.push(c);
            }
            assert(rest@ =~= orig.skip(i + 1));
            i = i + 1;
        }
        assert(walked.take(n as int) =~= walked);
    }

    /// Walks every served customer one frame toward the exit; each one that
    /// arrives leaves the game.
    fn step_leaving_all(&mut self, dt: u32)
        requires
            old(self).wf(),
        ensures
            final(self).wf(),
            exists|stepped: Seq<Customer>|
                {
                    &&& stepped.len() == old(self).leaving_customers@.len()
                    &&& forall|k: int|
                        0 <= k < stepped.len() ==> old(
                            self,
                        ).leaving_customers@[k].walked_out_served(#[trigger] stepped[k], dt)
                    &&& final(self).leaving_customers@ == #[trigger] still_walking(stepped)
                },
            *final(self) == (CustomerLine {
                leaving_customers: final(self).leaving_customers,
                ..*old(self)
            }),
    {
        let mut rest: Vec<Customer> = Vec::new();
        std::mem::swap(&mut rest, &mut self.leaving_customers);
        let ghost orig = rest@;
        let ghost mut stepped: Seq<Customer> = Seq::empty();
        let n = rest.len();
        let mut i: usize = 0;
        while i < n
            invariant
                n == orig.len(),
                i <= n,
                rest@ == orig.skip(i as int),
                orig == old(self).leaving_customers@,
                forall|k: int| 0 <= k < orig.len() ==> #[trigger] orig[k].carries_wf(),
                stepped.len() == i,
                forall|k: int|
                    0 <= k < i ==> orig[k].walked_out_served(#[trigger] stepped[k], dt),
                self.leaving_customers@ == still_walking(stepped),
                forall|k: int|
                    0 <= k < self.leaving_customers@.len()
                        ==> #[trigger] self.leaving_customers@[k].carries_wf(),
                *self == (CustomerLine { leaving_customers: self.leaving_customers, ..*old(self) }),
            decreases n - i,
        {
            let mut c = rest.remove(0);
            assert(c == orig[i as int]);
            let gone = c.step_leaving(dt);
            proof {
                lemma_still_walking_push(stepped, c);
                stepped = stepped.push(c);
            }
            if !gone {
                self.leaving_customers.push(c);
            }
            assert(rest@ =~= orig.skip(i + 1));
            i = i + 1;
        }
    }

    /// The roster and angry list from this line to line `next` over one
    /// frame of `dt` milliseconds, `s` being the roster after the arrival
    /// step. Among the first `active_customers` customers after stepping,
    /// the last whose patience ran out (`last_timeout`) leaves the roster
    /// and joins the angry list, the others keeping their order; then the
    /// angry customers walk out, each one that arrives costing a life.
    pub open spec fn roster_frame(self, s: Seq<Customer>, next: CustomerLine, dt: u32) -> bool {
        let active = self.active_customers as int;
        let fires = spawn_fires(
            self.time_since_customer,
            self.next_customer_delay,
            self.customers@.len(),
            dt,
        );
        let l = self.leaving_customers@.len() as int;
        let st = stepped_roster(s, active, l, dt);
        let t = last_timeout(s, min_int(s.len() as int, active), l, dt);
        let joined = match t {
            Some(i) => self.angry_customers@.push(st[i as int]),
            None => self.angry_customers@,
        };
        &&& arrived(self.customers@, s, fires, self.score, active)
        &&& match t {
            Some(i) => {
                &&& next.customers@.len() + 1 == st.len()
                &&& forall|k: int|
                    0 <= k < next.customers@.len() ==> refreshed(
                        st.remove(i as int)[k],
                        #[trigger] next.customers@[k],
                        k,
                        active,
                    )
            },
            None => next.customers@ == st,
        }
        &&& next.angry_customers@ == still_walking(walk_out_all(joined, dt))
        &&& next.lives == sat_sub_u32(
            self.lives,
            (joined.len() - next.angry_customers@.len()) as nat,
        )
    }

    /// This line becomes line `next` over one frame of `dt` milliseconds,
    /// as `update` does it.
    pub open spec fn framed(self, next: CustomerLine, dt: u32) -> bool {
        &&& next.wf()
        &&& next.score_spec() == self.score_spec()
        &&& next.delay() == self.delay()
        &&& next.active_count() == self.active_count()
        &&& next.clock() == if spawn_fires(
            self.clock(),
            self.delay(),
            self.roster().len(),
            dt,
        ) {
            0
        } else {
            sat_add_u64(self.clock(), dt as u64)
        }
        &&& exists|stepped: Seq<Customer>|
            {
                &&& stepped.len() == self.leaving().len()
                &&& forall|k: int|
                    0 <= k < stepped.len() ==> self.leaving()[k].walked_out_served(
                        #[trigger] stepped[k],
                        dt,
                    )
                &&& next.leaving() == #[trigger] still_walking(stepped)
            }
        &&& next.lives_spec() <= self.lives_spec()
        &&& (exists|arrived_roster: Seq<Customer>|
            #[trigger] self.roster_frame(arrived_roster, next, dt))
    }

    /// One frame of `dt` milliseconds: a customer may arrive, the head of
    /// the line steps forward and waits, the last customer there whose
    /// patience ran out turns angry, and those leaving walk out; each angry
    /// customer that reaches the exit costs a life, down to zero.
    pub fn update<R: RandomSource>(&mut self, dt: u32, rng: &mut R)
        requires
            old(self).wf(),
        ensures
            old(self).framed(*final(self), dt),
    {
        self.time_since_customer = self.time_since_customer.saturating_add(dt as u64);
        if self.time_since_customer > self.next_customer_delay && self.customers.len()
            < MAX_CUSTOMERS {
            self.time_since_customer = 0;
            self.add_customer(rng);
        }
        let ghost spawned = *self;
        let timed = self.step_roster(dt);
        let ghost st = self.customers@;
        proof {
            lemma_last_timeout(
                spawned.customers@,
                if spawned.customers@.len() < spawned.active_customers {
                    spawned.customers@.len() as int
                } else {
                    spawned.active_customers as int
                },
                spawned.leaving_customers@.len() as int,
                dt,
            );
        }
        match timed {
            Some(i) => {
                let c = self.customers.remove(i);
                self.angry_customers.push(c);
                self.populate_customers(rng);
            },
            None => {},
        }
        let ghost joined = self.angry_customers@;
        let ghost after = self.customers@;
        self.step_leaving_all(dt);
        self.step_angry_all(dt);
        proof {
            let a = old(self).active_customers as int;
            let l = old(self).leaving_customers@.len() as int;
            let sr = spawned.customers@;
            assert(st =~= stepped_roster(sr, a, l, dt));
            assert(min_int(sr.len() as int, a) == if sr.len() < spawned.active_customers {
                sr.len() as int
            } else {
                a
            });
            assert(arrived(old(self).customers@, sr, spawned.time_since_customer == 0
                && spawned.customers@.len() == old(self).customers@.len() + 1, old(self).score, a));
            lemma_still_walking_len(walk_out_all(joined, dt));
            assert(old(self).roster_frame(sr, *self, dt));
        }
    }

    /// One match: customer `i` of this line, waiting at the head of it, is
    /// met by slot `j` of machine `m`. The customer leaves, finished and
    /// carrying that slot's sandwich; the others keep their order, those at
    /// the head without a request get one; the slot goes back to an empty
    /// plate; the score gains a point and arrivals come sooner. The result
    /// is line `l` and machine `m2`.
    pub open spec fn serves(
        self,
        m: SandwitchMachine,
        l: CustomerLine,
        m2: SandwitchMachine,
        j: int,
        i: int,
    ) -> bool {
        let c = self.customers@[i];
        let slot = m.slots()[j];
        let rest = self.customers@.remove(i);
        &&& can_serve(self.customers@, self.active_customers as int, m.slots(), j, i)
        &&& l.leaving_customers@.len() == self.leaving_customers@.len() + 1
        &&& l.leaving_customers@.drop_last() == self.leaving_customers@
        &&& carried_away(c, l.leaving_customers@.last(), slot)
        &&& l.customers@.len() == rest.len()
        &&& forall|k: int|
            0 <= k < rest.len() ==> refreshed(
                rest[k],
                #[trigger] l.customers@[k],
                k,
                self.active_customers as int,
            )
        &&& l.score == sat_add_u64(self.score, 1)
        &&& l.next_customer_delay == spawn_delay_for(l.score as nat)
        &&& l == CustomerLine {
            customers: l.customers,
            leaving_customers: l.leaving_customers,
            score: l.score,
            next_customer_delay: l.next_customer_delay,
            ..self
        }
        &&& m2.slots() == m.slots().update(j, slot.reset())
        &&& m2 == SandwitchMachine { sandwitches: m2.sandwitches, ..m }
    }

    /// `states` runs from this line and machine `m` through one match per
    /// entry of `matches` (a slot index and a roster index).
    pub open spec fn match_trace(
        self,
        m: SandwitchMachine,
        states: Seq<(CustomerLine, SandwitchMachine)>,
        matches: Seq<(int, int)>,
    ) -> bool {
        &&& states.len() == matches.len() + 1
        &&& states[0] == (self, m)
        &&& forall|t: int|
            0 <= t < matches.len() ==> (#[trigger] states[t]).0.serves(
                states[t].1,
                states[t + 1].0,
                states[t + 1].1,
                matches[t].0,
                matches[t].1,
            )
    }

    /// What `check_machine` does from this line and machine `m` to line `l`
    /// and machine `m2`: a run of single matches, each as `serves` says,
    /// and nothing at all when no waiting customer at the head of the line
    /// is met by any slot.
    pub open spec fn checked(
        self,
        m: SandwitchMachine,
        l: CustomerLine,
        m2: SandwitchMachine,
    ) -> bool {
        &&& exists|states: Seq<(CustomerLine, SandwitchMachine)>, matches: Seq<(int, int)>|
            #[trigger] self.match_trace(m, states, matches) && states.last() == (l, m2)
                && l.leaving_customers@.len() == self.leaving_customers@.len() + matches.len()
        &&& l.wf()
        &&& m2.wf()
        &&& l.leaving_customers@.len() > self.leaving_customers@.len() <==> exists|j: int, i: int|
            can_serve(self.customers@, self.active_customers as int, m.slots(), j, i)
        &&& l.leaving_customers@.len() == self.leaving_customers@.len() ==> l == self && m2 == m
        &&& l.score == min_u64(self.score + (l.leaving_customers@.len() - self.leaving_customers@.len()))
        &&& l.lives == self.lives
        &&& l.angry_customers == self.angry_customers
    }

    /// Offers every slot of the machine, in order, to each waiting customer
    /// at the head of the line. A customer whose request a slot meets leaves
    /// with that slot's sandwich, the slot goes back to an empty plate, and
    /// the score gains a point.
    pub fn check_machine<R: RandomSource>(&mut self, machine: &mut SandwitchMachine, rng: &mut R)
        requires
            old(self).wf(),
            old(machine).wf(),
        ensures
            old(self).checked(*old(machine), *final(self), *final(machine)),
    {
        let ghost l0 = *self;
        let ghost m0 = *machine;
        let ghost mut states: Seq<(CustomerLine, SandwitchMachine)> = seq![(l0, m0)];
        let ghost mut matches: Seq<(int, int)> = Seq::empty();
        let ns = machine.sandwitches.len();
        let mut j: usize = 0;
        while j < ns
            invariant
                ns == m0.sandwitches@.len(),
                ns == machine.sandwitches@.len(),
                machine.wf(),
                self.wf(),
                j <= ns,
                l0 == *old(self),
                m0 == *old(machine),
                l0.match_trace(m0, states, matches),
                states.last() == (*self, *machine),
                self.leaving_customers@.len() == l0.leaving_customers@.len() + matches.len(),
                self.score == min_u64(l0.score + matches.len()),
                self.lives == l0.lives,
                self.angry_customers == l0.angry_customers,
                matches.len() == 0 ==> forall|jj: int, ii: int|
                    0 <= jj < j ==> !#[trigger] can_serve(
                        l0.customers@,
                        l0.active_customers as int,
                        m0.slots(),
                        jj,
                        ii,
                    ),
            decreases ns - j,
        {
            let mut i: usize = 0;
            while i < self.active_customers && i < self.customers.len()
                invariant
                    ns == m0.sandwitches@.len(),
                    ns == machine.sandwitches@.len(),
                    machine.wf(),
                    self.wf(),
                    j < ns,
                    i <= ACTIVE_CUSTOMERS,
                    l0 == *old(self),
                    m0 == *old(machine),
                    l0.match_trace(m0, states, matches),
                    states.last() == (*self, *machine),
                    self.leaving_customers@.len() == l0.leaving_customers@.len() + matches.len(),
                    self.score == min_u64(l0.score + matches.len()),
                    self.lives == l0.lives,
                    self.angry_customers == l0.angry_customers,
                    matches.len() == 0 ==> forall|jj: int, ii: int|
                        0 <= jj < j ==> !#[trigger] can_serve(
                            l0.customers@,
                            l0.active_customers as int,
                            m0.slots(),
                            jj,
                            ii,
                        ),
                    matches.len() == 0 ==> forall|ii: int|
                        0 <= ii < i ==> !#[trigger] can_serve(
                            l0.customers@,
                            l0.active_customers as int,
                            m0.slots(),
                            j as int,
                            ii,
                        ),
                decreases ACTIVE_CUSTOMERS - i,
            {
                let ghost ls = *self;
                let ghost ms = *machine;
                proof {
                    assert(ms.slots()[j as int] == ms.sandwitches@[j as int]@);
                    if matches.len() == 0 {
                        assert(states.len() == 1);
                        assert(ls == l0 && ms == m0);
                    }
                }
                if self.customers[i].waiting {
                    if self.customers[i].meets(&machine.sandwitches[j]) {
                        let mut c = self.customers.remove(i);
                        let met = c.request_met(&machine.sandwitches[j]);
                        assert(met);
                        let carried = machine.sandwitches[j].hand_over();
                        c.sandwitch = Some(carried);
                        self.leaving_customers.push(c);
                        self.populate_customers(rng);
                        self.add_score();
                        proof {
                            let slot = ms.slots()[j as int];
                            assert(self.leaving_customers@.drop_last() =~= ls.leaving_customers@);
                            assert(machine.slots() =~= ms.slots().update(j as int, slot.reset()));
                            assert forall|jj: int| 0 <= jj < machine.sandwitches@.len() implies
                                #[trigger] machine.sandwitches@[jj].wf() by {
                                if jj != j {
                                    assert(machine.sandwitches@[jj] == ms.sandwitches@[jj]);
                                }
                            }
                            assert forall|n: int| 0 <= n < self.leaving_customers@.len() implies
                                #[trigger] self.leaving_customers@[n].carries_wf() by {
                                if n < ls.leaving_customers@.len() {
                                    assert(self.leaving_customers@[n] == ls.leaving_customers@[n]);
                                }
                            }
                            assert(ls.serves(ms, *self, *machine, j as int, i as int));
                            let old_states = states;
                            let old_matches = matches;
                            states = states.push((*self, *machine));
                            matches = matches.push((j as int, i as int));
                            assert forall|t: int| 0 <= t < matches.len() implies (#[trigger] states[t]).0.serves(
                                states[t].1,
                                states[t + 1].0,
                                states[t + 1].1,
                                matches[t].0,
                                matches[t].1,
                            ) by {
                                if t < old_matches.len() {
                                    assert(states[t] == old_states[t]);
                                    assert(states[t + 1] == old_states[t + 1]);
                                }
                            }
                        }
                    }
                }
                i = i + 1;
            }
            j = j + 1;
        }
        proof {
            if matches.len() == 0 {
                assert forall|jj: int, ii: int|
                    !can_serve(
                        l0.customers@,
                        l0.active_customers as int,
                        m0.slots(),
                        jj,
                        ii,
                    ) by {
                    if 0 <= jj < ns {
                        assert(!can_serve(
                            l0.customers@,
                            l0.active_customers as int,
                            m0.slots(),
                            jj,
                            ii,
                        ));
                    }
                }
                assert(states.last() == states[0]);
            } else {
                assert(states[0].0.serves(states[0].1, states[1].0, states[1].1, matches[0].0, matches[0].1));
                assert(can_serve(l0.customers@, l0.active_customers as int, m0.slots(), matches[0].0, matches[0].1));
            }
            assert(l0.match_trace(m0, states, matches));
        }
    }

    /// A new customer joins the end of the line.
    fn add_customer<R: RandomSource>(&mut self, rng: &mut R)
        requires
            old(self).customers@.len() < MAX_CUSTOMERS,
        ensures
            final(self).customers@.len() == old(self).customers@.len() + 1,
            forall|i: int|
                0 <= i < old(self).customers@.len() ==> refreshed(
                    old(self).customers@[i],
                    #[trigger] final(self).customers@[i],
                    i,
                    old(self).active_customers as int,
                ),
            ({
                let c = final(self).customers@.last();
                &&& !c.waiting
                &&& c.wait_time == 0
                &&& c.wait_max == wait_limit_for(old(self).score as nat)
                &&& c.sandwitch is None
                &&& !c.finished
            }),
            *final(self) == (CustomerLine { customers: final(self).customers, ..*old(self) }),
    {
        let mut c = Customer::new(self.score);
        c.target.breath_speed = 1000 + rng.below(100) as u32;
        c.target.breath_size.y = 10;
        self.customers.push(c);
        self.populate_customers(rng);
    }
}

} // verus!
