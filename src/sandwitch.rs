//! Ingredients, sandwiches, and the sandwich machine that feeds them.
use vstd::prelude::*;
use vstd::arithmetic::div_mod::{
    lemma_fundamental_div_mod, lemma_mod_bound, lemma_mod_multiples_vanish, lemma_small_mod,
};

use crate::moving_target::{Point, Target};
use crate::random::RandomSource;

verus! {

/// One kind of ingredient.
#[derive(Clone, Copy, Debug, PartialEq, Eq, Hash, Structural)]
pub enum Ingredients {
    Bread,
    Lettuce,
    Meat,
    Tomato,
}

pub const INGREDIENT_COUNT: usize = 4;

/// Vertical distance between two stacked ingredients, in tenths of a pixel:
/// an ingredient's height of 240 less the half of it by which neighbours
/// overlap.
pub const STACK_STEP: i32 = 120;

/// Horizontal jitter of an ingredient entering the queue, in tenths of a
/// pixel: a draw from `0..JITTER_SPAN` less `JITTER_SPAN / 2`.
pub const JITTER_SPAN: u64 = 30;

/// The ingredient with catalog index `i`.
pub open spec fn ingredient_at(i: int) -> Ingredients {
    if i == 0 {
        Ingredients::Bread
    } else if i == 1 {
        Ingredients::Lettuce
    } else if i == 2 {
        Ingredients::Meat
    } else {
        Ingredients::Tomato
    }
}

pub fn get_ingredient(index: usize) -> (r: Ingredients)
    requires
        index < INGREDIENT_COUNT,
    ensures
        r == ingredient_at(index as int),
{
    match index {
        0 => Ingredients::Bread,
        1 => Ingredients::Lettuce,
        2 => Ingredients::Meat,
        _ => Ingredients::Tomato,
    }
}

/// A uniformly drawn ingredient.
pub fn get_rand_ingredient<R: RandomSource>(rng: &mut R) -> (r: Ingredients) {
    let i = rng.below(INGREDIENT_COUNT as u64);
    get_ingredient(i as usize)
}

/// The single-retry rule against interior bread: the first draw, unless it
/// is bread, in which case the second draw whatever it is.
pub open spec fn interior_choice(first: Ingredients, second: Ingredients) -> Ingredients {
    if first == Ingredients::Bread {
        second
    } else {
        first
    }
}

pub fn pick_interior(first: Ingredients, second: Ingredients) -> (r: Ingredients)
    ensures
        r == interior_choice(first, second),
{
    if first == Ingredients::Bread {
        second
    } else {
        first
    }
}

/// An interior ingredient drawn under the single-retry rule.
pub fn get_interior_ingredient<R: RandomSource>(rng: &mut R) -> (r: Ingredients) {
    let first = get_rand_ingredient(rng);
    let second = if first == Ingredients::Bread {
        get_rand_ingredient(rng)
    } else {
        first
    };
    pick_interior(first, second)
}

/// `v` held within the range of `i32`.
pub open spec fn clamp_i32(v: int) -> i32 {
    if v < i32::MIN {
        i32::MIN
    } else if v > i32::MAX {
        i32::MAX
    } else {
        v as i32
    }
}

pub fn clamp_to_i32(v: i128) -> (r: i32)
    ensures
        r == clamp_i32(v as int),
{
    if v < i32::MIN as i128 {
        i32::MIN
    } else if v > i32::MAX as i128 {
        i32::MAX
    } else {
        v as i32
    }
}

/// Where the ingredient at stack index `i` of a sandwich anchored at `p`
/// rests, stacking in direction `dir`.
pub open spec fn stack_point(p: Point, dir: i32, i: int) -> Point {
    Point { x: p.x, y: clamp_i32(p.y + dir * i * STACK_STEP) }
}

/// `dir * i * STACK_STEP`, for a stacking direction of one or minus one.
pub fn stack_offset(dir: i32, i: i128) -> (r: i128)
    requires
        dir == 1 || dir == -1,
        -0x1_0000_0000_0000_0000 <= i <= 0x1_0000_0000_0000_0000,
    ensures
        r == dir * i * STACK_STEP,
{
    assert(-0x100_0000_0000_0000_0000 <= i * 120 <= 0x100_0000_0000_0000_0000) by (nonlinear_arith)
        requires
            -0x1_0000_0000_0000_0000 <= i <= 0x1_0000_0000_0000_0000,
    ;
    let off: i128 = i * 120;
    assert(dir * i * STACK_STEP == if dir == 1 { off as int } else { -off }) by (nonlinear_arith)
        requires
            dir == 1 || dir == -1,
            off == i * 120,
            STACK_STEP == 120,
    ;
    if dir == 1 {
        off
    } else {
        -off
    }
}

/// The pairs whose animator has not settled, order kept.
pub open spec fn keep_unsettled(s: Seq<(Ingredients, Target)>) -> Seq<(Ingredients, Target)> {
    s.filter(|pr: (Ingredients, Target)| !pr.1.settled())
}

proof fn lemma_keep_unsettled_step(s: Seq<(Ingredients, Target)>, i: int)
    requires
        0 <= i < s.len(),
    ensures
        keep_unsettled(s.take(i + 1)) == (if !s[i].1.settled() {
            keep_unsettled(s.take(i)).push(s[i])
        } else {
            keep_unsettled(s.take(i))
        }),
{
    reveal(Seq::filter);
    assert(s.take(i + 1).drop_last() =~= s.take(i));
    assert(s.take(i + 1).last() == s[i]);
}

/// What a sandwich holds: its ingredients, bottom first, the animator of
/// each, its own anchor animator, and its stacking direction.
pub struct SandwichView {
    pub ingredients: Seq<Ingredients>,
    pub targets: Seq<Target>,
    pub anchor: Target,
    pub dir: i32,
}

impl SandwichView {
    pub open spec fn len(self) -> nat {
        self.ingredients.len()
    }

    pub open spec fn wf(self) -> bool {
        &&& self.ingredients.len() == self.targets.len()
        &&& (self.dir == 1 || self.dir == -1)
    }

    pub open spec fn pairs(self) -> Seq<(Ingredients, Target)> {
        Seq::new(self.ingredients.len(), |i: int| (self.ingredients[i], self.targets[i]))
    }

    /// Every animator stepped by `dt` milliseconds.
    pub open spec fn advanced(self, dt: u32) -> SandwichView {
        SandwichView {
            targets: self.targets.map_values(|t: Target| t.advanced(dt)),
            anchor: self.anchor.advanced(dt),
            ..self
        }
    }

    /// Anchored at `p`, each ingredient aimed at its place in the stack.
    pub open spec fn retargeted(self, p: Point) -> SandwichView {
        SandwichView {
            targets: Seq::new(
                self.targets.len(),
                |i: int| self.targets[i].retargeted(stack_point(p, self.dir, i)),
            ),
            anchor: self.anchor.retargeted(p),
            ..self
        }
    }

    /// The pairs whose animator has settled removed, order kept.
    pub open spec fn cleared(self) -> SandwichView {
        let kept = keep_unsettled(self.pairs());
        SandwichView {
            ingredients: kept.map_values(|pr: (Ingredients, Target)| pr.0),
            targets: kept.map_values(|pr: (Ingredients, Target)| pr.1),
            ..self
        }
    }

    /// Every animator moving at `speed`.
    pub open spec fn with_speed(self, speed: u32) -> SandwichView {
        SandwichView {
            targets: self.targets.map_values(|t: Target| Target { speed, ..t }),
            anchor: Target { speed, ..self.anchor },
            ..self
        }
    }

    /// The empty plate: one bread resting on the anchor.
    pub open spec fn reset(self) -> SandwichView {
        SandwichView {
            ingredients: seq![Ingredients::Bread],
            targets: seq![self.anchor],
            ..self
        }
    }
}

/// An ordered stack of ingredients, each with its own animator, front
/// first.
pub struct Sandwitch {
    pub ingredients: Vec<Ingredients>,
    pub ing_targets: Vec<Target>,
    pub target: Target,
    pub sw_dir: i32,
}

impl View for Sandwitch {
    type V = SandwichView;

    open spec fn view(&self) -> SandwichView {
        SandwichView {
            ingredients: self.ingredients@,
            targets: self.ing_targets@,
            anchor: self.target,
            dir: self.sw_dir,
        }
    }
}

impl Sandwitch {
    pub open spec fn wf(&self) -> bool {
        self@.wf()
    }

    pub fn new() -> (s: Sandwitch)
        ensures
            s.wf(),
            s@.len() == 0,
            s@.anchor == Target::new_spec(),
            s@.dir == -1,
    {
        Sandwitch {
            ingredients: Vec::new(),
            ing_targets: Vec::new(),
            target: Target::new(),
            sw_dir: -1,
        }
    }

    /// Appends at the serving end; the animator takes the sandwich's speed.
    pub fn add_back(&mut self, ingredient: Ingredients, t: Target)
        requires
            old(self).wf(),
        ensures
            final(self).wf(),
            final(self)@ == (SandwichView {
                ingredients: old(self)@.ingredients.push(ingredient),
                targets: old(self)@.targets.push(Target { speed: old(self).target.speed, ..t }),
                ..old(self)@
            }),
    {
        self.ingredients.push(ingredient);
        let mut t = t;
        t.speed = self.target.speed;
        self.ing_targets.push(t);
    }

    /// Prepends at the queue end. The new animator rests near the anchor,
    /// ten places short of its place in the stack so that it slides in once
    /// retargeted, with a small random horizontal jitter.
    pub fn add<R: RandomSource>(&mut self, ingredient: Ingredients, rng: &mut R)
        requires
            old(self).wf(),
        ensures
            final(self).wf(),
            final(self)@.ingredients == seq![ingredient] + old(self)@.ingredients,
            final(self)@.targets.skip(1) == old(self)@.targets,
            final(self)@.anchor == old(self)@.anchor,
            final(self)@.dir == old(self)@.dir,
            final(self)@.targets[0].settled(),
            final(self)@.targets[0].speed == old(self).target.speed,
            !final(self)@.targets[0].breath,
            final(self)@.targets[0].current().y == stack_point(
                old(self).target.current(),
                old(self).sw_dir,
                old(self)@.len() - 10,
            ).y,
            old(self).target.current().x - 15 <= final(self)@.targets[0].current().x
                <= old(self).target.current().x + 15,
    {
        let base = self.target.get_pos_no_offset();
        let jitter: i64 = rng.below(JITTER_SPAN) as i64 - (JITTER_SPAN / 2) as i64;
        let x = clamp_to_i32(base.x as i128 + jitter as i128);
        let depth: i128 = self.ing_targets.len() as i128 - 10;
        let y = clamp_to_i32(base.y as i128 + stack_offset(self.sw_dir, depth));
        let t = Target::new_with_speed(self.target.speed, Point::new(x, y));
        self.ingredients.insert(0, ingredient);
        self.ing_targets.insert(0, t);
        proof {
            assert(self@.ingredients =~= seq![ingredient] + old(self)@.ingredients);
            assert(self@.targets.skip(1) =~= old(self)@.targets);
        }
    }

    /// Removes the serving-end pair, if any.
    pub fn take(&mut self) -> (r: Option<(Ingredients, Target)>)
        requires
            old(self).wf(),
        ensures
            final(self).wf(),
            old(self)@.len() == 0 ==> r is None && final(self)@ == old(self)@,
            old(self)@.len() > 0 ==> r == Some(
                (old(self)@.ingredients.last(), old(self)@.targets.last()),
            ) && final(self)@ == (SandwichView {
                ingredients: old(self)@.ingredients.drop_last(),
                targets: old(self)@.targets.drop_last(),
                ..old(self)@
            }),
    {
        if self.ingredients.len() == 0 {
            return None;
        }
        let ing = self.ingredients.pop().unwrap();
        let tar = self.ing_targets.pop().unwrap();
        proof {
            assert(self@.ingredients =~= old(self)@.ingredients.drop_last());
            assert(self@.targets =~= old(self)@.targets.drop_last());
        }
        Some((ing, tar))
    }

    /// Back to the empty plate: a single bread on the anchor.
    pub fn reset(&mut self)
        requires
            old(self).wf(),
        ensures
            final(self).wf(),
            final(self)@ == old(self)@.reset(),
    {
        self.ingredients.clear();
        self.ing_targets.clear();
        let anchor = self.target;
        self.add_back(Ingredients::Bread, anchor);
        proof {
            assert(self@.ingredients =~= seq![Ingredients::Bread]);
            assert(self@.targets =~= seq![old(self).target]);
        }
    }

    /// Hands the whole sandwich over by value and leaves the empty plate
    /// behind.
    pub fn hand_over(&mut self) -> (carried: Sandwitch)
        requires
            old(self).wf(),
        ensures
            carried.wf(),
            carried@ == old(self)@,
            final(self).wf(),
            final(self)@ == old(self)@.reset(),
    {
        let mut ingredients: Vec<Ingredients> = Vec::new();
        let mut ing_targets: Vec<Target> = Vec::new();
        std::mem::swap(&mut ingredients, &mut self.ingredients);
        std::mem::swap(&mut ing_targets, &mut self.ing_targets);
        let carried = Sandwitch {
            ingredients,
            ing_targets,
            target: self.target,
            sw_dir: self.sw_dir,
        };
        self.reset();
        carried
    }

    /// Removes every pair whose animator has settled, keeping the order of
    /// the rest.
    pub fn clear(&mut self)
        requires
            old(self).wf(),
        ensures
            final(self).wf(),
            final(self)@ == old(self)@.cleared(),
    {
        let n = self.ingredients.len();
        let mut ings: Vec<Ingredients> = Vec::new();
        let mut tgts: Vec<Target> = Vec::new();
        let mut i: usize = 0;
        while i < n
            invariant
                *self == *old(self),
                self.wf(),
                n == self@.len(),
                i <= n,
                ings@.len() == tgts@.len(),
                Seq::new(ings@.len(), |k: int| (ings@[k], tgts@[k])) == keep_unsettled(
                    self@.pairs().take(i as int),
                ),
            decreases n - i,
        {
            let t = self.ing_targets[i];
            proof {
                lemma_keep_unsettled_step(self@.pairs(), i as int);
            }
            let ghost before = Seq::new(ings@.len(), |k: int| (ings@[k], tgts@[k]));
            if !t.is_active() {
                ings.push(self.ingredients[i]);
                tgts.push(t);
                assert(Seq::new(ings@.len(), |k: int| (ings@[k], tgts@[k])) =~= before.push(
                    self@.pairs()[i as int],
                ));
            }
            i = i + 1;
        }
        proof {
            assert(self@.pairs().take(n as int) =~= self@.pairs());
            let kept = keep_unsettled(self@.pairs());
            assert(ings@ =~= kept.map_values(|pr: (Ingredients, Target)| pr.0));
            assert(tgts@ =~= kept.map_values(|pr: (Ingredients, Target)| pr.1));
        }
        self.ingredients = ings;
        self.ing_targets = tgts;
    }

    /// Moves the anchor to `target` and aims each ingredient at its place in
    /// the stack.
    pub fn set_target(&mut self, target: Point)
        requires
            old(self).wf(),
        ensures
            final(self).wf(),
            final(self)@ == old(self)@.retargeted(target),
    {
        self.target.set_target(target);
        let n = self.ing_targets.len();
        let mut i: usize = 0;
        while i < n
            invariant
                self.wf(),
                self.ingredients == old(self).ingredients,
                self.sw_dir == old(self).sw_dir,
                self.target == old(self).target.retargeted(target),
                n == self.ing_targets@.len(),
                n == old(self).ing_targets@.len(),
                i <= n,
                forall|k: int|
                    0 <= k < i ==> self.ing_targets@[k] == old(self).ing_targets@[k].retargeted(
                        stack_point(target, self.sw_dir, k),
                    ),
                forall|k: int| i <= k < n ==> self.ing_targets@[k] == old(self).ing_targets@[k],
            decreases n - i,
        {
            let y = clamp_to_i32(target.y as i128 + stack_offset(self.sw_dir, i as i128));
            let mut t = self.ing_targets[i];
            t.set_target(Point::new(target.x, y));
            self.ing_targets.set(i, t);
            i = i + 1;
        }
        assert(self@.targets =~= old(self)@.retargeted(target).targets);
    }

    /// Sets the speed of the anchor and of every ingredient.
    pub fn set_speed(&mut self, speed: u32)
        requires
            old(self).wf(),
        ensures
            final(self).wf(),
            final(self)@ == old(self)@.with_speed(speed),
    {
        self.target.speed = speed;
        let n = self.ing_targets.len();
        let mut i: usize = 0;
        while i < n
            invariant
                self.wf(),
                self.ingredients == old(self).ingredients,
                self.sw_dir == old(self).sw_dir,
                self.target == (Target { speed, ..old(self).target }),
                n == self.ing_targets@.len(),
                n == old(self).ing_targets@.len(),
                i <= n,
                forall|k: int|
                    0 <= k < i ==> self.ing_targets@[k] == (Target {
                        speed,
                        ..old(self).ing_targets@[k]
                    }),
                forall|k: int| i <= k < n ==> self.ing_targets@[k] == old(self).ing_targets@[k],
            decreases n - i,
        {
            let mut t = self.ing_targets[i];
            t.speed = speed;
            self.ing_targets.set(i, t);
            i = i + 1;
        }
        assert(self@.targets =~= old(self)@.with_speed(speed).targets);
    }

    /// Steps the anchor and every ingredient by `dt` milliseconds.
    pub fn update(&mut self, dt: u32)
        requires
            old(self).wf(),
        ensures
            final(self).wf(),
            final(self)@ == old(self)@.advanced(dt),
    {
        self.target.update(dt);
        let n = self.ing_targets.len();
        let mut i: usize = 0;
        while i < n
            invariant
                self.wf(),
                self.ingredients == old(self).ingredients,
                self.sw_dir == old(self).sw_dir,
                self.target == old(self).target.advanced(dt),
                n == self.ing_targets@.len(),
                n == old(self).ing_targets@.len(),
                i <= n,
                forall|k: int|
                    0 <= k < i ==> self.ing_targets@[k] == old(self).ing_targets@[k].advanced(dt),
                forall|k: int| i <= k < n ==> self.ing_targets@[k] == old(self).ing_targets@[k],
            decreases n - i,
        {
            let mut t = self.ing_targets[i];
            t.update(dt);
            self.ing_targets.set(i, t);
            i = i + 1;
        }
        assert(self@.targets =~= old(self)@.advanced(dt).targets);
    }
}

/// Target depth of the ingredient queue, and number of sandwich slots.
pub const QUEUE_SIZE: usize = 6;

/// Speed of the ingredient queue, in tenths of a pixel per second.
pub const QUEUE_SPEED: u32 = 4000;

/// Horizontal distance between two slots, in tenths of a pixel.
pub const QUEUE_MOVE: i32 = 736;

pub const QUEUE_BASE_X: i32 = 300;
pub const QUEUE_BASE_Y: i32 = 200;
pub const SANDWITCH_BASE_X: i32 = 300;
pub const SANDWITCH_BASE_Y: i32 = 2120;
pub const DELICAT_LOCATION_X: i32 = 0;
pub const DELICAT_LOCATION_Y: i32 = 2100;

/// Where the queue rests while slot `active` is selected.
pub open spec fn queue_anchor(active: int) -> Point {
    Point { x: (QUEUE_BASE_X + QUEUE_MOVE * active) as i32, y: QUEUE_BASE_Y }
}

/// Where slot `j` rests.
pub open spec fn slot_anchor(j: int) -> Point {
    Point { x: (SANDWITCH_BASE_X + QUEUE_MOVE * j) as i32, y: SANDWITCH_BASE_Y }
}

/// The empty plate of a fresh slot: one bread on a resting anchor.
pub open spec fn empty_plate() -> SandwichView {
    SandwichView {
        ingredients: seq![Ingredients::Bread],
        targets: seq![Target::new_spec()],
        anchor: Target::new_spec(),
        dir: -1i32,
    }
}

/// Slot `j` after one frame of `dt` milliseconds.
pub open spec fn slot_after_update(s: SandwichView, j: int, dt: u32) -> SandwichView {
    let laid = s.advanced(dt).retargeted(slot_anchor(j));
    if j == 0 {
        laid.cleared()
    } else {
        laid
    }
}

/// The queue after one frame of `dt` milliseconds with slot `active` selected.
pub open spec fn queue_after_update(q: SandwichView, active: int, dt: u32) -> SandwichView {
    let moved = q.retargeted(queue_anchor(active)).advanced(dt);
    SandwichView { anchor: moved.anchor.breathed(dt), ..moved }
}

/// Slot index `active` moved cyclically by `diff` among `n` slots.
pub open spec fn switched(active: int, diff: int, n: int) -> int {
    (active + diff) % n
}

/// Switching by `delta` and then by `-delta` selects the starting slot
/// again, for any slot count of at least one.
pub proof fn lemma_switch_inverse(active: int, delta: int, n: int)
    requires
        n >= 1,
        0 <= active < n,
    ensures
        switched(switched(active, delta, n), -delta, n) == active,
{
    let x = active + delta;
    lemma_fundamental_div_mod(x, n);
    let q = x / n;
    assert(n * (-q) == -(n * q)) by (nonlinear_arith);
    assert(x % n + -delta == n * (-q) + active);
    lemma_mod_multiples_vanish(-q, active, n);
    lemma_small_mod(active as nat, n as nat);
}

/// The queue of upcoming ingredients, the sandwich slots that the player
/// fills from it, and which slot is selected.
pub struct SandwitchMachine {
    pub sandwitches: Vec<Sandwitch>,
    pub queue_size: usize,
    pub queue: Sandwitch,
    pub active: usize,
    pub delicat_target: Target,
}

impl SandwitchMachine {
    pub open spec fn slots(&self) -> Seq<SandwichView> {
        self.sandwitches@.map_values(|s: Sandwitch| s@)
    }

    pub open spec fn wf(&self) -> bool {
        &&& self.sandwitches@.len() == QUEUE_SIZE
        &&& forall|j: int| 0 <= j < self.sandwitches@.len() ==> #[trigger] self.sandwitches@[j].wf()
        &&& self.queue.wf()
        &&& self.queue_size == QUEUE_SIZE
        &&& self.active < self.sandwitches@.len()
        &&& self.queue@.len() >= self.queue_size
    }

    /// A fresh machine: every slot an empty plate, the first one selected,
    /// and the queue, stacking upward at queue speed, at its target depth.
    pub open spec fn fresh(&self) -> bool {
        &&& self.wf()
        &&& self.active == 0
        &&& self.queue@.len() == QUEUE_SIZE
        &&& forall|j: int| 0 <= j < QUEUE_SIZE ==> #[trigger] self.slots()[j] == empty_plate()
        &&& self.queue@.dir == 1
        &&& self.queue@.anchor.speed == QUEUE_SPEED
        &&& self.queue@.anchor.goal() == queue_anchor(0)
    }

    /// `m` is this machine after one frame of `dt` milliseconds: every slot
    /// laid out at its place and stepped, the first one swept of settled
    /// ingredients, and the queue moved under the selected slot.
    pub open spec fn updated(self, m: SandwitchMachine, dt: u32) -> bool {
        &&& m.wf()
        &&& m.slots() == Seq::new(
            QUEUE_SIZE as nat,
            |j: int| slot_after_update(self.slots()[j], j, dt),
        )
        &&& m.queue@ == queue_after_update(self.queue@, self.active as int, dt)
        &&& m.delicat_target == self.delicat_target.breathed(dt)
        &&& m.active == self.active
        &&& m.queue_size == self.queue_size
    }

    /// `m` is this machine with only the queue grown at its front: to the
    /// target depth if it was shallower, by nothing otherwise.
    pub open spec fn refilled(self, m: SandwitchMachine) -> bool {
        let k = self.queue@.len();
        let n = if k < self.queue_size { self.queue_size as nat } else { k };
        &&& m.queue@.len() == n
        &&& m.queue@.ingredients.skip(n - k) == self.queue@.ingredients
        &&& m.queue@.targets.skip(n - k) == self.queue@.targets
        &&& m.queue@.anchor == self.queue@.anchor
        &&& m.queue@.dir == self.queue@.dir
        &&& m.sandwitches == self.sandwitches
        &&& m.active == self.active
        &&& m.queue_size == self.queue_size
        &&& m.delicat_target == self.delicat_target
    }

    /// `m` is this machine after `release`: the serving-end ingredient of
    /// the queue moved onto the selected slot, then the queue refilled.
    pub open spec fn released(self, m: SandwitchMachine) -> bool {
        let q = self.queue@;
        let a = self.active as int;
        let slot = self.slots()[a];
        let moved = SandwichView {
            ingredients: slot.ingredients.push(q.ingredients.last()),
            targets: slot.targets.push(Target { speed: slot.anchor.speed, ..q.targets.last() }),
            ..slot
        };
        let k = (q.len() - 1) as nat;
        let n = if k < self.queue_size { self.queue_size as nat } else { k };
        &&& m.slots() == self.slots().update(a, moved)
        &&& m.queue@.len() == n
        &&& m.queue@.ingredients.skip(n - k) == q.ingredients.drop_last()
        &&& m.queue@.targets.skip(n - k) == q.targets.drop_last()
        &&& m.queue@.anchor == q.anchor
        &&& m.queue@.dir == q.dir
        &&& m.active == self.active
        &&& m.queue_size == self.queue_size
        &&& m.delicat_target == self.delicat_target
    }

    /// `m` is this machine after `bin`: the last ingredient of the selected
    /// slot moved back onto the serving end of the queue; nothing changes
    /// when that slot is empty.
    pub open spec fn binned(self, m: SandwitchMachine) -> bool {
        let q = self.queue@;
        let a = self.active as int;
        let slot = self.slots()[a];
        if slot.len() == 0 {
            m == self
        } else {
            &&& m.slots() == self.slots().update(
                a,
                SandwichView {
                    ingredients: slot.ingredients.drop_last(),
                    targets: slot.targets.drop_last(),
                    ..slot
                },
            )
            &&& m.queue@ == (SandwichView {
                ingredients: q.ingredients.push(slot.ingredients.last()),
                targets: q.targets.push(Target { speed: q.anchor.speed, ..slot.targets.last() }),
                ..q
            })
            &&& m.active == self.active
            &&& m.queue_size == self.queue_size
            &&& m.delicat_target == self.delicat_target
        }
    }

    /// A fresh machine: every slot an empty plate, the first one selected,
    /// and the queue filled to its target depth.
    pub fn new<R: RandomSource>(rng: &mut R) -> (m: SandwitchMachine)
        ensures
            m.fresh(),
    {
        let mut sandwitches: Vec<Sandwitch> = Vec::new();
        let mut i: usize = 0;
        while i < QUEUE_SIZE
            invariant
                i <= QUEUE_SIZE,
                sandwitches@.len() == i,
                forall|k: int|
                    0 <= k < i ==> #[trigger] sandwitches@[k].wf() && sandwitches@[k]@
                        == empty_plate(),
            decreases QUEUE_SIZE - i,
        {
            let mut s = Sandwitch::new();
            s.reset();
            assert(s@ =~= empty_plate());
            sandwitches.push(s);
            i = i + 1;
        }
        let mut delicat_target = Target::new();
        delicat_target.breath = true;
        delicat_target.set_target(Point::new(DELICAT_LOCATION_X, DELICAT_LOCATION_Y));
        delicat_target.breath_speed = 800;
        delicat_target.breath_size.y = 15;
        let mut queue = Sandwitch::new();
        queue.set_speed(QUEUE_SPEED);
        queue.set_target(Point::new(QUEUE_BASE_X, QUEUE_BASE_Y));
        queue.target.breath = true;
        queue.target.breath_size = Point::new(0, 40);
        queue.target.breath_speed = 500;
        queue.sw_dir = 1;
        let mut sm = SandwitchMachine {
            sandwitches,
            queue_size: QUEUE_SIZE,
            queue,
            active: 0,
            delicat_target,
        };
        sm.fill_queue(rng);
        proof {
            assert forall|j: int| 0 <= j < QUEUE_SIZE implies #[trigger] sm.slots()[j]
                == empty_plate() by {
                assert(sandwitches@[j].wf());
                assert(sm.sandwitches@[j] == sandwitches@[j]);
            }
        }
        sm
    }

    pub fn sandwitches(&self) -> (r: &Vec<Sandwitch>)
        ensures
            r == self.sandwitches,
    {
        &self.sandwitches
    }

    pub fn get_queue_target(&self) -> (p: Point)
        requires
            self.active < QUEUE_SIZE,
        ensures
            p == queue_anchor(self.active as int),
    {
        Point::new(QUEUE_BASE_X + QUEUE_MOVE * self.active as i32, QUEUE_BASE_Y)
    }

    /// Lays every slot out at its place, steps all animations by `dt`
    /// milliseconds, and lets the settled ingredients of the first slot
    /// disappear.
    pub fn update(&mut self, dt: u32)
        requires
            old(self).wf(),
        ensures
            old(self).updated(*final(self), dt),
    {
        let n = self.sandwitches.len();
        let mut i: usize = 0;
        while i < n
            invariant
                n == QUEUE_SIZE,
                i <= n,
                self.sandwitches@.len() == n,
                forall|k: int| 0 <= k < n ==> #[trigger] self.sandwitches@[k].wf(),
                forall|k: int|
                    0 <= k < i ==> #[trigger] self.sandwitches@[k]@ == old(
                        self,
                    ).sandwitches@[k]@.advanced(dt).retargeted(slot_anchor(k)),
                forall|k: int|
                    i <= k < n ==> #[trigger] self.sandwitches@[k] == old(self).sandwitches@[k],
                self.queue == old(self).queue,
                self.active == old(self).active,
                self.queue_size == old(self).queue_size,
                self.delicat_target == old(self).delicat_target,
            decreases n - i,
        {
            self.sandwitches[i].update(dt);
            self.sandwitches[i].set_target(
                Point::new(SANDWITCH_BASE_X + QUEUE_MOVE * i as i32, SANDWITCH_BASE_Y),
            );
            i = i + 1;
        }
        self.sandwitches[0].clear();
        let p = self.get_queue_target();
        self.queue.set_target(p);
        self.queue.update(dt);
        self.queue.target.breath_update(dt);
        self.delicat_target.breath_update(dt);
        proof {
            assert(self.slots() =~= Seq::new(
                QUEUE_SIZE as nat,
                |j: int| slot_after_update(old(self).slots()[j], j, dt),
            ));
        }
    }

    /// Grows the queue at its front to the target depth. Away from the two
    /// ends of the queue a drawn bread is drawn again, once.
    pub fn fill_queue<R: RandomSource>(&mut self, rng: &mut R)
        requires
            old(self).queue.wf(),
        ensures
            final(self).queue.wf(),
            old(self).refilled(*final(self)),
    {
        while self.queue.ingredients.len() < self.queue_size
            invariant
                self.queue.wf(),
                self.queue@.len() >= old(self).queue@.len(),
                self.queue@.len() > old(self).queue@.len() ==> self.queue@.len() <= self.queue_size,
                self.queue@.ingredients.skip(self.queue@.len() - old(self).queue@.len())
                    == old(self).queue@.ingredients,
                self.queue@.targets.skip(self.queue@.len() - old(self).queue@.len())
                    == old(self).queue@.targets,
                self.queue@.anchor == old(self).queue@.anchor,
                self.queue@.dir == old(self).queue@.dir,
                self.sandwitches == old(self).sandwitches,
                self.active == old(self).active,
                self.queue_size == old(self).queue_size,
                self.delicat_target == old(self).delicat_target,
            decreases self.queue_size - self.queue.ingredients.len(),
        {
            let depth = self.queue.ingredients.len();
            let ing = if depth == 0 || depth + 1 == self.queue_size {
                get_rand_ingredient(rng)
            } else {
                get_interior_ingredient(rng)
            };
            let ghost before = self.queue@;
            self.queue.add(ing, rng);
            proof {
                let d = (before.len() - old(self).queue@.len()) as int;
                assert(self.queue@.ingredients.skip(d + 1) =~= before.ingredients.skip(d));
                assert(self.queue@.targets.skip(d + 1) =~= self.queue@.targets.skip(1).skip(d));
            }
        }
    }

    /// Moves the serving-end ingredient of the queue onto the selected slot,
    /// then refills the queue.
    pub fn release<R: RandomSource>(&mut self, rng: &mut R)
        requires
            old(self).wf(),
        ensures
            final(self).wf(),
            old(self).released(*final(self)),
    {
        let a = self.active;
        match self.queue.take() {
            Some((i, t)) => {
                self.sandwitches[a].add_back(i, t);
                let ghost mid = *self;
                self.fill_queue(rng);
                proof {
                    let slot = mid.slots()[a as int];
                    assert(self.slots() =~= old(self).slots().update(a as int, slot));
                    assert forall|j: int| 0 <= j < self.sandwitches@.len() implies
                        #[trigger] self.sandwitches@[j].wf() by {
                        assert(self.sandwitches@[j] == mid.sandwitches@[j]);
                    }
                }
            },
            None => {},
        }
    }

    /// Moves the last ingredient of the selected slot back onto the serving
    /// end of the queue; does nothing when that slot is empty.
    pub fn bin(&mut self)
        requires
            old(self).wf(),
        ensures
            final(self).wf(),
            old(self).binned(*final(self)),
    {
        let a = self.active;
        if self.sandwitches[a].ingredients.len() > 0 {
            match self.sandwitches[a].take() {
                Some((i, t)) => {
                    self.queue.add_back(i, t);
                },
                None => {},
            }
            proof {
                assert(self.slots() =~= old(self).slots().update(a as int, self.slots()[a as int]));
            }
        }
    }

    /// Selects the slot `diff` places away, cyclically.
    pub fn switch(&mut self, diff: i32)
        requires
            old(self).wf(),
        ensures
            final(self).wf(),
            *final(self) == (SandwitchMachine {
                active: switched(old(self).active as int, diff as int, QUEUE_SIZE as int) as usize,
                ..*old(self)
            }),
    {
        let n = self.sandwitches.len();
        let d: i64 = diff as i64;
        let mag: u64 = if d >= 0 { d as u64 } else { (-d) as u64 };
        let step: usize = (mag % n as u64) as usize;
        proof {
            let m = n as int;
            let a = self.active as int;
            lemma_fundamental_div_mod(mag as int, m);
            lemma_mod_bound(mag as int, m);
            let q = mag as int / m;
            if d >= 0 {
                assert(a + step == m * (-q) + (a + diff));
                lemma_mod_multiples_vanish(-q, a + diff, m);
            } else {
                assert(a + m - step == m * (q + 1) + (a + diff));
                lemma_mod_multiples_vanish(q + 1, a + diff, m);
            }
        }
        if d >= 0 {
            self.active = (self.active + step) % n;
        } else {
            self.active = (self.active + n - step) % n;
        }
    }
}

/// Filling never leaves the queue below its target depth, and never grows
/// it past that depth or past where it already was.
pub proof fn lemma_fill_depth(m1: SandwitchMachine, m2: SandwitchMachine)
    requires
        m1.queue_size == QUEUE_SIZE,
        m1.refilled(m2),
    ensures
        m2.queue@.len() >= QUEUE_SIZE,
        m1.queue@.len() <= QUEUE_SIZE ==> m2.queue@.len() == QUEUE_SIZE,
        m1.queue@.len() > QUEUE_SIZE ==> m2.queue@.len() == m1.queue@.len(),
{
}

/// Binning the last ingredient of a non-empty selected slot and releasing
/// straight after puts it back: the slot and the queue hold the same
/// ingredients as before, and every other slot is untouched.
pub proof fn lemma_bin_then_release(
    m1: SandwitchMachine,
    m2: SandwitchMachine,
    m3: SandwitchMachine,
)
    requires
        m1.wf(),
        m1.slots()[m1.active as int].len() > 0,
        m1.binned(m2),
        m2.wf(),
        m2.released(m3),
    ensures
        m3.active == m1.active,
        m3.slots()[m1.active as int].ingredients == m1.slots()[m1.active as int].ingredients,
        m3.queue@.ingredients == m1.queue@.ingredients,
        forall|j: int|
            0 <= j < QUEUE_SIZE && j != m1.active ==> #[trigger] m3.slots()[j] == m1.slots()[j],
{
    let a = m1.active as int;
    assert(m2.queue@.ingredients.drop_last() =~= m1.queue@.ingredients);
    assert(m3.queue@.ingredients.skip(0) =~= m3.queue@.ingredients);
    assert(m1.slots()[a].ingredients.drop_last().push(m1.slots()[a].ingredients.last())
        =~= m1.slots()[a].ingredients);
}

} // verus!
