//! One game session: a sandwich machine and a customer line stepped
//! together, frame by frame.
use vstd::prelude::*;

use crate::customer::CustomerLine;
use crate::random::RandomSource;
use crate::sandwitch::{switched, SandwitchMachine, QUEUE_SIZE};

verus! {

/// The player's actions in one frame.
#[derive(Clone, Copy, Debug, PartialEq, Eq, Structural)]
pub struct Commands {
    /// Select the slot to the left.
    pub left: bool,
    /// Select the slot to the right.
    pub right: bool,
    /// Release the next ingredient onto the selected slot.
    pub release: bool,
    /// Put the last ingredient of the selected slot back.
    pub bin: bool,
}

/// Machine `m` after the player's slot selection: one to the left, then one
/// to the right, as asked.
pub open spec fn selected(m: SandwitchMachine, commands: Commands) -> SandwitchMachine {
    let n = QUEUE_SIZE as int;
    let a0 = m.active as int;
    let a1 = if commands.left { switched(a0, -1, n) } else { a0 };
    let a2 = if commands.right { switched(a1, 1, n) } else { a1 };
    SandwitchMachine { active: a2 as usize, ..m }
}

/// `b` is machine `a` after a release, when `release` is asked.
pub open spec fn after_release(a: SandwitchMachine, b: SandwitchMachine, release: bool) -> bool {
    if release {
        a.released(b)
    } else {
        b == a
    }
}

/// `b` is machine `a` after a bin, when `bin` is asked.
pub open spec fn after_bin(a: SandwitchMachine, b: SandwitchMachine, bin: bool) -> bool {
    if bin {
        a.binned(b)
    } else {
        b == a
    }
}

/// `m2` is machine `m` after the player's commands: selection, then
/// release, then bin.
pub open spec fn applied(m: SandwitchMachine, m2: SandwitchMachine, commands: Commands) -> bool {
    exists|mid: SandwitchMachine|
        #[trigger] after_release(selected(m, commands), mid, commands.release) && after_bin(
            mid,
            m2,
            commands.bin,
        )
}

/// A machine and a line, and whether the game is over or paused.
pub struct Session {
    pub machine: SandwitchMachine,
    pub customer_line: CustomerLine,
    pub game_ended: bool,
    pub paused: bool,
}

impl Session {
    pub open spec fn wf(&self) -> bool {
        self.machine.wf() && self.customer_line.wf()
    }

    /// This session becomes `next` over one frame of play: the line steps
    /// (`framed`), the machine steps (`updated`), the line is served from
    /// the machine (`checked`), the commands apply to the machine, and the
    /// game ends once no lives are left.
    pub open spec fn played(self, next: Session, commands: Commands, dt: u32) -> bool {
        &&& exists|l1: CustomerLine, m1: SandwitchMachine|
            #![trigger self.customer_line.framed(l1, dt), self.machine.updated(m1, dt)]
            {
                &&& self.customer_line.framed(l1, dt)
                &&& self.machine.updated(m1, dt)
                &&& exists|m2: SandwitchMachine|
                    #[trigger] l1.checked(m1, next.customer_line, m2) && applied(
                        m2,
                        next.machine,
                        commands,
                    )
            }
        &&& next.game_ended == (self.game_ended || next.customer_line.lives == 0)
        &&& next.paused == (self.paused && next.customer_line.lives != 0)
    }

    /// A fresh session.
    pub fn new<R: RandomSource>(rng: &mut R) -> (s: Session)
        ensures
            s.machine.fresh(),
            s.customer_line.fresh(),
            !s.game_ended,
            !s.paused,
    {
        Session {
            machine: SandwitchMachine::new(rng),
            customer_line: CustomerLine::new(),
            game_ended: false,
            paused: false,
        }
    }

    /// Starts over with a fresh machine and line.
    pub fn reset<R: RandomSource>(&mut self, rng: &mut R)
        ensures
            final(self).machine.fresh(),
            final(self).customer_line.fresh(),
            !final(self).game_ended,
            final(self).paused == old(self).paused,
    {
        self.customer_line = CustomerLine::new();
        self.machine = SandwitchMachine::new(rng);
        self.game_ended = false;
    }

    /// One frame of play: the line and the machine step by `dt`
    /// milliseconds, finished sandwiches are offered to the line, then the
    /// player's actions apply. The game ends when no lives are left.
    pub fn game_update<R: RandomSource>(&mut self, dt: u32, commands: Commands, rng: &mut R)
        requires
            old(self).wf(),
        ensures
            final(self).wf(),
            old(self).played(*final(self), commands, dt),
    {
        let ghost s0 = *self;
        self.customer_line.update(dt, rng);
        let ghost l1 = self.customer_line;
        self.machine.update(dt);
        let ghost m1 = self.machine;
        self.customer_line.check_machine(&mut self.machine, rng);
        let ghost m2 = self.machine;
        if commands.left {
            self.machine.switch(-1);
        }
        if commands.right {
            self.machine.switch(1);
        }
        let ghost m3 = self.machine;
        if commands.release {
            self.machine.release(rng);
        }
        let ghost m4 = self.machine;
        if commands.bin {
            self.machine.bin();
        }
        if self.customer_line.lives() == 0 {
            self.game_ended = true;
            self.paused = false;
        }
        proof {
            assert(m3 == selected(m2, commands));
            assert(after_release(m3, m4, commands.release));
            assert(applied(m2, self.machine, commands));
            assert(s0.customer_line.framed(l1, dt) && s0.machine.updated(m1, dt));
            assert(l1.checked(m1, self.customer_line, m2));
        }
    }
}

} // verus!
