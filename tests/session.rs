use deli_cat_essen::customer::INITIAL_LIVES;
use deli_cat_essen::input::Btn;
use deli_cat_essen::random::{RandomSource, ScriptedRandom, ThreadRandom};
use deli_cat_essen::sandwitch::{Ingredients, QUEUE_SIZE};
use deli_cat_essen::session::{Commands, Session};

const IDLE: Commands = Commands { left: false, right: false, release: false, bin: false };

#[test]
fn button_press_is_an_edge() {
    let mut b = Btn::new();
    assert!(!b.down(true));
    b.update(true);
    assert!(b.down(true));
    assert!(b.down(false));
    b.update(true);
    assert!(!b.down(true));
    assert!(b.down(false));
    b.update(false);
    assert!(!b.down(true));
    assert!(!b.down(false));
}

#[test]
fn session_applies_commands_after_stepping() {
    let mut rng = ScriptedRandom::new(vec![2]);
    let mut s = Session::new(&mut rng);
    assert!(!s.game_ended);
    s.game_update(16, Commands { right: true, ..IDLE }, &mut rng);
    assert_eq!(s.machine.active, 1);
    s.game_update(16, Commands { release: true, ..IDLE }, &mut rng);
    assert_eq!(s.machine.sandwitches()[1].ingredients, vec![Ingredients::Bread, Ingredients::Meat]);
    assert_eq!(s.machine.queue.ingredients.len(), QUEUE_SIZE);
    s.game_update(16, Commands { bin: true, ..IDLE }, &mut rng);
    assert_eq!(s.machine.sandwitches()[1].ingredients, vec![Ingredients::Bread]);
    s.game_update(16, Commands { left: true, ..IDLE }, &mut rng);
    assert_eq!(s.machine.active, 0);
}

#[test]
fn game_ends_when_lives_run_out_and_reset_restarts() {
    let mut rng = ScriptedRandom::new(vec![0]);
    let mut s = Session::new(&mut rng);
    s.paused = false;
    for _ in 0..100_000 {
        s.game_update(100, IDLE, &mut rng);
        if s.game_ended {
            break;
        }
    }
    assert!(s.game_ended);
    assert_eq!(s.customer_line.lives(), 0);
    s.reset(&mut rng);
    assert!(!s.game_ended);
    assert_eq!(s.customer_line.lives(), INITIAL_LIVES);
    assert_eq!(s.customer_line.get_score(), 0);
}

#[test]
fn thread_draws_stay_below_the_bound() {
    let mut rng = ThreadRandom::new();
    let mut seen_nonzero = false;
    for n in 1..200u64 {
        let r = rng.below(n);
        assert!(r < n);
        if r != 0 {
            seen_nonzero = true;
        }
    }
    assert!(seen_nonzero);
}

#[test]
fn scripted_draws_cycle_and_reduce() {
    let mut rng = ScriptedRandom::new(vec![7, 2]);
    assert_eq!(rng.below(5), 2);
    assert_eq!(rng.below(5), 2);
    assert_eq!(rng.below(4), 3);
    let mut empty = ScriptedRandom::new(vec![]);
    assert_eq!(empty.below(9), 0);
}
