use deli_cat_essen::moving_target::Point;
use deli_cat_essen::random::{ScriptedRandom, ThreadRandom};
use deli_cat_essen::sandwitch::{Ingredients, SandwitchMachine, QUEUE_SIZE};

#[test]
fn fresh_machine_layout() {
    let mut rng = ScriptedRandom::new(vec![1]);
    let m = SandwitchMachine::new(&mut rng);
    assert_eq!(m.active, 0);
    assert_eq!(m.queue.ingredients.len(), QUEUE_SIZE);
    assert_eq!(m.queue.ingredients[0], Ingredients::Lettuce);
    assert_eq!(m.sandwitches().len(), QUEUE_SIZE);
    for s in m.sandwitches().iter() {
        assert_eq!(s.ingredients, vec![Ingredients::Bread]);
    }
    assert_eq!(m.get_queue_target(), Point::new(300, 200));
}

#[test]
fn queue_fill_retries_bread_once_away_from_the_ends() {
    // Draws cycle 0, 0, 1, 0; each added ingredient also draws its jitter.
    let mut rng = ScriptedRandom::new(vec![0, 0, 1, 0]);
    let m = SandwitchMachine::new(&mut rng);
    // depth 0: bread, an end of the queue so kept
    // depth 1: lettuce
    // depth 2: bread, drawn again: bread
    // depth 3: bread, drawn again: bread
    // depth 4: lettuce
    // depth 5: bread, an end of the queue so kept
    // New ingredients enter at the front.
    assert_eq!(
        m.queue.ingredients,
        vec![
            Ingredients::Bread,
            Ingredients::Lettuce,
            Ingredients::Bread,
            Ingredients::Bread,
            Ingredients::Lettuce,
            Ingredients::Bread,
        ]
    );
}

#[test]
fn repeated_fills_keep_the_queue_at_depth() {
    let mut rng = ThreadRandom::new();
    let mut m = SandwitchMachine::new(&mut rng);
    for _ in 0..20 {
        m.fill_queue(&mut rng);
        assert_eq!(m.queue.ingredients.len(), QUEUE_SIZE);
        m.release(&mut rng);
        assert_eq!(m.queue.ingredients.len(), QUEUE_SIZE);
    }
    m.bin();
    assert_eq!(m.queue.ingredients.len(), QUEUE_SIZE + 1);
    m.fill_queue(&mut rng);
    assert_eq!(m.queue.ingredients.len(), QUEUE_SIZE + 1);
}

#[test]
fn release_moves_the_serving_end_onto_the_selected_slot() {
    let mut rng = ScriptedRandom::new(vec![2, 7, 3]);
    let mut m = SandwitchMachine::new(&mut rng);
    m.switch(2);
    let last = *m.queue.ingredients.last().unwrap();
    m.release(&mut rng);
    assert_eq!(m.sandwitches()[2].ingredients, vec![Ingredients::Bread, last]);
    assert_eq!(m.sandwitches()[1].ingredients, vec![Ingredients::Bread]);
    assert_eq!(m.queue.ingredients.len(), QUEUE_SIZE);
    assert_eq!(m.sandwitches()[2].ing_targets[1].speed, m.sandwitches()[2].target.speed);
}

#[test]
fn bin_then_release_restores_the_slot() {
    let mut rng = ThreadRandom::new();
    let mut m = SandwitchMachine::new(&mut rng);
    m.switch(1);
    m.release(&mut rng);
    m.release(&mut rng);
    let slot_before = m.sandwitches()[1].ingredients.clone();
    let queue_before = m.queue.ingredients.clone();
    m.bin();
    assert_eq!(m.sandwitches()[1].ingredients.len(), slot_before.len() - 1);
    m.release(&mut rng);
    assert_eq!(m.sandwitches()[1].ingredients, slot_before);
    assert_eq!(m.queue.ingredients, queue_before);
}

#[test]
fn bin_on_an_empty_slot_does_nothing() {
    let mut rng = ThreadRandom::new();
    let mut m = SandwitchMachine::new(&mut rng);
    m.switch(3);
    m.bin();
    assert!(m.sandwitches()[3].ingredients.is_empty());
    let queue_before = m.queue.ingredients.clone();
    m.bin();
    assert!(m.sandwitches()[3].ingredients.is_empty());
    assert_eq!(m.queue.ingredients, queue_before);
}

#[test]
fn switching_wraps_both_ways() {
    let mut rng = ThreadRandom::new();
    let mut m = SandwitchMachine::new(&mut rng);
    m.switch(-1);
    assert_eq!(m.active, 5);
    m.switch(1);
    assert_eq!(m.active, 0);
    m.switch(7);
    assert_eq!(m.active, 1);
    m.switch(-13);
    assert_eq!(m.active, 0);
    assert_eq!(m.get_queue_target(), Point::new(300, 200));
    m.switch(4);
    assert_eq!(m.get_queue_target(), Point::new(300 + 4 * 736, 200));
}

#[test]
fn switch_and_back_returns_to_the_same_slot() {
    let mut rng = ThreadRandom::new();
    let mut m = SandwitchMachine::new(&mut rng);
    m.switch(2);
    for delta in [-100, -7, -6, -1, 0, 1, 5, 6, 13, i32::MAX, i32::MIN + 1] {
        m.switch(delta);
        m.switch(-delta);
        assert_eq!(m.active, 2);
    }
}

#[test]
fn update_lays_out_slots_and_sweeps_the_first() {
    let mut rng = ThreadRandom::new();
    let mut m = SandwitchMachine::new(&mut rng);
    m.update(16);
    for (i, s) in m.sandwitches().iter().enumerate() {
        assert_eq!(s.target.get_target(), Point::new(300 + 736 * i as i32, 2120));
    }
    // The first slot's bread reached its place at once and is swept away.
    assert!(m.sandwitches()[0].ingredients.is_empty());
    assert_eq!(m.sandwitches()[1].ingredients, vec![Ingredients::Bread]);
    assert_eq!(m.queue.target.get_target(), Point::new(300, 200));
}
