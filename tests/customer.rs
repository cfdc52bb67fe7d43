use deli_cat_essen::customer::{
    request_delta, request_size, spawn_delay, wait_limit, Customer, CustomerLine, INITIAL_LIVES,
};
use deli_cat_essen::moving_target::{Point, Target};
use deli_cat_essen::random::{ScriptedRandom, ThreadRandom};
use deli_cat_essen::sandwitch::{Ingredients, Sandwitch, SandwitchMachine};

fn settled_sandwich(ings: &[Ingredients]) -> Sandwitch {
    let mut s = Sandwitch::new();
    for ing in ings {
        s.add_back(*ing, Target::new_with_speed(1000, Point::new(10, 10)));
    }
    s
}

fn waiting_customer(request: &[Ingredients]) -> Customer {
    let mut c = Customer::new(0);
    c.ings = request.to_vec();
    c.waiting = true;
    c
}

#[test]
fn difficulty_ramps() {
    assert_eq!(wait_limit(0), 45_000);
    assert_eq!(wait_limit(10), 37_000);
    assert_eq!(wait_limit(37), 15_400);
    assert_eq!(wait_limit(38), 15_000);
    assert_eq!(wait_limit(1000), 15_000);
    assert_eq!(spawn_delay(0), 15_000);
    assert_eq!(spawn_delay(10), 11_000);
    assert_eq!(spawn_delay(25), 5_000);
    assert_eq!(spawn_delay(26), 5_000);
    assert_eq!(request_delta(0), 30);
    assert_eq!(request_delta(5), 40);
    assert_eq!(request_delta(u64::MAX), u64::MAX);
}

#[test]
fn request_sizes_round_half_up() {
    assert_eq!(request_size(0, 30), 2);
    assert_eq!(request_size(166_666, 30), 2);
    assert_eq!(request_size(166_667, 30), 3);
    assert_eq!(request_size(500_000, 30), 4);
    assert_eq!(request_size(999_999, 30), 5);
    assert_eq!(request_size(999_999, 50), 7);
}

#[test]
fn new_customer_follows_the_score() {
    let c = Customer::new(10);
    assert!(c.ings.is_empty());
    assert!(!c.waiting);
    assert!(!c.finished);
    assert!(c.sandwitch.is_none());
    assert_eq!(c.wait_time, 0);
    assert_eq!(c.wait_max, 37_000);
    assert_eq!(c.max_request_delta, 50);
    assert!(c.target.breath);
}

#[test]
fn smallest_request_is_two_breads() {
    let mut c = Customer::new(0);
    let mut rng = ScriptedRandom::new(vec![0]);
    c.populate(&mut rng);
    assert_eq!(c.ings, vec![Ingredients::Bread, Ingredients::Bread]);
}

#[test]
fn request_has_bread_at_both_ends() {
    let mut c = Customer::new(0);
    let mut rng = ScriptedRandom::new(vec![999_999, 1, 30, 2, 3]);
    c.populate(&mut rng);
    assert_eq!(
        c.ings,
        vec![
            Ingredients::Bread,
            Ingredients::Meat,
            Ingredients::Meat,
            Ingredients::Lettuce,
            Ingredients::Bread,
        ]
    );
}

#[test]
fn random_requests_stay_in_range() {
    let mut rng = ThreadRandom::new();
    for _ in 0..50 {
        let mut c = Customer::new(0);
        c.populate(&mut rng);
        assert!(c.ings.len() >= 2 && c.ings.len() <= 5);
        assert_eq!(c.ings[0], Ingredients::Bread);
        assert_eq!(*c.ings.last().unwrap(), Ingredients::Bread);
    }
}

#[test]
fn request_met_by_exact_settled_sandwich() {
    let request = [Ingredients::Bread, Ingredients::Meat, Ingredients::Bread];
    let mut c = waiting_customer(&request);
    let s = settled_sandwich(&request);
    assert!(c.meets(&s));
    assert!(c.request_met(&s));
    assert!(c.finished);
}

#[test]
fn request_not_met_by_wrong_length() {
    let mut c = waiting_customer(&[Ingredients::Bread, Ingredients::Bread]);
    let s = settled_sandwich(&[Ingredients::Bread, Ingredients::Bread, Ingredients::Bread]);
    assert!(!c.request_met(&s));
    assert!(!c.finished);
    let s = settled_sandwich(&[Ingredients::Bread]);
    assert!(!c.request_met(&s));
    assert!(!c.finished);
}

#[test]
fn request_not_met_by_wrong_order() {
    let mut c = waiting_customer(&[Ingredients::Bread, Ingredients::Meat, Ingredients::Tomato]);
    let s = settled_sandwich(&[Ingredients::Bread, Ingredients::Tomato, Ingredients::Meat]);
    assert!(!c.request_met(&s));
    assert!(!c.finished);
    assert_eq!(s.ingredients.len(), 3);
}

#[test]
fn request_not_met_while_an_ingredient_moves() {
    let request = [Ingredients::Bread, Ingredients::Meat];
    let mut c = waiting_customer(&request);
    let mut s = settled_sandwich(&request);
    s.set_target(Point::new(4000, 4000));
    assert!(!c.request_met(&s));
    assert!(!c.finished);
}

#[test]
fn waiting_time_accrues_only_while_waiting() {
    let mut c = Customer::new(0);
    c.update(500);
    assert_eq!(c.wait_time, 0);
    c.waiting = true;
    let mut last = 0;
    for dt in [0, 16, 500, 1] {
        c.update(dt);
        assert!(c.wait_time >= last);
        last = c.wait_time;
    }
    assert_eq!(c.wait_time, 517);
}

#[test]
fn patience_runs_out_only_past_the_limit() {
    let mut c = waiting_customer(&[Ingredients::Bread, Ingredients::Bread]);
    c.wait_max = 10_000;
    for _ in 0..4 {
        c.update(2_500);
        assert!(!c.waited_too_long());
    }
    assert_eq!(c.wait_time, 10_000);
    c.update(1);
    assert!(c.waited_too_long());
}

#[test]
fn fresh_line() {
    let line = CustomerLine::new();
    assert_eq!(line.get_score(), 0);
    assert_eq!(line.lives(), INITIAL_LIVES);
    assert_eq!(line.active_customers(), 3);
    assert!(line.customers().is_empty());
    assert!(line.leaving_customers().is_empty());
    assert!(line.angry_customers().is_empty());
}

fn run_until_three_wait(line: &mut CustomerLine, rng: &mut ScriptedRandom) {
    for _ in 0..10_000 {
        line.update(100, rng);
        let waiting = line.customers().iter().filter(|c| c.waiting).count();
        if waiting == 3 {
            return;
        }
    }
    panic!("three customers never waited");
}

#[test]
fn matching_slot_serves_one_customer() {
    let mut rng = ScriptedRandom::new(vec![0]);
    let mut line = CustomerLine::new();
    run_until_three_wait(&mut line, &mut rng);
    for c in line.customers().iter() {
        assert_eq!(c.ings, vec![Ingredients::Bread, Ingredients::Bread]);
    }
    let mut machine = SandwitchMachine::new(&mut rng);
    machine.switch(1);
    machine.release(&mut rng);
    for _ in 0..200 {
        machine.update(100);
    }
    assert_eq!(
        machine.sandwitches()[1].ingredients,
        vec![Ingredients::Bread, Ingredients::Bread]
    );
    let others: Vec<(u64, bool)> =
        line.customers()[1..].iter().map(|c| (c.wait_time, c.waiting)).collect();
    line.check_machine(&mut machine, &mut rng);
    assert_eq!(line.get_score(), 1);
    assert_eq!(line.leaving_customers().len(), 1);
    assert!(line.leaving_customers()[0].finished);
    let carried = line.leaving_customers()[0].sandwitch.as_ref().unwrap();
    assert_eq!(carried.ingredients, vec![Ingredients::Bread, Ingredients::Bread]);
    assert_eq!(line.customers().len(), 2);
    let after: Vec<(u64, bool)> =
        line.customers().iter().map(|c| (c.wait_time, c.waiting)).collect();
    assert_eq!(after, others);
    for c in line.customers().iter() {
        assert!(!c.finished);
    }
    assert_eq!(machine.sandwitches()[1].ingredients, vec![Ingredients::Bread]);
}

#[test]
fn nothing_to_serve_changes_nothing() {
    let mut rng = ScriptedRandom::new(vec![0]);
    let mut line = CustomerLine::new();
    run_until_three_wait(&mut line, &mut rng);
    let mut machine = SandwitchMachine::new(&mut rng);
    line.check_machine(&mut machine, &mut rng);
    assert_eq!(line.get_score(), 0);
    assert_eq!(line.customers().len(), 3);
    assert!(line.leaving_customers().is_empty());
}

#[test]
fn customer_turns_angry_on_the_first_frame_past_its_patience() {
    let mut rng = ScriptedRandom::new(vec![0]);
    let mut line = CustomerLine::new();
    for _ in 0..10_000 {
        line.update(100, &mut rng);
        if line.customers().first().map_or(false, |c| c.waiting) {
            break;
        }
    }
    let limit = line.customers()[0].wait_max;
    loop {
        let before = line.customers()[0].wait_time;
        let angry_before = line.angry_customers().len();
        line.update(100, &mut rng);
        if line.angry_customers().len() > angry_before {
            assert!(before + 100 > limit);
            assert!(before <= limit);
            break;
        }
        assert!(line.customers()[0].wait_time <= limit);
    }
}

#[test]
fn each_angry_departure_costs_one_life_down_to_zero() {
    let mut rng = ScriptedRandom::new(vec![0]);
    let mut line = CustomerLine::new();
    assert_eq!(line.lives(), INITIAL_LIVES);
    let mut drops = 0;
    let mut departures_at_zero = 0;
    for _ in 0..100_000 {
        let angry_before = line.angry_customers().len();
        let lives_before = line.lives();
        line.update(100, &mut rng);
        let angry_after = line.angry_customers().len();
        if line.lives() < lives_before {
            // one angry customer reached the exit and left the game
            assert_eq!(line.lives(), lives_before - 1);
            assert!(angry_after <= angry_before);
            drops += 1;
        } else {
            assert_eq!(line.lives(), lives_before);
            if lives_before == 0 && angry_after < angry_before {
                departures_at_zero += 1;
            }
        }
        if departures_at_zero > 0 {
            break;
        }
    }
    assert_eq!(drops, 3);
    assert!(departures_at_zero > 0);
    assert_eq!(line.lives(), 0);
}
