use deli_cat_essen::moving_target::{Point, Target};
use deli_cat_essen::random::ScriptedRandom;
use deli_cat_essen::sandwitch::{
    get_ingredient, get_interior_ingredient, get_rand_ingredient, pick_interior, Ingredients,
    Sandwitch,
};

#[test]
fn catalog_order() {
    assert_eq!(get_ingredient(0), Ingredients::Bread);
    assert_eq!(get_ingredient(1), Ingredients::Lettuce);
    assert_eq!(get_ingredient(2), Ingredients::Meat);
    assert_eq!(get_ingredient(3), Ingredients::Tomato);
}

#[test]
fn random_ingredient_follows_the_draw() {
    let mut rng = ScriptedRandom::new(vec![3, 6]);
    assert_eq!(get_rand_ingredient(&mut rng), Ingredients::Tomato);
    assert_eq!(get_rand_ingredient(&mut rng), Ingredients::Meat);
}

#[test]
fn interior_retry_is_single() {
    assert_eq!(pick_interior(Ingredients::Bread, Ingredients::Meat), Ingredients::Meat);
    assert_eq!(pick_interior(Ingredients::Tomato, Ingredients::Meat), Ingredients::Tomato);
    let mut rng = ScriptedRandom::new(vec![0, 2]);
    assert_eq!(get_interior_ingredient(&mut rng), Ingredients::Meat);
    let mut rng = ScriptedRandom::new(vec![0]);
    assert_eq!(get_interior_ingredient(&mut rng), Ingredients::Bread);
}

#[test]
fn add_back_takes_the_sandwich_speed() {
    let mut s = Sandwitch::new();
    s.target.speed = 4000;
    s.add_back(Ingredients::Meat, Target::new_with_speed(10, Point::new(5, 5)));
    assert_eq!(s.ingredients, vec![Ingredients::Meat]);
    assert_eq!(s.ing_targets[0].speed, 4000);
    assert_eq!(s.ing_targets[0].get_pos_no_offset(), Point::new(5, 5));
}

#[test]
fn take_pops_the_serving_end() {
    let mut s = Sandwitch::new();
    assert!(s.take().is_none());
    s.add_back(Ingredients::Bread, Target::new());
    s.add_back(Ingredients::Tomato, Target::new());
    let (ing, _) = s.take().unwrap();
    assert_eq!(ing, Ingredients::Tomato);
    assert_eq!(s.ingredients, vec![Ingredients::Bread]);
    assert_eq!(s.ing_targets.len(), 1);
}

#[test]
fn add_prepends_near_the_anchor_with_jitter() {
    let mut s = Sandwitch::new();
    s.sw_dir = 1;
    s.target = Target::new_with_speed(4000, Point::new(300, 200));
    let mut rng = ScriptedRandom::new(vec![0, 29]);
    s.add(Ingredients::Lettuce, &mut rng);
    s.add(Ingredients::Meat, &mut rng);
    assert_eq!(s.ingredients, vec![Ingredients::Meat, Ingredients::Lettuce]);
    assert_eq!(s.ing_targets[1].get_pos_no_offset(), Point::new(285, 200 - 10 * 120));
    assert_eq!(s.ing_targets[0].get_pos_no_offset(), Point::new(314, 200 - 9 * 120));
    assert_eq!(s.ing_targets[0].speed, 4000);
    assert!(s.ing_targets[0].is_active());
}

#[test]
fn reset_leaves_one_bread_on_the_anchor() {
    let mut s = Sandwitch::new();
    s.add_back(Ingredients::Meat, Target::new());
    s.add_back(Ingredients::Lettuce, Target::new());
    s.reset();
    assert_eq!(s.ingredients, vec![Ingredients::Bread]);
    assert_eq!(s.ing_targets.len(), 1);
    assert!(s.ing_targets[0].is_active());
}

#[test]
fn clear_removes_only_settled_pairs() {
    let mut s = Sandwitch::new();
    s.add_back(Ingredients::Bread, Target::new_with_speed(1000, Point::new(10, 10)));
    let mut moving = Target::new_with_speed(1000, Point::new(10, 10));
    moving.set_target(Point::new(5000, 10));
    s.add_back(Ingredients::Meat, moving);
    s.add_back(Ingredients::Tomato, Target::new_with_speed(1000, Point::new(20, 20)));
    s.clear();
    assert_eq!(s.ingredients, vec![Ingredients::Meat]);
    assert_eq!(s.ing_targets.len(), 1);
    assert!(!s.ing_targets[0].is_active());
}

#[test]
fn retarget_stacks_each_ingredient() {
    let mut s = Sandwitch::new();
    s.add_back(Ingredients::Bread, Target::new());
    s.add_back(Ingredients::Meat, Target::new());
    s.add_back(Ingredients::Bread, Target::new());
    s.set_target(Point::new(1000, 2000));
    assert_eq!(s.target.get_target(), Point::new(1000, 2000));
    assert_eq!(s.ing_targets[0].get_target(), Point::new(1000, 2000));
    assert_eq!(s.ing_targets[1].get_target(), Point::new(1000, 1880));
    assert_eq!(s.ing_targets[2].get_target(), Point::new(1000, 1760));
}

#[test]
fn update_and_speed_reach_every_animator() {
    let mut s = Sandwitch::new();
    s.add_back(Ingredients::Bread, Target::new_with_speed(1000, Point::new(100, 100)));
    s.set_speed(2000);
    assert_eq!(s.target.speed, 2000);
    assert_eq!(s.ing_targets[0].speed, 2000);
    s.set_target(Point::new(100, 2100));
    s.update(500);
    assert_eq!(s.ing_targets[0].get_pos_no_offset(), Point::new(100, 1100));
}

#[test]
fn hand_over_moves_the_contents_out() {
    let mut s = Sandwitch::new();
    s.add_back(Ingredients::Bread, Target::new());
    s.add_back(Ingredients::Meat, Target::new());
    let carried = s.hand_over();
    assert_eq!(carried.ingredients, vec![Ingredients::Bread, Ingredients::Meat]);
    assert_eq!(s.ingredients, vec![Ingredients::Bread]);
}
