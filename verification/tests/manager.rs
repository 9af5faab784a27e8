use rosu_ur_calc::{
    Beatmap, ClickAction, Config, Hit, HitFrame, HitObject, HitObjectKind, HitObjectManager,
    HitParams, Mods, Pos, Ruleset,
};

const A: Pos = Pos { x: 100_000, y: 100_000 };
const B: Pos = Pos { x: 300_000, y: 100_000 };

fn rules() -> HitParams {
    HitParams { radius_sq: 1_024_839_852, hit_window_50: 150, preempt: 600, inclusive: true }
}

fn circle(start: i64, pos: Pos) -> HitObject {
    HitObject::new(start, pos, 0, HitObjectKind::Circle)
}

fn row() -> Vec<HitObject> {
    vec![circle(0, A), circle(1000, B), circle(1000, A), circle(1600, B), circle(3000, A)]
}

#[test]
fn new_manager_has_nothing_hit_and_an_empty_window() {
    let objects = row();
    let manager = HitObjectManager::with_params(&objects, rules());
    assert_eq!(manager.consumed(), &vec![false; 5]);
    assert_eq!(manager.hit_objects_minimal().len(), 0);
    assert_eq!(manager.get_params(), rules());
}

#[test]
fn manager_takes_its_parameters_from_the_beatmap() {
    let map = Beatmap { cs: 4000, od: 8500, ar: 9300, hit_objects: row() };
    let manager = HitObjectManager::new(&map, Mods::from_bits(0), Config::default());
    assert_eq!(
        manager.get_params(),
        HitParams { radius_sq: 1_331_881_871, hit_window_50: 115, preempt: 555, inclusive: true }
    );
    let hard = HitObjectManager::new(&map, Mods::from_bits(0x10), Config::default());
    assert_eq!(
        hard.get_params(),
        HitParams { radius_sq: 968_252_294, hit_window_50: 100, preempt: 450, inclusive: true }
    );
}

#[test]
fn window_holds_the_objects_within_the_approach_time() {
    let objects = row();
    let mut manager = HitObjectManager::with_params(&objects, rules());
    manager.update(1000);
    assert_eq!(manager.hit_objects_minimal(), &objects[1..4]);
    manager.update(400);
    assert_eq!(manager.hit_objects_minimal(), &objects[0..3]);
    manager.update(399);
    assert_eq!(manager.hit_objects_minimal(), &objects[0..1]);
    manager.update(601);
    assert_eq!(manager.hit_objects_minimal(), &objects[1..3]);
    manager.update(2200);
    assert_eq!(manager.hit_objects_minimal(), &objects[3..4]);
    manager.update(2201);
    assert_eq!(manager.hit_objects_minimal(), &objects[5..5]);
    manager.update(2400);
    assert_eq!(manager.hit_objects_minimal(), &objects[4..5]);
    manager.update(-601);
    assert_eq!(manager.hit_objects_minimal(), &objects[0..0]);
    manager.update(3601);
    assert_eq!(manager.hit_objects_minimal(), &objects[5..5]);
}

#[test]
fn visible_range_names_the_ends_of_the_window() {
    let objects = row();
    let manager = HitObjectManager::with_params(&objects, rules());
    assert_eq!(manager.visible_range(1000), (1, 4));
    assert_eq!(manager.visible_range(400), (0, 3));
    assert_eq!(manager.visible_range(399), (0, 1));
    assert_eq!(manager.visible_range(2201), (4, 4));
    assert_eq!(manager.visible_range(-601), (0, 0));
    assert_eq!(manager.visible_range(3601), (5, 5));
    assert_eq!(manager.visible_range(i64::MAX), (5, 5));
    assert_eq!(manager.visible_range(i64::MIN), (0, 0));
    assert_eq!(manager.hit_objects_minimal().len(), 0);
}

#[test]
fn window_is_empty_under_a_negative_approach_time() {
    let objects = row();
    let p = HitParams { preempt: -1, ..rules() };
    let mut manager = HitObjectManager::with_params(&objects, p);
    manager.update(1000);
    assert_eq!(manager.hit_objects_minimal().len(), 0);
}

#[test]
fn find_gives_the_place_in_the_window() {
    let objects = row();
    let mut manager = HitObjectManager::with_params(&objects, rules());
    manager.update(1000);
    let at_a = HitFrame { time: 1000, pos: A };
    let at_b = HitFrame { time: 1000, pos: B };
    assert_eq!(manager.find_circle_at(&at_a), Some((1, &objects[2])));
    assert_eq!(manager.find_circle_at(&at_b), Some((0, &objects[1])));
    assert_eq!(manager.index_of(1), 2);
    let nowhere = HitFrame { time: 1000, pos: Pos { x: 0, y: 0 } };
    assert_eq!(manager.find_circle_at(&nowhere), None);
}

#[test]
fn find_passes_over_objects_that_are_hit() {
    let objects = row();
    let mut manager = HitObjectManager::with_params(&objects, rules());
    manager.update(1000);
    let at_b = HitFrame { time: 1010, pos: B };
    assert_eq!(manager.find_circle_at(&at_b), Some((0, &objects[1])));
    assert!(!manager.is_hit(0));
    manager.hit(0);
    assert!(manager.is_hit(0));
    assert_eq!(manager.consumed(), &vec![false, true, false, false, false]);
    assert_eq!(manager.find_circle_at(&at_b), Some((2, &objects[3])));
    manager.hit(2);
    assert_eq!(manager.consumed(), &vec![false, true, false, true, false]);
    assert_eq!(manager.find_circle_at(&at_b), None);
}

#[test]
fn rules_tell_hit_shake_and_ignore_apart() {
    let objects = vec![
        circle(1000, A),
        HitObject::new(1100, B, 1, HitObjectKind::Circle),
        circle(1200, A),
    ];
    let mut manager = HitObjectManager::with_params(&objects, rules());
    let first = HitFrame { time: 1000, pos: A };
    manager.update(1000);
    assert_eq!(Ruleset::check_click_action(&objects[0], 0, &first, &manager), ClickAction::Hit);
    assert_eq!(Ruleset::check_click_action(&objects[1], 1, &first, &manager), ClickAction::Shake);
    assert_eq!(Ruleset::check_click_action(&objects[2], 2, &first, &manager), ClickAction::Ignore);
    manager.hit(0);
    assert_eq!(Ruleset::check_click_action(&objects[1], 1, &first, &manager), ClickAction::Hit);
    manager.hit(1);
    assert_eq!(Ruleset::check_click_action(&objects[2], 2, &first, &manager), ClickAction::Hit);
}

#[test]
fn rules_look_at_the_object_before_in_the_whole_list() {
    let objects = vec![
        HitObject::new(0, A, 1, HitObjectKind::Slider { end_time: 3900 }),
        HitObject::new(4000, A, 0, HitObjectKind::Slider { end_time: 4500 }),
        circle(4100, B),
    ];
    let mut manager = HitObjectManager::with_params(&objects, rules());
    let frame = HitFrame { time: 4000, pos: A };
    manager.update(4000);
    assert_eq!(manager.visible_range(4000), (1, 3));
    assert_eq!(manager.previous(0), Some((&objects[0], false)));
    assert_eq!(manager.previous(1), Some((&objects[1], false)));
    assert_eq!(Ruleset::check_click_action(&objects[1], 0, &frame, &manager), ClickAction::Ignore);
    let faded = HitFrame { time: 4141, pos: A };
    manager.update(4141);
    assert_eq!(Ruleset::check_click_action(&objects[1], 0, &faded, &manager), ClickAction::Hit);
}

#[test]
fn first_object_of_all_has_none_before_it() {
    let objects = row();
    let mut manager = HitObjectManager::with_params(&objects, rules());
    manager.update(0);
    assert_eq!(manager.previous(0), None);
    manager.update(1000);
    assert_eq!(manager.previous(0), Some((&objects[0], false)));
    manager.hit(0);
    assert_eq!(manager.previous(1), Some((&objects[1], true)));
}

#[test]
fn rules_hold_on_a_window_that_is_not_the_view() {
    let objects = vec![
        circle(1000, A),
        HitObject::new(1100, B, 1, HitObjectKind::Circle),
        circle(1200, A),
    ];
    let mut manager = HitObjectManager::with_params(&objects, rules());
    manager.update(1000);
    let later = HitFrame { time: 1160, pos: A };
    assert_eq!(Ruleset::check_click_action(&objects[1], 1, &later, &manager), ClickAction::Hit);
    assert_eq!(Ruleset::check_click_action(&objects[2], 2, &later, &manager), ClickAction::Ignore);
    let faded = HitFrame { time: 1341, pos: A };
    assert_eq!(Ruleset::check_click_action(&objects[2], 2, &faded, &manager), ClickAction::Hit);
}

#[test]
fn hitting_twice_is_hitting_once() {
    let objects = row();
    let mut manager = HitObjectManager::with_params(&objects, rules());
    manager.update(1000);
    manager.hit(1);
    assert_eq!(manager.consumed(), &vec![false, false, true, false, false]);
    manager.hit(1);
    assert_eq!(manager.consumed(), &vec![false, false, true, false, false]);
    assert_eq!(manager.visible_range(1000), (1, 4));
    assert_eq!(manager.hit_objects_minimal(), &objects[1..4]);
    manager.hit(0);
    manager.hit(2);
    assert_eq!(manager.consumed(), &vec![false, true, true, true, false]);
}

#[test]
fn rules_shake_a_press_out_of_the_hittable_range() {
    let objects = vec![circle(1000, A)];
    let mut manager = HitObjectManager::with_params(&objects, rules());
    let early = HitFrame { time: 600, pos: A };
    manager.update(600);
    assert_eq!(Ruleset::check_click_action(&objects[0], 0, &early, &manager), ClickAction::Shake);
    let just = HitFrame { time: 601, pos: A };
    manager.update(601);
    assert_eq!(Ruleset::check_click_action(&objects[0], 0, &just, &manager), ClickAction::Hit);
}

#[test]
fn press_marks_the_object_and_names_it() {
    let objects = row();
    let mut manager = HitObjectManager::with_params(&objects, rules());
    assert_eq!(manager.press(&HitFrame { time: 1004, pos: Pos { x: 0, y: 0 } }), None);
    assert_eq!(manager.consumed(), &vec![false; 5]);
    assert_eq!(manager.press(&HitFrame { time: 1004, pos: A }), Some(Hit { target: 2, error: 4 }));
    assert_eq!(manager.consumed(), &vec![false, false, true, false, false]);
    assert_eq!(manager.press(&HitFrame { time: 996, pos: B }), Some(Hit { target: 1, error: -4 }));
    assert_eq!(manager.consumed(), &vec![false, true, true, false, false]);
    assert_eq!(manager.press(&HitFrame { time: 1005, pos: A }), None);
    assert_eq!(manager.press(&HitFrame { time: 1005, pos: B }), None);
    assert_eq!(manager.consumed(), &vec![false, true, true, false, false]);
}

#[test]
fn object_tells_what_it_is() {
    let c = circle(5, A);
    let s = HitObject::new(6, B, 2, HitObjectKind::Slider { end_time: 90 });
    let w = HitObject::new(7, A, 0, HitObjectKind::Spinner { end_time: 80 });
    assert!(c.is_normal() && !c.is_slider() && !c.is_spinner());
    assert!(!s.is_normal() && s.is_slider() && !s.is_spinner());
    assert!(!w.is_normal() && !w.is_slider() && w.is_spinner());
    assert_eq!(c.slider_end_time(), None);
    assert_eq!(s.slider_end_time(), Some(90));
    assert_eq!(w.slider_end_time(), None);
    assert_eq!((s.start_time(), s.pos(), s.stack_count()), (6, B, 2));
}

#[test]
fn object_is_on_screen_from_its_approach_to_its_fade_out() {
    let c = circle(1000, A);
    assert!(!c.is_visible(399, 600));
    assert!(c.is_visible(400, 600));
    assert!(c.is_visible(1240, 600));
    assert!(!c.is_visible(1241, 600));
    let s = HitObject::new(1000, A, 0, HitObjectKind::Slider { end_time: 2000 });
    assert!(!s.is_visible(399, 600));
    assert!(s.is_visible(400, 600));
    assert!(s.is_visible(2240, 600));
    assert!(!s.is_visible(2241, 600));
    let w = HitObject::new(1000, A, 0, HitObjectKind::Spinner { end_time: 2000 });
    assert!(!w.is_visible(599, 600));
    assert!(w.is_visible(600, 600));
    assert!(w.is_visible(2000, 600));
    assert!(!w.is_visible(2001, 600));
}

#[test]
fn hit_test_asks_for_time_place_and_a_fresh_object() {
    let c = circle(1000, A);
    let p = rules();
    assert!(c.hit_test(false, &HitFrame { time: 1000, pos: A }, &p));
    assert!(!c.hit_test(true, &HitFrame { time: 1000, pos: A }, &p));
    assert!(!c.hit_test(false, &HitFrame { time: 1000, pos: B }, &p));
    assert!(c.hit_test(false, &HitFrame { time: 400, pos: A }, &p));
    assert!(!c.hit_test(false, &HitFrame { time: 399, pos: A }, &p));
    assert!(c.hit_test(false, &HitFrame { time: 1150, pos: A }, &p));
    assert!(!c.hit_test(false, &HitFrame { time: 1151, pos: A }, &p));
    let w = HitObject::new(1000, A, 0, HitObjectKind::Spinner { end_time: 2000 });
    assert!(!w.hit_test(false, &HitFrame { time: 1000, pos: A }, &p));
}

#[test]
fn hittable_range_is_open_at_both_ends() {
    let c = circle(1000, A);
    assert!(c.in_hittable_range(601));
    assert!(!c.in_hittable_range(600));
    assert!(c.in_hittable_range(1399));
    assert!(!c.in_hittable_range(1400));
}

#[test]
fn beatmap_is_well_formed_when_its_objects_are_in_order() {
    let ordered = Beatmap { cs: 4000, od: 8000, ar: 9000, hit_objects: row() };
    assert!(ordered.is_well_formed());
    let empty = Beatmap { cs: 4000, od: 8000, ar: 9000, hit_objects: vec![] };
    assert!(empty.is_well_formed());
    let mut objects = row();
    objects.swap(3, 4);
    let disordered = Beatmap { cs: 4000, od: 8000, ar: 9000, hit_objects: objects };
    assert!(!disordered.is_well_formed());
}
