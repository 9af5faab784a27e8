use rosu_ur_calc::unstable_rate::replay_fits;
use rosu_ur_calc::{
    calculate_ur, calculate_ur_pruned, calculate_ur_with, hit_errors, Action, Beatmap, Config,
    ErrorStatistics, HitObject, HitObjectKind, InputError, Mods, Pos, Replay,
};

const A: (i32, i32) = (100_000, 100_000);
const B: (i32, i32) = (300_000, 200_000);

fn object(start: i64, at: (i32, i32), kind: HitObjectKind) -> HitObject {
    HitObject::new(start, Pos { x: at.0, y: at.1 }, 0, kind)
}

fn record(delta: i32, at: (i32, i32), buttons: u8) -> Action {
    Action { delta, x: at.0, y: at.1, buttons }
}

/// Circle size 4, overall difficulty 8.5, approach rate 9: the hit window is
/// 115 ms, the approach time 600 ms, the radius about 36.5 pixels.
fn map() -> Beatmap {
    Beatmap {
        cs: 4000,
        od: 8500,
        ar: 9000,
        hit_objects: vec![
            object(1000, A, HitObjectKind::Circle),
            object(1500, B, HitObjectKind::Slider { end_time: 1900 }),
            object(2000, A, HitObjectKind::Spinner { end_time: 3000 }),
            object(3500, A, HitObjectKind::Circle),
            object(4000, B, HitObjectKind::Circle),
        ],
    }
}

/// Presses at 990 (A), 1505 (B), 2000 (A, on the spinner), 3505 (A) and
/// 4110 (B).
fn records() -> Vec<Action> {
    vec![
        record(0, (256_000, 500_000), 0),
        record(-1, (256_000, 500_000), 0),
        record(-12345, (0, 0), 0),
        record(991, A, 1),
        record(20, A, 0),
        record(495, B, 10),
        record(20, B, 0),
        record(475, A, 5),
        record(20, A, 0),
        record(1485, A, 1),
        record(20, A, 0),
        record(585, B, 2),
    ]
}

fn replay(bits: u32) -> Replay {
    Replay { mods: Mods::from_bits(bits), replay_data: Some(records()) }
}

#[test]
fn errors_of_a_short_play() {
    assert_eq!(hit_errors(&map(), &replay(0), Config::default()), Ok(vec![-10, 5, 5, 110]));
}

#[test]
fn unstable_rate_of_a_short_play() {
    let expected = ErrorStatistics::new(&[-10, 5, 5, 110]).unwrap().unstable_rate;
    assert_eq!(expected, 480_234);
    assert_eq!(calculate_ur(&map(), &replay(0)), Ok(480_234));
}

#[test]
fn same_inputs_give_the_same_rate() {
    let first = calculate_ur(&map(), &replay(0));
    let second = calculate_ur(&map(), &replay(0));
    assert_eq!(first, second);
    assert_eq!(
        hit_errors(&map(), &replay(0), Config::default()),
        hit_errors(&map(), &replay(0), Config::default())
    );
}

#[test]
fn pruned_search_gives_the_same_rate() {
    for bits in [0u32, 0x2, 0x10, 0x40, 0x100, 0x240] {
        for inclusive_window in [true, false] {
            for split_double_presses in [true, false] {
                let config = Config { inclusive_window, split_double_presses };
                assert_eq!(
                    calculate_ur_pruned(&map(), &replay(bits), config),
                    calculate_ur_with(&map(), &replay(bits), config)
                );
            }
        }
    }
}

#[test]
fn rate_modifiers_change_nothing() {
    let plain = calculate_ur(&map(), &replay(0));
    assert_eq!(calculate_ur(&map(), &replay(0x40)), plain);
    assert_eq!(calculate_ur(&map(), &replay(0x100)), plain);
    assert_eq!(calculate_ur(&map(), &replay(0x240)), plain);
    assert_eq!(calculate_ur(&map(), &replay(0x8)), plain);
}

#[test]
fn hard_rock_narrows_the_hit_window() {
    assert_eq!(hit_errors(&map(), &replay(0x10), Config::default()), Ok(vec![-10, 5, 5]));
    assert_eq!(hit_errors(&map(), &replay(0x50), Config::default()), Ok(vec![-10, 5, 5]));
}

#[test]
fn easy_widens_the_hit_window() {
    let mut data = records();
    data.push(record(20, B, 0));
    data.push(record(0, B, 2));
    let late = Replay { mods: Mods::from_bits(0x2), replay_data: Some(data.clone()) };
    let mut objects = map();
    objects.hit_objects.truncate(4);
    objects.hit_objects.push(object(3975, B, HitObjectKind::Circle));
    assert_eq!(hit_errors(&objects, &late, Config::default()), Ok(vec![-10, 5, 5, 135]));
    let plain = Replay { mods: Mods::from_bits(0), replay_data: Some(data) };
    assert_eq!(hit_errors(&objects, &plain, Config::default()), Ok(vec![-10, 5, 5]));
}

#[test]
fn late_edge_counts_only_under_the_inclusive_window() {
    let mut objects = map();
    objects.hit_objects[4] = object(3995, B, HitObjectKind::Circle);
    let inclusive = Config { inclusive_window: true, split_double_presses: false };
    let exclusive = Config { inclusive_window: false, split_double_presses: false };
    assert_eq!(hit_errors(&objects, &replay(0), inclusive), Ok(vec![-10, 5, 5, 115]));
    assert_eq!(hit_errors(&objects, &replay(0), exclusive), Ok(vec![-10, 5, 5]));
}

#[test]
fn split_double_press_can_hit_two_objects() {
    let objects = Beatmap {
        cs: 4000,
        od: 8500,
        ar: 9000,
        hit_objects: vec![
            object(1000, A, HitObjectKind::Circle),
            object(1010, A, HitObjectKind::Circle),
        ],
    };
    let data = vec![record(1004, A, 3)];
    let both = Replay { mods: Mods::from_bits(0), replay_data: Some(data) };
    let single = Config { inclusive_window: true, split_double_presses: false };
    let split = Config { inclusive_window: true, split_double_presses: true };
    assert_eq!(hit_errors(&objects, &both, single), Ok(vec![4]));
    assert_eq!(hit_errors(&objects, &both, split), Ok(vec![4, -6]));
    assert_eq!(calculate_ur_with(&objects, &both, single), Ok(0));
    assert_eq!(calculate_ur_with(&objects, &both, split), Ok(50_000));
}

#[test]
fn replay_without_input_track_has_no_rate() {
    let replay = Replay { mods: Mods::from_bits(0), replay_data: None };
    assert_eq!(calculate_ur(&map(), &replay), Err(InputError::MissingReplayData));
    assert_eq!(
        calculate_ur_pruned(&map(), &replay, Config::default()),
        Err(InputError::MissingReplayData)
    );
    assert_eq!(
        hit_errors(&map(), &replay, Config::default()),
        Err(InputError::MissingReplayData)
    );
}

#[test]
fn play_without_a_hit_has_no_rate() {
    let idle = Replay {
        mods: Mods::from_bits(0),
        replay_data: Some(vec![record(1000, A, 0), record(1000, B, 0)]),
    };
    assert_eq!(calculate_ur(&map(), &idle), Err(InputError::EmptyHitErrorSet));
    assert_eq!(hit_errors(&map(), &idle, Config::default()), Ok(vec![]));
    let astray = Replay {
        mods: Mods::from_bits(0),
        replay_data: Some(vec![record(1000, B, 1), record(500, A, 2)]),
    };
    assert_eq!(calculate_ur(&map(), &astray), Err(InputError::EmptyHitErrorSet));
    let empty_map = Beatmap { cs: 4000, od: 8500, ar: 9000, hit_objects: vec![] };
    assert_eq!(calculate_ur(&empty_map, &replay(0)), Err(InputError::EmptyHitErrorSet));
}

#[test]
fn press_under_a_long_stacked_slider_is_dropped() {
    let objects = Beatmap {
        cs: 4000,
        od: 5000,
        ar: 9000,
        hit_objects: vec![
            HitObject::new(0, Pos { x: A.0, y: A.1 }, 1, HitObjectKind::Slider { end_time: 3900 }),
            object(4000, A, HitObjectKind::Circle),
        ],
    };
    let one = Replay { mods: Mods::from_bits(0), replay_data: Some(vec![record(4000, A, 1)]) };
    assert_eq!(hit_errors(&objects, &one, Config::default()), Ok(vec![]));
    assert_eq!(calculate_ur(&objects, &one), Err(InputError::EmptyHitErrorSet));
    assert_eq!(
        calculate_ur_pruned(&objects, &one, Config::default()),
        Err(InputError::EmptyHitErrorSet)
    );
    let late = Replay { mods: Mods::from_bits(0), replay_data: Some(vec![record(4141, A, 1)]) };
    assert_eq!(hit_errors(&objects, &late, Config::default()), Ok(vec![141]));
    assert_eq!(calculate_ur(&objects, &late), Ok(0));
}

#[test]
fn input_tracks_of_ordinary_length_fit() {
    assert!(replay_fits(&replay(0)));
    assert!(replay_fits(&Replay { mods: Mods::from_bits(0), replay_data: None }));
}
