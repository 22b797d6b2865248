use fw_lights::animations::spread::{from_config_at, seed, Spread, StepCosts};
use fw_lights::animations::{Animation, Frame, FrameData, FrameDuration, GrayFrame};
use fw_lights::config::SpreadAnimation;

fn settings(seeds: Vec<[u8; 3]>, stay: u8, horiz: u8, vert: u8, diag: u8) -> SpreadAnimation {
    SpreadAnimation {
        seeds,
        frame_duration: FrameDuration::from_millis(40),
        stay_cost: stay,
        horiz_cost: horiz,
        vert_cost: vert,
        diag_cost: diag,
    }
}

fn picture(cells: &[(usize, usize, u8)]) -> Frame {
    let mut gray = GrayFrame([[0; 34]; 9]);
    for &(x, y, level) in cells {
        gray.0[x][y] = level;
    }
    Frame {
        data: FrameData::Gray(gray),
        min_duration: FrameDuration::from_millis(40),
        fullscreen: false,
    }
}

#[test]
fn single_seed_is_over_at_the_third_tick() {
    let mut animation = from_config_at(settings(vec![[4, 10, 10]], 0, 5, 5, 7), 0);
    let first = animation.next().unwrap();
    assert_eq!(first, picture(&[(4, 10, 10)]));
    assert!(!first.fullscreen);
    let second = animation.next().unwrap();
    assert_eq!(
        second,
        picture(&[
            (3, 10, 5),
            (5, 10, 5),
            (4, 9, 5),
            (4, 11, 5),
            (3, 9, 3),
            (5, 9, 3),
            (3, 11, 3),
            (5, 11, 3),
        ])
    );
    assert!(!second.fullscreen);
    assert!(animation.next().is_none());
    assert!(animation.next().is_none());
}

#[test]
fn each_direction_has_its_cost() {
    let mut spread = seed(&settings(vec![[4, 10, 100]], 1, 10, 20, 30), 0);
    assert_eq!(spread.next(), Some(picture(&[(4, 10, 100)])));
    assert_eq!(
        spread.next(),
        Some(picture(&[
            (3, 10, 90),
            (5, 10, 90),
            (4, 9, 80),
            (4, 11, 80),
            (3, 9, 70),
            (5, 9, 70),
            (3, 11, 70),
            (5, 11, 70),
        ]))
    );
    let third = spread.to_frame();
    assert_eq!(third.0[4][10], 80);
    assert_eq!(third.0[2][10], 80);
    assert_eq!(third.0[6][10], 80);
    assert_eq!(third.0[4][8], 60);
    assert_eq!(third.0[4][12], 60);
    assert_eq!(third.0[3][10], 50);
    assert_eq!(third.0[3][9], 70);
    assert_eq!(third.0[2][8], 40);
    assert_eq!(third.0[1][10], 0);
}

#[test]
fn spreading_is_clipped_at_the_edges() {
    let mut spread = seed(&settings(vec![[0, 0, 9], [8, 33, 9]], 0, 1, 2, 3), 0);
    spread.next();
    assert_eq!(
        spread.next(),
        Some(picture(&[
            (1, 0, 8),
            (0, 1, 7),
            (1, 1, 6),
            (7, 33, 8),
            (8, 32, 7),
            (7, 32, 6),
        ]))
    );
}

#[test]
fn brightness_equal_to_the_cost_does_not_spread() {
    let mut spread = seed(&settings(vec![[4, 4, 5]], 0, 5, 4, 6), 0);
    spread.next();
    assert_eq!(spread.next(), Some(picture(&[(4, 3, 1), (4, 5, 1)])));
    assert_eq!(spread.next(), None);
}

#[test]
fn seeds_are_moved_and_clipped() {
    let seeds = vec![[1, 0, 10], [2, 33, 20], [3, 30, 30], [9, 5, 40], [4, 200, 50]];
    let mut down = seed(&settings(seeds.clone(), 0, 255, 255, 255), 3);
    assert_eq!(down.next(), Some(picture(&[(1, 3, 10), (3, 33, 30)])));
    assert_eq!(down.next(), None);
    let mut up = seed(&settings(seeds.clone(), 0, 255, 255, 255), -1);
    assert_eq!(up.next(), Some(picture(&[(2, 32, 20), (3, 29, 30)])));
    let mut far = seed(&settings(seeds.clone(), 0, 255, 255, 255), -128);
    assert_eq!(far.next(), None);
    let mut back = seed(&settings(vec![[4, 200, 50]], 0, 255, 255, 255), -128);
    assert_eq!(back.next(), None);
    let mut most = seed(&settings(seeds, 0, 255, 255, 255), 127);
    assert_eq!(most.next(), None);
}

#[test]
fn later_seed_on_a_cell_counts() {
    let mut spread = seed(&settings(vec![[1, 1, 10], [1, 1, 3]], 0, 255, 255, 255), 0);
    assert_eq!(spread.next(), Some(picture(&[(1, 1, 3)])));
}

#[test]
fn dark_seed_gives_one_dark_frame() {
    let mut spread = seed(&settings(vec![[1, 1, 0]], 0, 0, 0, 0), 0);
    assert!(!spread.is_empty());
    assert_eq!(spread.next(), Some(picture(&[])));
    assert!(spread.is_empty());
    assert_eq!(spread.next(), None);
}

#[test]
fn no_seed_gives_no_frame() {
    let mut animation = from_config_at(settings(vec![], 0, 1, 1, 1), 0);
    assert!(animation.next().is_none());
}

#[test]
fn free_steps_fill_the_grid_and_never_end() {
    let mut spread = seed(&settings(vec![[4, 17, 1]], 0, 0, 0, 0), 0);
    for _ in 0..40 {
        let frame = spread.next().unwrap();
        assert!(!frame.fullscreen);
        assert_eq!(frame.min_duration, FrameDuration::from_millis(40));
    }
    let frame = spread.to_frame();
    assert_eq!(frame, GrayFrame([[1; 34]; 9]));
}

#[test]
fn spread_state_is_read_and_written_by_cell() {
    let costs = StepCosts { stay: 0, horiz: 1, vert: 1, diag: 1 };
    let mut spread = Spread::new(FrameDuration::from_millis(1), costs);
    assert!(spread.is_empty());
    assert_eq!(spread.to_frame(), GrayFrame([[0; 34]; 9]));
    spread.set(34, 0, 9);
    spread.set(0, 9, 9);
    assert!(spread.is_empty());
    spread.set(33, 8, 7);
    assert!(!spread.is_empty());
    assert_eq!(spread.get(33, 8), Some(7));
    assert_eq!(spread.get(8, 33), None);
    assert_eq!(spread.get(0, 0), None);
    let mut expected = GrayFrame([[0; 34]; 9]);
    expected.0[8][33] = 7;
    assert_eq!(spread.to_frame(), expected);
    spread.set(33, 8, 2);
    assert_eq!(spread.get(33, 8), Some(2));
}

#[test]
fn step_costs_go_by_direction() {
    let costs = StepCosts { stay: 1, horiz: 2, vert: 3, diag: 4 };
    assert_eq!(costs.cost(0, 0), 1);
    assert_eq!(costs.cost(0, 1), 2);
    assert_eq!(costs.cost(0, -1), 2);
    assert_eq!(costs.cost(1, 0), 3);
    assert_eq!(costs.cost(-1, 0), 3);
    assert_eq!(costs.cost(1, 1), 4);
    assert_eq!(costs.cost(-1, 1), 4);
}

#[test]
fn animation_of_a_spread_yields_its_generations() {
    let mut animation = Animation::Spread(seed(&settings(vec![[0, 0, 2]], 0, 1, 1, 1), 0));
    assert_eq!(animation.next(), Some(picture(&[(0, 0, 2)])));
    assert_eq!(animation.next(), Some(picture(&[(1, 0, 1), (0, 1, 1), (1, 1, 1)])));
    assert_eq!(animation.next(), None);
}
