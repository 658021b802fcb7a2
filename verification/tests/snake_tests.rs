use rf64::boot_anim::{
    cell_to_pos, cycle_dist, get_dir, grid_dist, pos_to_cell, Dir, SnakeSim,
};
use rf64::buttons::cell_to_btn;
use rf64::led::{Color, TOTAL_LEDS};

fn count_lit(leds: &[Color; TOTAL_LEDS], c: Color) -> usize {
    (0..64).filter(|b| leds[2 * b] == c && leds[2 * b + 1] == c).count()
}

#[test]
fn cycle_positions_and_cells_are_inverse() {
    for p in 0..64u8 {
        let (r, c) = pos_to_cell(p);
        assert!(r < 8 && c < 8);
        assert_eq!(cell_to_pos(r, c), p);
    }
    assert_eq!(pos_to_cell(0), (0, 0));
    assert_eq!(pos_to_cell(8), (1, 7));
    assert_eq!(pos_to_cell(63), (1, 0));
    assert_eq!(pos_to_cell(64), (0, 0));
}

#[test]
fn cycle_is_closed_and_hamiltonian() {
    for p in 0..64u8 {
        assert_eq!(grid_dist(p, (p + 1) % 64), 1);
    }
}

#[test]
fn distances() {
    assert_eq!(cycle_dist(2, 27), 25);
    assert_eq!(cycle_dist(27, 2), 39);
    assert_eq!(cycle_dist(5, 5), 0);
    // (0,0) to (7,7)
    assert_eq!(grid_dist(0, cell_to_pos(7, 7)), 14);
}

#[test]
fn directions() {
    assert_eq!(get_dir(0, 1), Dir::Right);
    assert_eq!(get_dir(1, 0), Dir::Left);
    // (0,0) -> (1,0)
    assert_eq!(get_dir(0, 63), Dir::Up);
    // (1,0) -> (0,0)
    assert_eq!(get_dir(63, 0), Dir::Down);
}

#[test]
fn starting_frame() {
    let sim = SnakeSim::new();
    let mut leds = [Color::black(); TOTAL_LEDS];
    sim.fill_leds(&mut leds);
    let head = Color::new(0, 210, 0);
    let apple = Color::new(220, 0, 0);
    // head on cycle position 2 = cell (0, 2)
    assert_eq!(leds[2 * cell_to_btn(0, 2)], head);
    assert_eq!(leds[2 * cell_to_btn(0, 1)], Color::new(0, 100, 0));
    assert_eq!(leds[2 * cell_to_btn(0, 0)], Color::new(0, 35, 0));
    let (ar, ac) = pos_to_cell(27);
    assert_eq!(leds[2 * cell_to_btn(ar, ac) + 1], apple);
    assert_eq!(count_lit(&leds, head), 1);
    assert_eq!(count_lit(&leds, apple), 1);
}

#[test]
fn half_step_previews_and_step_commits() {
    let mut sim = SnakeSim::new();
    sim.half_step();
    let mut leds = [Color::black(); TOTAL_LEDS];
    sim.fill_leds(&mut leds);
    // the apple sits at (3, 2): the head takes the shortcut up to (1, 2),
    // whose entry LED lights up
    let nb = cell_to_btn(1, 2);
    assert_eq!(leds[2 * nb], Color::new(0, 210, 0));
    // the tail (0, 0), left by a move to the left, dims its first LED
    let tb = cell_to_btn(0, 0);
    assert_eq!(leds[2 * tb], Color::black());
    assert_eq!(leds[2 * tb + 1], Color::new(0, 35, 0));
    sim.step();
    sim.fill_leds(&mut leds);
    assert_eq!(count_lit(&leds, Color::new(0, 210, 0)), 1);
    assert_eq!(leds[2 * cell_to_btn(0, 0)], Color::black());
}

#[test]
fn long_run_never_collides_or_overflows() {
    for seed in [0u16, 1, 0x1234, 0xBEEF] {
        let mut sim = SnakeSim::new();
        sim.seed(seed);
        for _ in 0..5000 {
            sim.half_step();
            sim.step();
            let mut leds = [Color::black(); TOTAL_LEDS];
            sim.fill_leds(&mut leds);
            // one head at most (none while paused)
            assert!(count_lit(&leds, Color::new(0, 210, 0)) <= 1);
        }
    }
}

#[test]
fn reset_restores_starting_snake() {
    let mut sim = SnakeSim::new();
    for _ in 0..50 {
        sim.step();
    }
    sim.reset();
    let mut leds = [Color::black(); TOTAL_LEDS];
    sim.fill_leds(&mut leds);
    assert_eq!(leds[2 * cell_to_btn(0, 2)], Color::new(0, 210, 0));
    assert_eq!(leds[2 * cell_to_btn(0, 0)], Color::new(0, 35, 0));
}

#[test]
fn positions_wrap_modulo_the_cycle() {
    assert_eq!(cycle_dist(70, 10), 4);
    assert_eq!(grid_dist(64, 0), 0);
    assert_eq!(grid_dist(65, 2), 1);
    assert_eq!(get_dir(64, 65), Dir::Right);
}
