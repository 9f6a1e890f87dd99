use riven::integrator::{may_trace, path_step, Bounce, PathStep};
use riven::texture::chess_cell_is_even;

#[test]
fn zero_depth_traces_nothing_and_is_black() {
    assert!(!may_trace(0));
    assert!(!may_trace(-3));
    assert!(may_trace(1));
    assert_eq!(path_step(0, Bounce::Missed), PathStep::Black);
    assert_eq!(path_step(0, Bounce::Scattered), PathStep::Black);
}

#[test]
fn path_step_decides_each_bounce() {
    assert_eq!(path_step(3, Bounce::Missed), PathStep::Sky);
    assert_eq!(path_step(3, Bounce::Absorbed), PathStep::Black);
    assert_eq!(path_step(3, Bounce::Scattered), PathStep::Next(2));
    assert_eq!(path_step(1, Bounce::Scattered), PathStep::Next(0));
}

#[test]
fn a_path_ends_within_its_depth() {
    let mut depth = 4;
    let mut steps = 0;
    while may_trace(depth) {
        steps += 1;
        match path_step(depth, Bounce::Scattered) {
            PathStep::Next(d) => depth = d,
            other => panic!("unexpected end {:?}", other),
        }
    }
    assert_eq!(steps, 4);
}

#[test]
fn chess_cells_alternate() {
    assert!(chess_cell_is_even(0, 0, 0));
    assert!(!chess_cell_is_even(1, 0, 0));
    assert!(!chess_cell_is_even(-1, 0, 0));
    assert!(chess_cell_is_even(-1, -1, 0));
    assert!(chess_cell_is_even(i64::MAX, i64::MAX, 0));
    assert!(!chess_cell_is_even(i64::MIN, i64::MAX, 0));
}
