use naudr::{direction_at, step, step_within, Direction};

#[test]
fn each_direction_is_one_diagonal_step() {
    let n = 10;
    let index = 4 * n + 5;
    assert_eq!(step(index, n, Direction::D1), 5 * n + 6);
    assert_eq!(step(index, n, Direction::D2), 5 * n + 4);
    assert_eq!(step(index, n, Direction::D3), 3 * n + 4);
    assert_eq!(step(index, n, Direction::D4), 3 * n + 6);
}

#[test]
fn opposite_steps_undo_each_other() {
    let n = 7;
    for index in 8..41 {
        assert_eq!(step(step(index, n, Direction::D1), n, Direction::D3), index);
        assert_eq!(step(step(index, n, Direction::D2), n, Direction::D4), index);
        assert_eq!(step(step(index, n, Direction::D3), n, Direction::D1), index);
        assert_eq!(step(step(index, n, Direction::D4), n, Direction::D2), index);
    }
}

#[test]
fn steps_at_the_edge_of_the_index_range() {
    assert_eq!(step(0, 1, Direction::D2), 0);
    assert_eq!(step(0, 1, Direction::D4), 0);
    assert_eq!(step(4, 3, Direction::D3), 0);
    assert_eq!(step(2, 3, Direction::D4), 0);
    assert_eq!(step(5, 0, Direction::D1), 6);
    assert_eq!(step(5, 0, Direction::D2), 4);
    assert_eq!(step(5, 0, Direction::D3), 4);
    assert_eq!(step(5, 0, Direction::D4), 6);
    assert_eq!(step(usize::MAX - 4, 3, Direction::D1), usize::MAX);
    assert_eq!(step(usize::MAX - 2, 3, Direction::D2), usize::MAX);
}

#[test]
fn step_within_says_when_the_step_leaves_the_cells() {
    let n = 4;
    let cells = 16;
    assert_eq!(step_within(5, n, Direction::D1, cells), Some(10));
    assert_eq!(step_within(5, n, Direction::D2, cells), Some(8));
    assert_eq!(step_within(5, n, Direction::D3, cells), Some(0));
    assert_eq!(step_within(5, n, Direction::D4, cells), Some(2));

    assert_eq!(step_within(10, n, Direction::D1, cells), Some(15));
    assert_eq!(step_within(11, n, Direction::D1, cells), None);
    assert_eq!(step_within(12, n, Direction::D2, cells), Some(15));
    assert_eq!(step_within(13, n, Direction::D2, cells), None);
    assert_eq!(step_within(4, n, Direction::D3, cells), None);
    assert_eq!(step_within(3, n, Direction::D4, cells), Some(0));
    assert_eq!(step_within(2, n, Direction::D4, cells), None);

    assert_eq!(step_within(0, n, Direction::D1, 0), None);
    assert_eq!(step_within(40, n, Direction::D3, cells), None);
    assert_eq!(step_within(20, n, Direction::D3, cells), Some(15));
    assert_eq!(step_within(18, n, Direction::D4, cells), Some(15));
    assert_eq!(step_within(19, n, Direction::D4, cells), None);
    assert_eq!(step_within(usize::MAX, n, Direction::D1, usize::MAX), None);
    assert_eq!(step_within(usize::MAX, usize::MAX, Direction::D2, usize::MAX), None);
    assert_eq!(step_within(0, 0, Direction::D2, 5), None);
    assert_eq!(step_within(1, 0, Direction::D2, 5), Some(0));
    assert_eq!(step_within(5, 0, Direction::D2, 5), Some(4));
    assert_eq!(step_within(6, 0, Direction::D2, 5), None);
    assert_eq!(step_within(3, 0, Direction::D4, 5), Some(4));
    assert_eq!(step_within(4, 0, Direction::D4, 5), None);
    assert_eq!(step_within(0, 0, Direction::D4, 0), None);
}

#[test]
fn a_walk_of_radius_one_takes_no_step() {
    assert_eq!(direction_at(1, 0), Direction::D2);
}

#[test]
fn the_six_legs_of_a_walk_of_radius_three() {
    let legs: Vec<Direction> = (0..18).map(|k| direction_at(3, k)).collect();
    let mut expected = Vec::new();
    expected.extend([Direction::D1; 2]);
    expected.extend([Direction::D2; 2]);
    expected.extend([Direction::D3; 4]);
    expected.extend([Direction::D4; 4]);
    expected.extend([Direction::D1; 4]);
    expected.extend([Direction::D2; 2]);
    assert_eq!(legs, expected);
}

#[test]
fn a_walk_ends_where_its_first_leg_ended() {
    let n = 50;
    let start = 25 * n + 25;
    for radius in 1..=6u32 {
        let steps = 9 * (radius as u64 - 1);
        let mut index = start;
        let mut after_first_leg = start;
        for k in 0..steps {
            index = step(index, n, direction_at(radius, k));
            if k + 1 == radius as u64 - 1 {
                after_first_leg = index;
            }
        }
        assert_eq!(index, after_first_leg);
        assert_eq!(index, start + (radius as usize - 1) * (n + 1));
    }
}
