use naudr::{
    decorner_once, get_accumulation, process_corners, set_bound_rows_to_zero, trim, Vmatrix,
    MAXIMUM_REDUCTIONS_DECORNERING,
};

#[test]
fn bound_rows_zero_working() {
    let sample_data_3 = vec![1, 0, 1, 1, 1, 0, 0, 0, 1];
    let sample_comp_3 = vec![0, 0, 0, 1, 1, 0, 0, 0, 0];
    let sample_data_4 = vec![1, 0, 1, 0, 1, 1, 0, 1, 1, 0, 1, 1, 0, 0, 1, 1];
    let sample_comp_4 = vec![0, 0, 0, 0, 1, 1, 0, 1, 1, 0, 1, 1, 0, 0, 0, 0];
    let sample_data_5 = vec![1, 0, 1, 0, 1, 1, 0, 1, 1, 0, 1, 1, 0, 0, 1, 1, 1, 0, 1, 1, 1, 0, 0, 0, 1];
    let sample_comp_5 = vec![0, 0, 0, 0, 0, 1, 0, 1, 1, 0, 1, 1, 0, 0, 1, 1, 1, 0, 1, 1, 0, 0, 0, 0, 0];

    let mut data_sample = Vmatrix {
        size: 3,
        data: sample_data_3,
    };
    set_bound_rows_to_zero(&mut data_sample);
    assert_eq!(data_sample.data, sample_comp_3);

    data_sample.size = 4;
    data_sample.data = sample_data_4;
    set_bound_rows_to_zero(&mut data_sample);
    assert_eq!(data_sample.data, sample_comp_4);

    data_sample.size = 5;
    data_sample.data = sample_data_5;
    set_bound_rows_to_zero(&mut data_sample);
    assert_eq!(data_sample.data, sample_comp_5);
}

#[test]
fn bound_rows_of_the_smallest_grids() {
    let mut grid = Vmatrix::build(1, vec![9]);
    set_bound_rows_to_zero(&mut grid);
    assert_eq!(grid.data, vec![0]);
    assert_eq!(grid.size, 1);

    let mut grid = Vmatrix::build(2, vec![1, 2, 3, 4]);
    set_bound_rows_to_zero(&mut grid);
    assert_eq!(grid.data, vec![0, 0, 0, 0]);
}

#[test]
fn trim_of_the_three_wide_sample() {
    let trimmed = trim(Vmatrix::build(3, vec![1, 0, 1, 1, 1, 0, 0, 0, 1]));
    assert_eq!(trimmed.size, 3);
    assert_eq!(trimmed.data, vec![0, 0, 0, 1, 1, 0, 0, 0, 0]);
}

#[test]
fn trim_of_the_four_and_five_wide_samples() {
    let trimmed = trim(Vmatrix::build(4, vec![1, 0, 1, 0, 1, 1, 0, 1, 1, 0, 1, 1, 0, 0, 1, 1]));
    assert_eq!(trimmed.data, vec![0, 0, 0, 0, 1, 1, 0, 1, 1, 0, 1, 1, 0, 0, 0, 0]);
    let trimmed = trim(Vmatrix::build(5, vec![1, 0, 1, 0, 1, 1, 0, 1, 1, 0, 1, 1, 0, 0, 1, 1, 1, 0, 1, 1, 1, 0, 0, 0, 1]));
    assert_eq!(trimmed.size, 5);
    assert_eq!(trimmed.data, vec![0, 0, 0, 0, 0, 1, 0, 1, 1, 0, 1, 1, 0, 0, 1, 1, 1, 0, 1, 1, 0, 0, 0, 0, 0]);
}

#[test]
fn trim_clears_the_first_and_the_last_row() {
    for size in 1..=8usize {
        let cells: Vec<u32> = (0..size * size).map(|i| (i % 3 + 1) as u32).collect();
        let trimmed = trim(Vmatrix::build(size, cells));
        assert_eq!(trimmed.size, size);
        assert_eq!(trimmed.data.len(), size * size);
        for i in 0..size {
            assert_eq!(trimmed.data[i], 0);
            assert_eq!(trimmed.data[size * size - 1 - i], 0);
        }
    }
}

#[test]
fn trim_marks_the_middle_of_a_solid_block() {
    let trimmed = trim(Vmatrix::build(5, vec![2; 25]));
    assert_eq!(trimmed.data, vec![0, 0, 0, 0, 0, 2, 1, 1, 1, 2, 2, 1, 1, 1, 2, 2, 1, 1, 1, 2, 0, 0, 0, 0, 0]);
}

#[test]
fn decorner_once_with_one_qualifying_cell() {
    let grid = Vmatrix::build(5, vec![3, 3, 3, 0, 0, 3, 3, 3, 0, 0, 3, 3, 3, 0, 0, 0, 0, 0, 0, 0, 0, 0, 0, 0, 0]);
    let mut two_points_in_row = true;
    let reduced = decorner_once(&grid, &mut two_points_in_row);
    assert!(!two_points_in_row);
    assert_eq!(reduced.size, 5);
    assert_eq!(reduced.data, vec![0, 0, 0, 0, 0, 3, 1, 3, 0, 0, 3, 3, 3, 0, 0, 0, 0, 0, 0, 0, 0, 0, 0, 0, 0]);
    assert_eq!(grid.data, vec![3, 3, 3, 0, 0, 3, 3, 3, 0, 0, 3, 3, 3, 0, 0, 0, 0, 0, 0, 0, 0, 0, 0, 0, 0]);
}

#[test]
fn decorner_once_with_two_qualifying_cells_in_a_row() {
    let grid = Vmatrix::build(6, vec![0, 0, 0, 0, 0, 0, 0, 5, 5, 5, 5, 0, 0, 5, 5, 5, 5, 0, 0, 5, 5, 5, 5, 0, 0, 0, 0, 0, 0, 0, 0, 0, 0, 0, 0, 0]);
    let mut two_points_in_row = false;
    let reduced = decorner_once(&grid, &mut two_points_in_row);
    assert!(two_points_in_row);
    assert_eq!(reduced.data, vec![0, 0, 0, 0, 0, 0, 0, 5, 5, 5, 5, 0, 0, 5, 1, 1, 5, 0, 0, 5, 5, 5, 5, 0, 0, 0, 0, 0, 0, 0, 0, 0, 0, 0, 0, 0]);
}

#[test]
fn qualifying_cells_above_each_other_are_no_pair() {
    let grid = Vmatrix::build(5, vec![1, 1, 1, 0, 0, 1, 1, 1, 0, 0, 1, 1, 1, 0, 0, 1, 1, 1, 0, 0, 0, 0, 0, 0, 0]);
    let mut output = Vmatrix::build(5, vec![7; 25]);
    assert!(!process_corners(&grid, &mut output));
    assert_eq!(output.data, vec![7, 7, 7, 7, 7, 7, 1, 7, 7, 7, 7, 1, 7, 7, 7, 7, 7, 7, 7, 7, 7, 7, 7, 7, 7]);
}

#[test]
fn process_corners_on_a_full_grid() {
    let grid = Vmatrix::build(7, vec![1; 49]);
    let mut output = Vmatrix::build(7, vec![4; 49]);
    assert!(process_corners(&grid, &mut output));
    assert_eq!(output.size, 7);
    assert_eq!(output.data, vec![4, 4, 4, 4, 4, 4, 4, 4, 1, 1, 1, 1, 1, 4, 4, 1, 1, 1, 1, 1, 4, 4, 1, 1, 1, 1, 1, 4, 4, 1, 1, 1, 1, 1, 4, 4, 1, 1, 1, 1, 1, 4, 4, 4, 4, 4, 4, 4, 4]);
}

#[test]
fn process_corners_on_grids_without_interior() {
    let grid = Vmatrix::build(1, vec![1]);
    let mut output = Vmatrix::build(1, vec![5]);
    assert!(!process_corners(&grid, &mut output));
    assert_eq!(output.data, vec![5]);

    let grid = Vmatrix::build(2, vec![1; 4]);
    let mut output = Vmatrix::build(2, vec![5; 4]);
    assert!(!process_corners(&grid, &mut output));
    assert_eq!(output.data, vec![5; 4]);

    let grid = Vmatrix::build(3, vec![1; 9]);
    let mut output = Vmatrix::build(3, vec![5; 9]);
    assert!(!process_corners(&grid, &mut output));
    assert_eq!(output.data, vec![5, 5, 5, 5, 1, 5, 5, 5, 5]);

    let grid = Vmatrix::build(4, vec![1; 16]);
    let mut output = Vmatrix::build(4, vec![5; 16]);
    assert!(process_corners(&grid, &mut output));
    assert_eq!(output.data, vec![5, 5, 5, 5, 5, 1, 1, 5, 5, 1, 1, 5, 5, 5, 5, 5]);
}

#[test]
fn get_accumulation_stops_after_a_reduction_without_a_pair() {
    let accumulation = get_accumulation(Vmatrix::build(5, vec![3, 3, 3, 0, 0, 3, 3, 3, 0, 0, 3, 3, 3, 0, 0, 0, 0, 0, 0, 0, 0, 0, 0, 0, 0]), MAXIMUM_REDUCTIONS_DECORNERING);
    assert_eq!(accumulation.len(), 1);
    assert_eq!(accumulation[0].size, 5);
    assert_eq!(accumulation[0].data, vec![0, 0, 0, 0, 0, 3, 1, 3, 0, 0, 3, 3, 3, 0, 0, 0, 0, 0, 0, 0, 0, 0, 0, 0, 0]);
}

#[test]
fn get_accumulation_stops_at_the_maximum() {
    assert_eq!(MAXIMUM_REDUCTIONS_DECORNERING, 10);
    let grid = vec![0, 0, 0, 0, 0, 0, 0, 5, 5, 5, 5, 0, 0, 5, 5, 5, 5, 0, 0, 5, 5, 5, 5, 0, 0, 0, 0, 0, 0, 0, 0, 0, 0, 0, 0, 0];
    let accumulation = get_accumulation(Vmatrix::build(6, grid.clone()), MAXIMUM_REDUCTIONS_DECORNERING);
    assert_eq!(accumulation.len(), 10);
    for reduced in accumulation.iter() {
        assert_eq!(reduced.size, 6);
        assert_eq!(reduced.data, vec![0, 0, 0, 0, 0, 0, 0, 5, 5, 5, 5, 0, 0, 5, 1, 1, 5, 0, 0, 5, 5, 5, 5, 0, 0, 0, 0, 0, 0, 0, 0, 0, 0, 0, 0, 0]);
    }
    assert_eq!(get_accumulation(Vmatrix::build(6, grid.clone()), 3).len(), 3);
    assert_eq!(get_accumulation(Vmatrix::build(6, grid.clone()), 1).len(), 1);
    assert_eq!(get_accumulation(Vmatrix::build(6, grid), 0).len(), 0);
}

#[test]
fn each_reduction_is_made_of_the_one_before() {
    let accumulation = get_accumulation(Vmatrix::build(7, vec![2; 49]), 4);
    assert_eq!(accumulation.len(), 4);
    assert_eq!(accumulation[0].data, vec![0, 0, 0, 0, 0, 0, 0, 2, 1, 1, 1, 1, 1, 2, 2, 1, 1, 1, 1, 1, 2, 2, 1, 1, 1, 1, 1, 2, 2, 1, 1, 1, 1, 1, 2, 2, 1, 1, 1, 1, 1, 2, 0, 0, 0, 0, 0, 0, 0]);
    let mut two_points_in_row = false;
    for k in 1..4 {
        let again = decorner_once(&accumulation[k - 1], &mut two_points_in_row);
        assert!(two_points_in_row);
        assert_eq!(accumulation[k].data, again.data);
    }
}
