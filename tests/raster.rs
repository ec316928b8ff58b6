use dungeon_sweeper::raster::{draw_line, line_cell, steps_between};

fn cells(sx: usize, sy: usize, ex: usize, ey: usize) -> Vec<(usize, usize)> {
    let n = steps_between(sx, sy, ex, ey);
    (0..=n).map(|i| line_cell(sx, sy, ex, ey, i)).collect()
}

#[test]
fn steps_are_the_longer_axis_distance() {
    assert_eq!(steps_between(0, 0, 4, 2), 4);
    assert_eq!(steps_between(7, 1, 2, 9), 8);
    assert_eq!(steps_between(3, 3, 3, 3), 0);
}

#[test]
fn shallow_line_rounds_halves_up() {
    assert_eq!(cells(0, 0, 4, 2), vec![(0, 0), (1, 1), (2, 1), (3, 2), (4, 2)]);
}

#[test]
fn backward_line_visits_cells_in_order() {
    assert_eq!(cells(4, 2, 0, 0), vec![(4, 2), (3, 2), (2, 1), (1, 1), (0, 0)]);
}

#[test]
fn point_segment_is_one_cell() {
    assert_eq!(cells(5, 9, 5, 9), vec![(5, 9)]);
}

#[test]
fn lines_start_and_end_at_endpoints_and_stay_connected() {
    for (sx, sy, ex, ey) in [(0, 0, 15, 3), (15, 15, 0, 2), (3, 12, 9, 0), (1, 1, 1, 14), (6, 2, 13, 2)] {
        let c = cells(sx, sy, ex, ey);
        assert_eq!(c[0], (sx, sy));
        assert_eq!(*c.last().unwrap(), (ex, ey));
        for w in c.windows(2) {
            let dx = (w[1].0 as i64 - w[0].0 as i64).abs();
            let dy = (w[1].1 as i64 - w[0].1 as i64).abs();
            assert!(dx <= 1 && dy <= 1);
        }
    }
}

#[test]
fn draw_line_paints_only_the_path() {
    let mut canvas = vec![vec![0u8; 5]; 3];
    draw_line(&mut canvas, 0, 0, 4, 2, 7);
    assert_eq!(
        canvas,
        vec![vec![7, 0, 0, 0, 0], vec![0, 7, 7, 0, 0], vec![0, 0, 0, 7, 7]]
    );
}
