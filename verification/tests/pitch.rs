use soccer::pitch::construct_stadium;

#[test]
fn stadium_has_nineteen_rows_of_ninety_one() {
    let grid = construct_stadium();
    assert_eq!(grid.rows.len(), 19);
    for row in &grid.rows {
        assert_eq!(row.len(), 91);
    }
}

#[test]
fn stadium_top_border() {
    let grid = construct_stadium();
    let top: String = grid.rows[0].iter().collect();
    let expected = format!("┌{}┬{}┐", "─".repeat(44), "─".repeat(44));
    assert_eq!(top, expected);
}

#[test]
fn stadium_bottom_border() {
    let grid = construct_stadium();
    let bottom: String = grid.rows[18].iter().collect();
    let expected = format!("└{}┴{}┘", "─".repeat(44), "─".repeat(44));
    assert_eq!(bottom, expected);
}

#[test]
fn stadium_plain_interior_row() {
    let grid = construct_stadium();
    let mid: String = grid.rows[1].iter().collect();
    let expected = format!("│{}│{}│", " ".repeat(44), " ".repeat(44));
    assert_eq!(mid, expected);
}

#[test]
fn stadium_penalty_box_edges() {
    let grid = construct_stadium();
    let upper: String = grid.rows[5].iter().collect();
    let expected_upper = format!(
        "├──────────┐{}│{}┌──────────┤",
        " ".repeat(33),
        " ".repeat(33)
    );
    assert_eq!(upper, expected_upper);
    let side: String = grid.rows[9].iter().collect();
    let expected_side = format!(
        "│{}│{}│{}│{}│",
        " ".repeat(10),
        " ".repeat(33),
        " ".repeat(33),
        " ".repeat(10)
    );
    assert_eq!(side, expected_side);
    let lower: String = grid.rows[13].iter().collect();
    let expected_lower = format!(
        "├──────────┘{}│{}└──────────┤",
        " ".repeat(33),
        " ".repeat(33)
    );
    assert_eq!(lower, expected_lower);
}

#[test]
fn clipped_write_outside_changes_nothing() {
    let mut grid = construct_stadium();
    let fresh = construct_stadium();
    grid.set_clipped(50, 3, 'x');
    grid.set_clipped(3, 200, 'x');
    assert_eq!(grid, fresh);
}

#[test]
fn clipped_write_inside_lands() {
    let mut grid = construct_stadium();
    grid.set_clipped(2, 10, 'x');
    assert_eq!(grid.rows[2][10], 'x');
}
