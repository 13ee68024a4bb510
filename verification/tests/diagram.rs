use soccer::LineUp;
use soccer::Player;
use soccer::layout::place_away_player;
use soccer::layout::place_home_player;
use soccer::layout::sort_players;
use soccer::pitch::construct_stadium;
use soccer::stitch::populate_stadium;

fn player(number: u8, name: &str, x_pos: u32, y_pos: u32) -> Player {
    Player {
        x_pos,
        y_pos,
        name: name.to_string(),
        number,
    }
}

fn lineup(team: &str, players: Vec<Player>) -> LineUp {
    LineUp {
        team: team.to_string(),
        players,
    }
}

#[test]
fn out_of_range_player_mutates_nothing() {
    // A reported position of 1.5/1.5 (here in thousandths) is clipped:
    // the grid stays untouched and nothing fails.
    let mut grid = construct_stadium();
    let fresh = construct_stadium();
    place_home_player(&mut grid, &player(9, "Ghost", 1500, 1500));
    assert_eq!(grid, fresh);
    place_away_player(&mut grid, &player(9, "Ghost", 1500, 1500));
    assert_eq!(grid, fresh);
}

#[test]
fn home_and_away_numbers_mirror_each_other() {
    let mut grid = construct_stadium();
    place_home_player(&mut grid, &player(9, "Nine", 500, 500));
    place_away_player(&mut grid, &player(7, "Seven", 500, 500));
    // row band: 17 * 500 / 1000 + 1 = 9; column offset: 38 * 500 / 1000 = 19.
    assert_eq!(grid.rows[9][25], '0');
    assert_eq!(grid.rows[9][26], '9');
    assert_eq!(grid.rows[9][64], '0');
    assert_eq!(grid.rows[9][65], '7');
    // the away cells are the mirror image of the home cells about column 90
    assert_eq!(64, 90 - 26);
    assert_eq!(65, 90 - 25);
}

#[test]
fn small_offset_stays_clear_of_the_border() {
    let mut grid = construct_stadium();
    place_home_player(&mut grid, &player(1, "Keeper", 0, 0));
    assert_eq!(grid.rows[1][1], '0');
    assert_eq!(grid.rows[1][2], '1');
    let mut grid2 = construct_stadium();
    place_away_player(&mut grid2, &player(1, "Keeper", 0, 0));
    assert_eq!(grid2.rows[18][88], '0');
    assert_eq!(grid2.rows[18][89], '1');
}

#[test]
fn sort_orders_by_across_then_along() {
    let mut l = lineup(
        "FC",
        vec![
            player(1, "c", 500, 900),
            player(2, "a", 100, 100),
            player(3, "b", 900, 100),
        ],
    );
    sort_players(&mut l);
    let names: Vec<&str> = l.players.iter().map(|p| p.name.as_str()).collect();
    assert_eq!(names, vec!["a", "b", "c"]);
}

#[test]
fn sort_is_stable_on_equal_positions() {
    let mut l = lineup(
        "FC",
        vec![
            player(10, "first", 400, 400),
            player(11, "second", 400, 400),
            player(1, "keeper", 0, 0),
            player(12, "third", 400, 400),
        ],
    );
    sort_players(&mut l);
    let names: Vec<&str> = l.players.iter().map(|p| p.name.as_str()).collect();
    assert_eq!(names, vec!["keeper", "first", "second", "third"]);
}

#[test]
fn sort_keeps_team_and_players() {
    let mut l = lineup("FC", vec![player(2, "x", 500, 500), player(1, "y", 0, 0)]);
    sort_players(&mut l);
    assert_eq!(l.team, "FC");
    assert_eq!(l.players.len(), 2);
    assert_eq!(l.players[0].name, "y");
    assert_eq!(l.players[1].name, "x");
}

#[test]
fn header_and_banner_have_grid_width() {
    let home = lineup("Borussia Dortmund", vec![player(9, "Nine", 500, 500)]);
    let away = lineup("Bayern Munich", vec![player(7, "Seven", 500, 500)]);
    let lines = populate_stadium(&home, &away, construct_stadium());
    for line in &lines {
        assert_eq!(line.chars().count(), 91);
    }
}

#[test]
fn header_and_banner_content() {
    let home = lineup("AAA", vec![]);
    let away = lineup("BB", vec![]);
    let lines = populate_stadium(&home, &away, construct_stadium());
    let expected_header = format!("╭─────╮{}╭────╮", " ".repeat(78));
    let expected_banner = format!("│ AAA │{}│ BB │", " ".repeat(78));
    assert_eq!(lines[0], expected_header);
    assert_eq!(lines[1], expected_banner);
}

#[test]
fn seam_row_is_patched_at_the_junctions() {
    let home = lineup("AAA", vec![]);
    let away = lineup("BB", vec![]);
    let lines = populate_stadium(&home, &away, construct_stadium());
    let seam: Vec<char> = lines[2].chars().collect();
    assert_eq!(seam[0], '├');
    assert_eq!(seam[6], '┴');
    assert_eq!(seam[85], '┴');
    assert_eq!(seam[90], '┤');
    assert_eq!(seam[45], '┬');
    assert_eq!(seam[1], '─');
}

#[test]
fn pairing_stops_at_the_shorter_roster() {
    let mut home_players = Vec::new();
    for n in 0..11u8 {
        home_players.push(player(n, "Home", (n as u32) * 90, 500));
    }
    let mut away_players = Vec::new();
    for n in 0..9u8 {
        away_players.push(player(n, "Away", (n as u32) * 90, 500));
    }
    let home = lineup("H", home_players);
    let away = lineup("A", away_players);
    let lines = populate_stadium(&home, &away, construct_stadium());
    // header + banner + 19 grid rows + one line per matched pair
    assert_eq!(lines.len(), 21 + 9);
}

#[test]
fn roster_line_layout_and_zero_padding() {
    let home = lineup("H", vec![player(5, "Alice", 500, 500)]);
    let away = lineup("A", vec![player(7, "Bob", 500, 500)]);
    let lines = populate_stadium(&home, &away, construct_stadium());
    let expected = format!("     05  Alice{}Bob  07     ", " ".repeat(65));
    assert_eq!(lines[21], expected);
    assert_eq!(lines[21].chars().count(), 91);
}

#[test]
fn rendered_diagram_shows_shirt_numbers() {
    let home = lineup("H", vec![player(5, "Alice", 500, 500)]);
    let away = lineup("A", vec![player(7, "Bob", 500, 500)]);
    let lines = populate_stadium(&home, &away, construct_stadium());
    // grid row 9 sits at line 11, after the header and banner lines
    let row: Vec<char> = lines[11].chars().collect();
    assert_eq!(row[25], '0');
    assert_eq!(row[26], '5');
    assert_eq!(row[64], '0');
    assert_eq!(row[65], '7');
}

#[test]
fn new_lineup_is_empty() {
    let l = LineUp::new();
    assert_eq!(l.team, "");
    assert_eq!(l.players.len(), 0);
}
