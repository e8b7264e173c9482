use game_of_life::cell::{Cell, Vec2};
use game_of_life::control::Command;
use game_of_life::field::Field;
use game_of_life::pattern::into_coordinates;

fn sorted_cells(field: &Field) -> Vec<(i32, i32)> {
    let mut v: Vec<(i32, i32)> = field
        .cells
        .iter()
        .map(|c| (c.position.x, c.position.y))
        .collect();
    v.sort();
    v
}

fn sorted(mut v: Vec<(i32, i32)>) -> Vec<(i32, i32)> {
    v.sort();
    v
}

#[test]
fn test_new_field() {
    let field = Field::new((10, 10), None);
    assert_eq!(field.size, Vec2::new(10, 10));
    assert!(field.cells.is_empty());
    assert!(!field.is_auto_play_enabled);
}

#[test]
fn test_add_cell() {
    let mut field = Field::new((10, 10), None);
    field.add_cell(&(5, 5));
    assert!(field.cells.contains(&Cell::new((5, 5))));
}

#[test]
fn test_remove_cell() {
    let mut field = Field::new((10, 10), None);
    field.add_cell(&(5, 5));
    field.remove_cell(&(5, 5));
    assert!(!field.cells.contains(&Cell::new((5, 5))));
}

#[test]
fn test_reset() {
    let mut field = Field::new((10, 10), None);
    field.add_cell(&(5, 5));
    field.clear();
    assert!(field.cells.is_empty());
}

#[test]
fn test_toggle_auto_step() {
    let mut field = Field::new((10, 10), None);
    assert!(!field.is_auto_play_enabled);
    field.toggle_auto_play();
    assert!(field.is_auto_play_enabled);
}

#[test]
fn test_step() {
    let mut field = Field::new(
        (10, 10),
        Some(into_coordinates(vec![vec![1, 0, 0, 0], vec![1, 0, 0, 0], vec![0, 1, 1, 1]])),
    );
    let expected_alive_positions =
        into_coordinates(vec![vec![0, 0, 0], vec![1, 0, 1], vec![0, 1, 1], vec![0, 0, 1]]);

    field.step();

    for position in expected_alive_positions {
        assert!(field.cells.contains(&Cell::new(position)));
    }
}

#[test]
fn blinker_oscillates_with_period_two() {
    let mut field = Field::new((10, 10), Some(vec![(1, 0), (1, 1), (1, 2)]));
    field.step();
    assert_eq!(sorted_cells(&field), vec![(0, 1), (1, 1), (2, 1)]);
    field.step();
    assert_eq!(sorted_cells(&field), vec![(1, 0), (1, 1), (1, 2)]);
    assert_eq!(field.step_count, 2);
}

#[test]
fn isolated_cell_dies() {
    let mut field = Field::new((10, 10), Some(vec![(5, 5)]));
    field.step();
    assert!(field.cells.is_empty());
}

#[test]
fn l_tromino_gives_birth() {
    let mut field = Field::new((10, 10), Some(vec![(0, 0), (1, 0), (0, 1)]));
    field.step();
    assert!(field.has_cell(1, 1));
    assert_eq!(sorted_cells(&field), vec![(0, 0), (0, 1), (1, 0), (1, 1)]);
}

#[test]
fn rule_on_concrete_neighbourhoods() {
    // (1, 1) alive with two living neighbours survives; (0, 0) with one dies.
    let field = Field::new((10, 10), Some(vec![(0, 0), (1, 1), (2, 2)]));
    assert!(Cell::new((1, 1)).is_next_alive(&field));
    assert!(!Cell::new((0, 0)).is_next_alive(&field));
    // A dead cell with exactly three living neighbours is born, with two it is not.
    assert!(Cell::new((2, 0)).is_next_alive(&Field::new((3, 3), Some(vec![(1, 0), (1, 1), (2, 1)]))));
    assert!(!Cell::new((0, 1)).is_next_alive(&field));
    // A living cell with four living neighbours dies.
    let crowded = Field::new((5, 5), Some(vec![(1, 1), (0, 0), (2, 0), (0, 2), (2, 2)]));
    assert!(!Cell::new((1, 1)).is_next_alive(&crowded));
}

#[test]
fn add_then_remove_restores_membership() {
    let mut field = Field::new((10, 10), Some(vec![(2, 2)]));
    field.add_cell(&(3, 3));
    field.remove_cell(&(3, 3));
    assert_eq!(sorted_cells(&field), vec![(2, 2)]);
}

#[test]
fn add_cell_is_idempotent() {
    let mut field = Field::new((10, 10), None);
    field.add_cell(&(4, 4));
    field.add_cell(&(4, 4));
    assert_eq!(field.cells.len(), 1);
}

#[test]
fn remove_absent_cell_is_noop() {
    let mut field = Field::new((10, 10), Some(vec![(1, 2)]));
    field.remove_cell(&(7, 7));
    assert_eq!(sorted_cells(&field), vec![(1, 2)]);
}

#[test]
fn second_backup_keeps_first_copy() {
    let mut field = Field::new((10, 10), Some(vec![(1, 1)]));
    field.backup();
    field.add_cell(&(2, 2));
    field.backup();
    let saved = field.backuped_cells.clone().unwrap();
    assert_eq!(saved, vec![Cell::new((1, 1))]);
}

#[test]
fn restore_after_steps_gives_back_first_state() {
    let mut field = Field::new((10, 10), Some(vec![(1, 0), (1, 1), (1, 2), (7, 7)]));
    field.step();
    field.step();
    field.step();
    assert_eq!(field.step_count, 3);
    field.restore_backup();
    assert_eq!(sorted_cells(&field), vec![(1, 0), (1, 1), (1, 2), (7, 7)]);
    assert_eq!(field.step_count, 0);
    assert!(field.backuped_cells.is_none());
}

#[test]
fn restore_without_backup_is_noop() {
    let mut field = Field::new((10, 10), Some(vec![(3, 3)]));
    field.restore_backup();
    assert_eq!(sorted_cells(&field), vec![(3, 3)]);
    assert_eq!(field.step_count, 0);
}

#[test]
fn clear_resets_everything_but_mode_and_size() {
    let mut field = Field::new((8, 6), Some(vec![(1, 0), (1, 1), (1, 2)]));
    field.step();
    field.toggle_auto_play();
    field.clear();
    assert!(field.cells.is_empty());
    assert!(field.backuped_cells.is_none());
    assert_eq!(field.step_count, 0);
    assert!(field.is_auto_play_enabled);
    assert_eq!(field.size, Vec2::new(8, 6));
}

#[test]
fn cells_beyond_window_and_negative_live_on() {
    let mut field = Field::new((3, 3), Some(vec![(-1, -5), (0, -5), (1, -5)]));
    field.step();
    assert_eq!(sorted_cells(&field), vec![(0, -6), (0, -5), (0, -4)]);
}

#[test]
fn edge_of_coordinate_range_is_handled() {
    let m = i32::MAX;
    let mut field = Field::new((3, 3), Some(vec![(m, 0), (m, 1), (m, 2)]));
    field.step();
    assert_eq!(sorted_cells(&field), vec![(m - 1, 1), (m, 1)]);
}

#[test]
fn neighbor_offsets_in_order() {
    let c = Cell::new((0, 0));
    let got: Vec<(i32, i32)> = (0..8)
        .map(|k| {
            let n = c.neighbor(k).unwrap();
            (n.position.x, n.position.y)
        })
        .collect();
    assert_eq!(
        got,
        vec![(0, -1), (1, 1), (1, 0), (1, -1), (0, 1), (-1, -1), (-1, 0), (-1, 1)]
    );
    assert!(Cell::new((i32::MIN, 0)).neighbor(5).is_none());
}

#[test]
fn into_coordinates_reads_rows() {
    assert_eq!(
        into_coordinates(vec![vec![0, 1], vec![1, 0, 1]]),
        vec![(1, 0), (0, 1), (2, 1)]
    );
    assert!(into_coordinates(vec![]).is_empty());
}

#[test]
fn commands_are_gated_by_auto_play() {
    let mut field = Field::new((10, 10), Some(vec![(1, 0), (1, 1), (1, 2)]));
    assert!(field.handle(Command::TogglePlay));
    assert!(field.is_auto_play_enabled);
    assert!(field.handle(Command::Step));
    assert!(field.handle(Command::Clear));
    assert!(field.handle(Command::Paint { x: 5, y: 5 }));
    assert_eq!(sorted_cells(&field), vec![(1, 0), (1, 1), (1, 2)]);
    assert_eq!(field.step_count, 0);
    field.tick();
    assert_eq!(field.step_count, 1);
    assert_eq!(sorted_cells(&field), vec![(0, 1), (1, 1), (2, 1)]);
    assert!(field.handle(Command::TogglePlay));
    assert!(field.handle(Command::Restore));
    assert_eq!(sorted_cells(&field), vec![(1, 0), (1, 1), (1, 2)]);
    assert!(field.handle(Command::Erase { x: 1, y: 1 }));
    assert!(field.handle(Command::Paint { x: 4, y: 4 }));
    assert_eq!(sorted_cells(&field), vec![(1, 0), (1, 2), (4, 4)]);
    field.tick();
    assert_eq!(field.step_count, 0);
    assert!(field.handle(Command::Step));
    assert_eq!(field.step_count, 1);
    assert!(field.cells.is_empty());
    assert!(!field.handle(Command::Quit));
}

#[test]
fn add_cells_adds_every_position() {
    let mut field = Field::new((10, 10), None);
    field.add_cells(vec![(1, 1), (2, 2), (1, 1)]);
    assert_eq!(sorted_cells(&field), sorted(vec![(2, 2), (1, 1)]));
}
