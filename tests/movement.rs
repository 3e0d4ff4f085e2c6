use treasure_map::element::{Element, Orientation, RawAdventurer, RawMap, RawMountain, RawTreasure};
use treasure_map::grid::Grid;
use treasure_map::movement::{get_sequence, update_adventurer, update_position};

const ROW_SIZE_MAP: usize = 3;
const COL_SIZE_MAP: usize = 4;

fn init_mock_map() -> Grid {
    let content = vec![
        Element::RawMap(RawMap::new(4, 4)),
        Element::RawAdventurer(RawAdventurer::new(
            "Lara".to_string(),
            4,
            4,
            Orientation::South,
            "AA".to_string(),
        )),
        Element::RawTreasure(RawTreasure::new(0, 1, 2)),
        Element::RawMountain(RawMountain::new(2, 3)),
        Element::RawMountain(RawMountain::new(1, 1)),
    ];
    Grid::new(ROW_SIZE_MAP, COL_SIZE_MAP, content)
}

fn lara(x: usize, y: usize, orientation: Orientation, pattern: &str) -> RawAdventurer {
    RawAdventurer::new("Lara".to_string(), x, y, orientation, pattern.to_string())
}

#[test]
fn should_adventurer_move_to_next_position() {
    let mut mock_map = init_mock_map();
    let fake_adventurer = lara(0, 0, Orientation::East, "A");
    let result_adventurer = update_position(&mut mock_map, fake_adventurer, 1, 0);
    let expected_adventurer = lara(1, 0, Orientation::East, "A");
    assert_eq!(expected_adventurer, result_adventurer)
}

#[test]
fn should_adventurer_get_treasure_when_move_to_treasure_position() {
    let mut mock_map = init_mock_map();
    let fake_adventurer = lara(0, 0, Orientation::South, "A");
    let result_adventurer = update_position(&mut mock_map, fake_adventurer, 0, 1);
    let mut expected_adventurer = lara(0, 1, Orientation::South, "A");
    expected_adventurer = expected_adventurer.update_treasure();
    assert_eq!(expected_adventurer, result_adventurer);
    assert_eq!(mock_map.elements[0][1], Element::RawTreasure(RawTreasure::new(0, 1, 1)));
}

#[test]
fn should_adventurer_do_nothing_when_moving_to_mountain_position() {
    let mut mock_map = init_mock_map();
    let fake_adventurer = lara(1, 0, Orientation::South, "A");
    let result_adventurer = update_position(&mut mock_map, fake_adventurer, 0, 1);
    let expected_adventurer = lara(1, 0, Orientation::South, "A");
    assert_eq!(expected_adventurer, result_adventurer);
}

#[test]
fn should_adventurer_not_move_when_next_position_x_is_oustide_map() {
    let mut mock_map = init_mock_map();
    let fake_adventurer = lara(2, 0, Orientation::South, "A");
    let result_adventurer = update_position(&mut mock_map, fake_adventurer, 1, 0);
    let expected_adventurer = lara(2, 0, Orientation::South, "A");
    assert_eq!(expected_adventurer, result_adventurer);
}

#[test]
fn should_adventurer_not_move_when_next_position_y_is_oustide_map() {
    let mut mock_map = init_mock_map();
    let fake_adventurer = lara(0, 3, Orientation::South, "A");
    let result_adventurer = update_position(&mut mock_map, fake_adventurer, 0, 1);
    let expected_adventurer = lara(0, 3, Orientation::South, "A");
    assert_eq!(expected_adventurer, result_adventurer);
}

#[test]
fn should_adventurer_not_move_below_zero() {
    let mut mock_map = init_mock_map();
    let result_adventurer = update_position(&mut mock_map, lara(0, 0, Orientation::West, "A"), -1, 0);
    assert_eq!(result_adventurer, lara(0, 0, Orientation::West, "A"));
}

#[test]
fn should_get_adeventurer_action_sequence() {
    let sequence = "DADG";
    let result = get_sequence(sequence);
    let expected = ('D', vec!['A', 'D', 'G']);
    assert_eq!(expected, result);
}

#[test]
fn should_get_single_action_sequence() {
    assert_eq!(get_sequence("A"), ('A', vec![]));
}

#[test]
fn should_adventurer_not_change_orientation_when_move() {
    let cases = [
        (Orientation::North, (0, 0), (0, 0)),
        (Orientation::South, (1, 2), (1, 3)),
        (Orientation::West, (0, 0), (0, 0)),
        (Orientation::East, (0, 0), (1, 0)),
    ];
    for (orientation, coordinates, expected_coordinates) in cases {
        let mut mock_map = init_mock_map();
        let fake_adventurer = lara(coordinates.0, coordinates.1, orientation, "AG");
        let adventurer_result = update_adventurer(fake_adventurer, &mut mock_map);
        let expected_adventurer = lara(expected_coordinates.0, expected_coordinates.1, orientation, "G");
        assert_eq!(expected_adventurer, adventurer_result);
    }
}

#[test]
fn should_adventurer_change_orientation_when_adventurer_turn_to_left() {
    let cases = [
        (Orientation::North, Orientation::West),
        (Orientation::South, Orientation::East),
        (Orientation::West, Orientation::South),
        (Orientation::East, Orientation::North),
    ];
    for (orientation, expected_orientation) in cases {
        let mut mock_map = init_mock_map();
        let adventurer_result = update_adventurer(lara(0, 0, orientation, "GA"), &mut mock_map);
        assert_eq!(lara(0, 0, expected_orientation, "A"), adventurer_result);
    }
}

#[test]
fn should_adventurer_change_orientation_when_adventurer_turn_to_right() {
    let cases = [
        (Orientation::North, Orientation::East),
        (Orientation::South, Orientation::West),
        (Orientation::West, Orientation::North),
        (Orientation::East, Orientation::South),
    ];
    for (orientation, expected_orientation) in cases {
        let mut mock_map = init_mock_map();
        let adventurer_result = update_adventurer(lara(0, 0, orientation, "DA"), &mut mock_map);
        assert_eq!(lara(0, 0, expected_orientation, "A"), adventurer_result);
    }
}

#[test]
fn should_advance_along_the_displacement_table() {
    let mut board = Grid::new(4, 4, vec![]);
    let north = update_adventurer(lara(2, 2, Orientation::North, "A"), &mut board);
    assert_eq!(north.position, (2, 1));
    let east = update_adventurer(lara(2, 2, Orientation::East, "A"), &mut board);
    assert_eq!(east.position, (3, 2));
    let south = update_adventurer(lara(2, 2, Orientation::South, "A"), &mut board);
    assert_eq!(south.position, (2, 3));
    let west = update_adventurer(lara(2, 2, Orientation::West, "A"), &mut board);
    assert_eq!(west.position, (1, 2));
    assert_eq!(west.orientation, Orientation::West);
}

#[test]
fn should_use_up_command_when_blocked_by_mountain() {
    let mut mock_map = init_mock_map();
    let result = update_adventurer(lara(1, 0, Orientation::South, "A"), &mut mock_map);
    assert_eq!(result.position, (1, 0));
    assert_eq!(result.pattern, "");
}

#[test]
fn should_use_up_command_when_blocked_by_edge() {
    let mut mock_map = init_mock_map();
    let result = update_adventurer(lara(2, 3, Orientation::East, "AD"), &mut mock_map);
    assert_eq!(result.position, (2, 3));
    assert_eq!(result.pattern, "D");
}

#[test]
fn should_collect_treasure_when_advancing_onto_it() {
    let mut mock_map = init_mock_map();
    let result = update_adventurer(lara(0, 0, Orientation::South, "AA"), &mut mock_map);
    assert_eq!(result.position, (0, 1));
    assert_eq!(result.treasure, 1);
    assert_eq!(result.pattern, "A");
    assert_eq!(mock_map.elements[0][1], Element::RawTreasure(RawTreasure::new(0, 1, 1)));
}

#[test]
fn should_ignore_unknown_command() {
    let mut mock_map = init_mock_map();
    let result = update_adventurer(lara(0, 0, Orientation::East, "XA"), &mut mock_map);
    assert_eq!(result, lara(0, 0, Orientation::East, "A"));
}

#[test]
fn should_not_collect_when_turning_on_treasure() {
    let mut mock_map = init_mock_map();
    let before = init_mock_map().elements;
    let result = update_adventurer(lara(0, 1, Orientation::North, "GD"), &mut mock_map);
    assert_eq!(result, lara(0, 1, Orientation::West, "D"));
    let result = update_adventurer(result, &mut mock_map);
    assert_eq!(result, lara(0, 1, Orientation::North, ""));
    assert_eq!(mock_map.elements, before);
}

#[test]
fn should_not_collect_on_unknown_command_on_treasure() {
    let mut mock_map = init_mock_map();
    let before = init_mock_map().elements;
    let result = update_adventurer(lara(0, 1, Orientation::East, "X"), &mut mock_map);
    assert_eq!(result, lara(0, 1, Orientation::East, ""));
    assert_eq!(mock_map.elements, before);
}

#[test]
fn should_walk_over_exhausted_treasure() {
    let mut board = Grid::new(1, 2, vec![Element::RawTreasure(RawTreasure::new(0, 1, 0))]);
    let result = update_adventurer(lara(0, 0, Orientation::South, "A"), &mut board);
    assert_eq!(result.position, (0, 1));
    assert_eq!(result.treasure, 0);
    assert_eq!(board.elements[0][1], Element::RawTreasure(RawTreasure::new(0, 1, 0)));
}
