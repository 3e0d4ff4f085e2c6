use treasure_map::element::{Element, Empty, Orientation, RawAdventurer, RawMap, RawMountain, RawTreasure};
use treasure_map::grid::Grid;

const ROW_SIZE_MAP: usize = 3;
const COL_SIZE_MAP: usize = 4;

fn init_mock_map() -> Grid {
    let content = vec![
        Element::RawMap(RawMap::new(4, 4)),
        Element::RawAdventurer(RawAdventurer::new(
            "Lara".to_string(),
            4,
            4,
            Orientation::South,
            "AA".to_string(),
        )),
        Element::RawTreasure(RawTreasure::new(0, 1, 2)),
        Element::RawMountain(RawMountain::new(2, 3)),
        Element::RawMountain(RawMountain::new(1, 1)),
    ];
    Grid::new(ROW_SIZE_MAP, COL_SIZE_MAP, content)
}

fn empty_cells(rows: usize, cols: usize) -> Vec<Vec<Element>> {
    (0..rows)
        .map(|row| (0..cols).map(|col| Element::Empty(Empty::new(row, col))).collect())
        .collect()
}

#[test]
fn should_create_new_map() {
    let my_map = init_mock_map();
    let mut expect = empty_cells(ROW_SIZE_MAP, COL_SIZE_MAP);
    expect[0][1] = Element::RawTreasure(RawTreasure::new(0, 1, 2));
    expect[2][3] = Element::RawMountain(RawMountain::new(2, 3));
    expect[1][1] = Element::RawMountain(RawMountain::new(1, 1));
    assert_eq!(my_map.elements, expect);
    assert_eq!(my_map.rows, ROW_SIZE_MAP);
    assert_eq!(my_map.cols, COL_SIZE_MAP);
}

#[test]
fn should_let_later_terrain_replace_earlier_on_same_cell() {
    let content = vec![
        Element::RawMountain(RawMountain::new(1, 1)),
        Element::RawTreasure(RawTreasure::new(1, 1, 3)),
    ];
    let my_map = Grid::new(2, 2, content);
    assert_eq!(my_map.elements[1][1], Element::RawTreasure(RawTreasure::new(1, 1, 3)));
}

#[test]
fn should_build_empty_board_without_cells() {
    let my_map = Grid::new(0, 0, vec![]);
    assert!(my_map.elements.is_empty());
}

#[test]
fn should_update_nb_treasure_when_element_at_position_x_y_is_treasure() {
    let mut my_map = init_mock_map();
    Grid::update_position(&mut my_map, 0, 1);
    let mut expect: Vec<Vec<Element>> = init_mock_map().elements;
    expect[0][1] = Element::RawTreasure(RawTreasure::new(0, 1, 1));
    assert_eq!(my_map.elements, expect);
}

#[test]
fn should_not_take_from_exhausted_treasure() {
    let mut my_map = Grid::new(1, 1, vec![Element::RawTreasure(RawTreasure::new(0, 0, 1))]);
    my_map.update_position(0, 0);
    assert_eq!(my_map.elements[0][0], Element::RawTreasure(RawTreasure::new(0, 0, 0)));
    my_map.update_position(0, 0);
    assert_eq!(my_map.elements[0][0], Element::RawTreasure(RawTreasure::new(0, 0, 0)));
}

#[test]
fn should_ignore_consume_outside_or_on_mountain() {
    let mut my_map = init_mock_map();
    let before = init_mock_map().elements;
    my_map.update_position(1, 1);
    my_map.update_position(7, 0);
    my_map.update_position(0, 9);
    assert_eq!(my_map.elements, before);
}

#[test]
fn should_map_to_hash_map() {
    let my_map = init_mock_map();
    let adventurers = vec![RawAdventurer::new("Lara".to_string(), 0, 0, Orientation::East, "A".to_string())];
    let result = my_map.to_hashmap(adventurers);
    let expected = vec![
        Element::RawMap(RawMap::new(ROW_SIZE_MAP, COL_SIZE_MAP)),
        Element::RawMountain(RawMountain::new(1, 1)),
        Element::RawMountain(RawMountain::new(2, 3)),
        Element::RawTreasure(RawTreasure::new(0, 1, 2)),
        Element::RawAdventurer(RawAdventurer::new(
            "Lara".to_string(),
            0,
            0,
            Orientation::East,
            "A".to_string(),
        )),
    ];
    assert_eq!(expected, result);
}

#[test]
fn should_give_back_the_entities_it_was_built_from() {
    let content = vec![
        Element::RawTreasure(RawTreasure::new(2, 0, 5)),
        Element::RawMountain(RawMountain::new(0, 2)),
        Element::RawTreasure(RawTreasure::new(0, 0, 1)),
        Element::RawMountain(RawMountain::new(1, 1)),
    ];
    let adventurers = vec![
        RawAdventurer::new("Lara".to_string(), 1, 0, Orientation::North, "AD".to_string()),
        RawAdventurer::new("Indy".to_string(), 2, 2, Orientation::West, "G".to_string()),
    ];
    let exported = Grid::new(3, 3, content.clone()).to_hashmap(adventurers.clone());
    assert_eq!(exported.len(), 1 + content.len() + adventurers.len());
    assert_eq!(exported[0], Element::RawMap(RawMap::new(3, 3)));
    for element in &content {
        assert!(exported.contains(element));
    }
    for adventurer in adventurers {
        assert!(exported.contains(&Element::RawAdventurer(adventurer)));
    }
}

#[test]
fn should_export_depleted_treasure_count() {
    let mut my_map = init_mock_map();
    my_map.update_position(0, 1);
    my_map.update_position(0, 1);
    let result = my_map.to_hashmap(vec![]);
    assert_eq!(result[3], Element::RawTreasure(RawTreasure::new(0, 1, 0)));
    assert_eq!(result.len(), 4);
}
