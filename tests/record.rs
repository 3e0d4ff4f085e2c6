use treasure_map::element::{Element, Orientation, RawAdventurer, RawMap, RawMountain, RawTreasure};
use treasure_map::record::{format_record, parse_record, RecordError};

#[test]
fn should_read_map_size() {
    assert_eq!(parse_record("C - 1 - 2"), Ok(Some(Element::RawMap(RawMap::new(1, 2)))));
}

#[test]
fn should_read_mountain_without_blanks() {
    assert_eq!(parse_record("M-1-1"), Ok(Some(Element::RawMountain(RawMountain::new(1, 1)))));
    assert_eq!(parse_record("M - 2 -3"), Ok(Some(Element::RawMountain(RawMountain::new(2, 3)))));
}

#[test]
fn should_read_treasure() {
    assert_eq!(parse_record("T-2-2-1"), Ok(Some(Element::RawTreasure(RawTreasure::new(2, 2, 1)))));
    assert_eq!(
        parse_record(" T - 10 - 20 - 30 \r\n"),
        Ok(Some(Element::RawTreasure(RawTreasure::new(10, 20, 30))))
    );
}

#[test]
fn should_read_adventurer() {
    let expected = RawAdventurer::new("Lara".to_string(), 0, 3, Orientation::South, "AADADA".to_string());
    assert_eq!(parse_record("A-Lara-0-3-S-AADADA"), Ok(Some(Element::RawAdventurer(expected))));
}

#[test]
fn should_read_adventurer_facing_west() {
    let expected = RawAdventurer::new("Indy".to_string(), 1, 1, Orientation::West, "GA".to_string());
    assert_eq!(parse_record("A - Indy - 1 - 1 - O - GA"), Ok(Some(Element::RawAdventurer(expected))));
}

#[test]
fn should_skip_unknown_kind() {
    assert_eq!(parse_record("# comment"), Ok(None));
    assert_eq!(parse_record(""), Ok(None));
    assert_eq!(parse_record("X - 1 - 2"), Ok(None));
}

#[test]
fn should_refuse_missing_field() {
    assert_eq!(parse_record("C - 1"), Err(RecordError::MissingField));
    assert_eq!(parse_record("T - 1 - 2"), Err(RecordError::MissingField));
    assert_eq!(parse_record("A - Lara - 0 - 3 - S"), Err(RecordError::MissingField));
}

#[test]
fn should_refuse_bad_number() {
    assert_eq!(parse_record("M - 2 - - 3"), Err(RecordError::BadNumber));
    assert_eq!(parse_record("M - x - 3"), Err(RecordError::BadNumber));
    assert_eq!(parse_record("T - 1 - 1 - 99999999999999999999999"), Err(RecordError::BadNumber));
}

#[test]
fn should_read_largest_number() {
    let line = format!("C - {} - 0", usize::MAX);
    assert_eq!(parse_record(&line), Ok(Some(Element::RawMap(RawMap::new(usize::MAX, 0)))));
}

#[test]
fn should_refuse_unknown_orientation() {
    assert_eq!(parse_record("A - Lara - 0 - 3 - X - A"), Err(RecordError::BadOrientation));
    assert_eq!(parse_record("A - Lara - 0 - 3 -  - A"), Err(RecordError::BadOrientation));
}

#[test]
fn should_write_each_kind_of_record() {
    assert_eq!(format_record(&Element::RawMap(RawMap::new(4, 4))), "C - 4 - 4");
    assert_eq!(format_record(&Element::RawMountain(RawMountain::new(0, 1))), "M - 0 - 1");
    assert_eq!(format_record(&Element::RawTreasure(RawTreasure::new(1, 2, 2))), "T - 1 - 2 - 2");
    assert_eq!(format_record(&Element::RawTreasure(RawTreasure::new(10, 305, 0))), "T - 10 - 305 - 0");
    let lara = RawAdventurer::new("Lara".to_string(), 0, 0, Orientation::South, "GAADADAAGADA".to_string());
    assert_eq!(format_record(&Element::RawAdventurer(lara)), "A - Lara - 0 - 0 - S - 0");
}

#[test]
fn should_write_collected_treasures_and_west_symbol() {
    let indy = RawAdventurer::new("Indy".to_string(), 3, 12, Orientation::West, "".to_string())
        .update_treasure()
        .update_treasure();
    assert_eq!(format_record(&Element::RawAdventurer(indy)), "A - Indy - 3 - 12 - O - 2");
}

#[test]
fn should_read_back_what_it_writes() {
    let elements = vec![
        Element::RawMap(RawMap::new(3, 4)),
        Element::RawMountain(RawMountain::new(1, 1)),
        Element::RawTreasure(RawTreasure::new(0, 1, 7)),
    ];
    for element in elements {
        assert_eq!(parse_record(&format_record(&element)), Ok(Some(element)));
    }
}

#[test]
fn should_convert_file_to_hashmap() {
    let lines = ["C - 1 - 2", "M - 2 -3", "M-1-1", "T-2-2-1", "A-Lara-0-3-S-AADADA"];
    let result: Vec<Element> = lines
        .iter()
        .map(|line| parse_record(line).expect("Failed to read line").expect("Line of no known kind"))
        .collect();
    let expected = vec![
        Element::RawMap(RawMap::new(1, 2)),
        Element::RawMountain(RawMountain::new(2, 3)),
        Element::RawMountain(RawMountain::new(1, 1)),
        Element::RawTreasure(RawTreasure::new(2, 2, 1)),
        Element::RawAdventurer(RawAdventurer::new(
            "Lara".to_string(),
            0,
            3,
            Orientation::South,
            "AADADA".to_string(),
        )),
    ];
    assert_eq!(result, expected);
}

#[test]
fn test_generate_map_file() {
    let elements = vec![
        Element::RawMap(RawMap::new(4, 4)),
        Element::RawMountain(RawMountain { position: (0, 1) }),
        Element::RawMountain(RawMountain { position: (1, 1) }),
        Element::RawTreasure(RawTreasure::new(1, 2, 2)),
        Element::RawAdventurer(RawAdventurer::new(
            "Lara".to_string(),
            0,
            0,
            Orientation::South,
            "GAADADAAGADA".to_string(),
        )),
    ];
    let actual_content: String = elements.iter().map(|e| format_record(e) + "\n").collect();
    let expected_content = "C - 4 - 4\nM - 0 - 1\nM - 1 - 1\nT - 1 - 2 - 2\nA - Lara - 0 - 0 - S - 0\n";
    assert_eq!(actual_content, expected_content);
}

#[test]
fn should_read_number_with_plus_sign() {
    assert_eq!(parse_record("C - +3 - 4"), Ok(Some(Element::RawMap(RawMap::new(3, 4)))));
    assert_eq!(parse_record("M - + - 4"), Err(RecordError::BadNumber));
    assert_eq!(parse_record("M - ++1 - 4"), Err(RecordError::BadNumber));
}

#[test]
fn should_drop_unicode_blanks() {
    assert_eq!(
        parse_record("T\u{A0}-\u{3000}1\u{2003}-\u{0B}2 - 5\u{85}"),
        Ok(Some(Element::RawTreasure(RawTreasure::new(1, 2, 5))))
    );
}
