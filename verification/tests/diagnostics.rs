use bevy_parquet::column::create_uuid_array;
use bevy_parquet::cell::Cell;
use bevy_parquet::diagnostics::{Level, Notice};
use bevy_parquet::store::{
    AttributeInfo, ComponentValue, EntityRecord, TypeRegistration, WorldSnapshot,
};
use bevy_parquet::types::{ColumnType, TypeDescriptor};
use bevy_parquet::{Hope, Report};

fn error(text: &str) -> Option<Notice> {
    Some(Notice { level: Level::Error, text: text.to_string() })
}

fn info(text: &str) -> Option<Notice> {
    Some(Notice { level: Level::Info, text: text.to_string() })
}

#[test]
fn a_result_complains_of_its_error() {
    let bad: Result<u8, &str> = Err("broken");
    let good: Result<u8, &str> = Ok(1);
    assert_eq!(bad.hope(), error("failure: \"broken\""));
    assert_eq!(good.hope(), None);
    assert_eq!(bad.complain(), (Err("broken"), error("failure: \"broken\"")));
    assert_eq!(good.complain(), (Ok(1), None));
    assert_eq!(bad.complain_msg("reading"), (Err("broken"), error("reading: \"broken\"")));
    assert_eq!(good.complain_msg("reading"), (Ok(1), None));
    assert_eq!(bad.relief_msg("done"), (Err("broken"), None));
    assert_eq!(good.relief_msg("done"), (Ok(1), info("done")));
}

#[test]
fn an_option_complains_of_being_empty() {
    let none: Option<u8> = None;
    assert_eq!(none.hope(), error("empty option"));
    assert_eq!(Some(1).hope(), None);
    assert_eq!(none.complain(), (None, error("empty option")));
    assert_eq!(Some(1).complain(), (Some(1), None));
    assert_eq!(none.complain_msg("nothing there"), (None, error("nothing there")));
    assert_eq!(Some(1).complain_msg("nothing there"), (Some(1), None));
    assert_eq!(none.relief_msg("found"), (None, None));
    assert_eq!(Some(1).relief_msg("found"), (Some(1), info("found")));
}

#[test]
fn a_boolean_complains_of_being_false() {
    assert_eq!(false.hope(), error("empty option"));
    assert_eq!(true.hope(), None);
    assert_eq!(false.complain(), (false, error("empty option")));
    assert_eq!(true.complain(), (true, None));
    assert_eq!(false.complain_msg("no"), (false, error("no")));
    assert_eq!(true.complain_msg("no"), (true, None));
    assert_eq!(false.relief_msg("yes"), (false, None));
    assert_eq!(true.relief_msg("yes"), (true, info("yes")));
}

#[test]
fn a_value_is_reported_with_its_rendering() {
    let (value, notice) = vec![1, 2].report_msg("the list");
    assert_eq!(value, vec![1, 2]);
    assert_eq!(notice, Notice { level: Level::Debug, text: "the list: [1, 2]".to_string() });
}

#[test]
fn identifiers_make_a_column_of_decimal_texts() {
    let column = create_uuid_array(&vec![0, 42, 4294967296]);
    assert_eq!(column.ty, ColumnType::Utf8);
    assert_eq!(
        column.cells,
        vec![
            Cell::Text("0".to_string()),
            Cell::Text("42".to_string()),
            Cell::Text("4294967296".to_string())
        ]
    );
    assert!(create_uuid_array(&Vec::new()).cells.is_empty());
}

#[test]
fn the_store_answers_lookups() {
    let registration = |type_id: u64, reflectable: bool| TypeRegistration {
        type_id,
        descriptor: TypeDescriptor::Enum,
        reflectable,
    };
    let world = WorldSnapshot {
        attributes: vec![
            AttributeInfo { name: "a::A".to_string(), type_id: Some(5) },
            AttributeInfo { name: "a::B".to_string(), type_id: None },
        ],
        registry: vec![registration(5, true), registration(6, true), registration(5, false)],
        entities: vec![EntityRecord {
            id: 9,
            components: vec![
                ComponentValue { id: 1, value: None },
                ComponentValue { id: 0, value: None },
            ],
        }],
    };
    assert_eq!(world.info(0).map(|i| i.name.as_str()), Some("a::A"));
    assert_eq!(world.info(1).map(|i| i.type_id), Some(None));
    assert!(world.info(2).is_none());
    assert_eq!(world.registration(5).map(|r| r.reflectable), Some(true));
    assert_eq!(world.registration(6).map(|r| r.type_id), Some(6));
    assert!(world.registration(7).is_none());
    assert!(world.is_known(Some(5)));
    assert!(!world.is_known(Some(7)));
    assert!(!world.is_known(None));
    assert!(world.entities[0].has(0));
    assert!(world.entities[0].has(1));
    assert!(!world.entities[0].has(2));
    assert_eq!(world.entities[0].component(0).map(|c| c.id), Some(0));
    assert!(world.entities[0].component(5).is_none());
}
