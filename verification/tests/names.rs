use bevy_parquet::names::{
    contains, derived_name, destination, file_name, is_marker, short_name, truncate,
    DEFAULT_NAME_BUDGET,
};
use bevy_parquet::store::Attribute;
use bevy_parquet::text::{chars_of, decimal, join};

fn named(name: &str, id: usize) -> Attribute {
    Attribute { name: name.to_string(), id }
}

#[test]
fn the_short_name_follows_the_last_separator() {
    assert_eq!(short_name("bevy::ecs::component::ComponentId"), "ComponentId");
    assert_eq!(short_name("game::Health"), "Health");
}

#[test]
fn a_name_without_separator_is_its_own_short_name() {
    assert_eq!(short_name("Health"), "Health");
    assert_eq!(short_name(""), "");
    assert_eq!(short_name("a:b"), "a:b");
}

#[test]
fn separators_are_found_from_the_left() {
    assert_eq!(short_name("a:::b"), ":b");
    assert_eq!(short_name("a::::b"), "b");
    assert_eq!(short_name("a::"), "");
    assert_eq!(short_name("::"), "");
    assert_eq!(short_name(":"), ":");
}

#[test]
fn short_names_count_characters_not_bytes() {
    assert_eq!(short_name("größe::Höhe"), "Höhe");
}

#[test]
fn a_marker_is_known_by_its_name() {
    assert!(is_marker("game::PhantomPersistTag"));
    assert!(is_marker("PhantomPersistTag"));
    assert!(is_marker("a::MyPhantomPersistTagged<T>"));
    assert!(!is_marker("game::PhantomPersistTa"));
    assert!(!is_marker("game::Health"));
    assert!(!is_marker(""));
}

#[test]
fn contains_finds_a_text_anywhere() {
    assert!(contains("abcabd", "abd"));
    assert!(contains("abc", ""));
    assert!(contains("", ""));
    assert!(!contains("", "a"));
    assert!(!contains("ab", "abc"));
    assert!(contains("aab", "ab"));
}

#[test]
fn the_characters_of_a_text_come_in_order() {
    assert_eq!(chars_of("aé:"), vec!['a', 'é', ':']);
    assert!(chars_of("").is_empty());
}

#[test]
fn join_puts_the_separator_between_neighbours() {
    assert_eq!(join(&vec!["a".to_string(), "b".to_string(), "c".to_string()], ", "), "a, b, c");
    assert_eq!(join(&vec!["a".to_string()], ", "), "a");
    assert_eq!(join(&Vec::new(), ", "), "");
}

#[test]
fn truncate_cuts_to_the_budget() {
    assert_eq!(truncate("abcdef".to_string(), 3), "abc");
    assert_eq!(truncate("abc".to_string(), 3), "abc");
    assert_eq!(truncate("ab".to_string(), 3), "ab");
    assert_eq!(truncate("abc".to_string(), 0), "");
    assert_eq!(truncate("äöü".to_string(), 2), "äö");
}

#[test]
fn a_derived_name_joins_the_short_names() {
    let cluster = vec![named("game::Pos", 0), named("game::Vel", 1)];
    assert_eq!(derived_name(&cluster, DEFAULT_NAME_BUDGET), "Pos_Vel");
}

#[test]
fn a_derived_name_is_cut_to_twenty_characters() {
    let cluster = vec![named("game::Health", 0), named("game::PhantomPersistTag", 1)];
    let name = derived_name(&cluster, DEFAULT_NAME_BUDGET);
    assert_eq!(name, "Health_PhantomPersis");
    assert_eq!(name.chars().count(), 20);
}

#[test]
fn a_derived_name_never_exceeds_its_budget() {
    let cluster = vec![named("a::Alpha", 0), named("b::Beta", 1), named("c::Gamma", 2)];
    for budget in 0..20 {
        let name = derived_name(&cluster, budget);
        assert!(name.chars().count() <= budget);
        assert!("Alpha_Beta_Gamma".starts_with(name.as_str()));
    }
}

#[test]
fn the_derived_name_of_no_attributes_is_empty() {
    assert_eq!(derived_name(&Vec::new(), DEFAULT_NAME_BUDGET), "");
}

#[test]
fn a_configured_name_replaces_the_derived_one() {
    let cluster = vec![named("game::Pos", 0)];
    let configured = Some("a_name_that_is_longer_than_twenty_characters".to_string());
    assert_eq!(
        file_name(&cluster, &configured, DEFAULT_NAME_BUDGET),
        "a_name_that_is_longer_than_twenty_characters"
    );
    assert_eq!(file_name(&cluster, &None, DEFAULT_NAME_BUDGET), "Pos");
}

#[test]
fn the_destination_is_path_name_and_extension() {
    assert_eq!(destination("./", "Pos_Vel"), "./_Pos_Vel.parquet");
    assert_eq!(destination("out/run", "x"), "out/run_x.parquet");
    assert_eq!(destination("", ""), "_.parquet");
}

#[test]
fn the_default_budget_is_twenty() {
    assert_eq!(DEFAULT_NAME_BUDGET, 20);
}

#[test]
fn numbers_are_written_in_decimal() {
    assert_eq!(decimal(0), "0");
    assert_eq!(decimal(7), "7");
    assert_eq!(decimal(10), "10");
    assert_eq!(decimal(1234567890), "1234567890");
    assert_eq!(decimal(u64::MAX), "18446744073709551615");
}
