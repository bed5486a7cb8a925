use animal::model::{animal_dao_to_animal, animal_to_dao, Animal, AnimalDAO, AnimalKind, Cat, Dog, HasColor, HasWeight, Snake};
use animal::order::lex_cmp;
use animal::pipeline::{
    animals_to_daos, convert_animals_to_types, process_records, reverse_animals, sort_animals,
    sort_by_color, sort_by_weight,
};
use std::cmp::Ordering;

fn dao(kind: &str, weight: i32, color: &str) -> AnimalDAO {
    AnimalDAO::new(kind, weight, color)
}

fn triples(records: &[AnimalDAO]) -> Vec<(String, i32, String)> {
    records.iter().map(|d| (d.kind.clone(), d.weight, d.color.clone())).collect()
}

#[test]
fn scenario_no_flags_preserves_order() {
    let records = vec![dao("dog", 17, "white"), dao("cat", 30, "black")];
    let out = process_records(&records, false, false, false);
    assert_eq!(
        triples(&out),
        vec![
            ("dog".to_string(), 17, "white".to_string()),
            ("cat".to_string(), 30, "black".to_string()),
        ]
    );
}

#[test]
fn scenario_color_sort() {
    let records = vec![dao("dog", 17, "white"), dao("cat", 30, "black")];
    let out = process_records(&records, true, false, false);
    assert_eq!(
        triples(&out),
        vec![
            ("cat".to_string(), 30, "black".to_string()),
            ("dog".to_string(), 17, "white".to_string()),
        ]
    );
}

#[test]
fn scenario_color_sort_reversed() {
    let records = vec![dao("dog", 17, "white"), dao("cat", 30, "black")];
    let out = process_records(&records, true, false, true);
    assert_eq!(
        triples(&out),
        vec![
            ("dog".to_string(), 17, "white".to_string()),
            ("cat".to_string(), 30, "black".to_string()),
        ]
    );
}

#[test]
fn scenario_unknown_tag_is_dropped() {
    let records = vec![dao("elephant", 5000, "gray"), dao("dog", 17, "white")];
    let out = process_records(&records, false, false, false);
    assert_eq!(triples(&out), vec![("dog".to_string(), 17, "white".to_string())]);
}

#[test]
fn resolver_accepts_each_registered_tag() {
    let d = animal_dao_to_animal(&dao("dog", 1, "brown")).unwrap();
    assert!(matches!(d, AnimalKind::Dog(_)));
    assert_eq!(d.tag(), "dog");
    assert_eq!(d.weight(), 1);
    assert_eq!(d.color(), "brown");

    let c = animal_dao_to_animal(&dao("cat", 2, "gray")).unwrap();
    assert!(matches!(c, AnimalKind::Cat(_)));
    assert_eq!(c.tag(), "cat");

    let s = animal_dao_to_animal(&dao("snake", 3, "green")).unwrap();
    assert!(matches!(s, AnimalKind::Snake(_)));
    assert_eq!(s.tag(), "snake");
}

#[test]
fn resolver_rejects_unknown_tags() {
    assert!(animal_dao_to_animal(&dao("elephant", 5000, "gray")).is_none());
    assert!(animal_dao_to_animal(&dao("Dog", 1, "white")).is_none());
    assert!(animal_dao_to_animal(&dao("", 0, "")).is_none());
}

#[test]
fn resolution_passes_fields_through() {
    let a = animal_dao_to_animal(&dao("snake", -4, "olive")).unwrap();
    assert_eq!(a.weight(), -4);
    assert_eq!(a.color(), "olive");
    let back = animal_to_dao(&a);
    assert_eq!(back.kind, "snake");
    assert_eq!(back.weight, -4);
    assert_eq!(back.color, "olive");
}

#[test]
fn convert_keeps_known_records_in_order() {
    let records = vec![
        dao("cat", 1, "red"),
        dao("unicorn", 2, "pink"),
        dao("dog", 3, "blue"),
        dao("snake", 4, "green"),
        dao("", 5, "none"),
    ];
    let animals = convert_animals_to_types(&records);
    let tags: Vec<&str> = animals.iter().map(|a| a.tag()).collect();
    assert_eq!(tags, vec!["cat", "dog", "snake"]);
    let weights: Vec<i32> = animals.iter().map(|a| a.weight()).collect();
    assert_eq!(weights, vec![1, 3, 4]);
}

#[test]
fn round_trip_keeps_every_triple() {
    let records = vec![dao("dog", 17, "white"), dao("cat", 30, "black"), dao("snake", 2, "green")];
    let animals = convert_animals_to_types(&records);
    let serialized = animals_to_daos(&animals);
    assert_eq!(triples(&serialized), triples(&records));
    let again = convert_animals_to_types(&serialized);
    let twice = animals_to_daos(&again);
    assert_eq!(triples(&twice), triples(&records));
}

#[test]
fn color_sort_orders_and_is_stable() {
    let records = vec![
        dao("dog", 1, "white"),
        dao("cat", 2, "white"),
        dao("snake", 3, "black"),
        dao("dog", 4, "black"),
    ];
    let mut animals = convert_animals_to_types(&records);
    sort_animals(&mut animals, true);
    let out = animals_to_daos(&animals);
    assert_eq!(
        triples(&out),
        vec![
            ("snake".to_string(), 3, "black".to_string()),
            ("dog".to_string(), 4, "black".to_string()),
            ("dog".to_string(), 1, "white".to_string()),
            ("cat".to_string(), 2, "white".to_string()),
        ]
    );
}

#[test]
fn weight_sort_orders_and_is_stable() {
    let records = vec![
        dao("dog", 5, "a"),
        dao("cat", 3, "b"),
        dao("snake", 5, "c"),
        dao("cat", -7, "d"),
    ];
    let mut animals = convert_animals_to_types(&records);
    sort_animals(&mut animals, false);
    let out = animals_to_daos(&animals);
    assert_eq!(
        triples(&out),
        vec![
            ("cat".to_string(), -7, "d".to_string()),
            ("cat".to_string(), 3, "b".to_string()),
            ("dog".to_string(), 5, "a".to_string()),
            ("snake".to_string(), 5, "c".to_string()),
        ]
    );
}

#[test]
fn weight_sort_applied_after_color_sort_wins() {
    let records = vec![
        dao("dog", 10, "white"),
        dao("cat", 5, "black"),
        dao("snake", 10, "azure"),
    ];
    let out = process_records(&records, true, true, false);
    // After the color sort the order is azure, black, white; the weight sort
    // then rules, and its ties keep the color order.
    assert_eq!(
        triples(&out),
        vec![
            ("cat".to_string(), 5, "black".to_string()),
            ("snake".to_string(), 10, "azure".to_string()),
            ("dog".to_string(), 10, "white".to_string()),
        ]
    );
}

#[test]
fn reverse_alone_reverses_resolved_order() {
    let records = vec![dao("dog", 1, "a"), dao("cat", 2, "b"), dao("snake", 3, "c")];
    let out = process_records(&records, false, false, true);
    assert_eq!(
        triples(&out),
        vec![
            ("snake".to_string(), 3, "c".to_string()),
            ("cat".to_string(), 2, "b".to_string()),
            ("dog".to_string(), 1, "a".to_string()),
        ]
    );
}

#[test]
fn reverse_animals_reverses_in_place() {
    let records = vec![dao("dog", 1, "a"), dao("cat", 2, "b")];
    let mut animals = convert_animals_to_types(&records);
    reverse_animals(&mut animals);
    let tags: Vec<&str> = animals.iter().map(|a| a.tag()).collect();
    assert_eq!(tags, vec!["cat", "dog"]);
    reverse_animals(&mut animals);
    let tags: Vec<&str> = animals.iter().map(|a| a.tag()).collect();
    assert_eq!(tags, vec!["dog", "cat"]);
}

#[test]
fn empty_input_stays_empty() {
    let records: Vec<AnimalDAO> = Vec::new();
    let out = process_records(&records, true, true, true);
    assert!(out.is_empty());
}

#[test]
fn comparator_by_color() {
    let white = AnimalKind::Dog(Dog::new("white", 17));
    let black = AnimalKind::Cat(Cat::new("black", 30));
    let black_too = AnimalKind::Snake(Snake::new("black", 2));
    assert_eq!(sort_by_color(&white, &black), Ordering::Greater);
    assert_eq!(sort_by_color(&black, &white), Ordering::Less);
    assert_eq!(sort_by_color(&black, &black_too), Ordering::Equal);
}

#[test]
fn comparator_by_weight() {
    let light = AnimalKind::Dog(Dog::new("white", -3));
    let heavy = AnimalKind::Cat(Cat::new("black", 30));
    let heavy_too = AnimalKind::Snake(Snake::new("green", 30));
    assert_eq!(sort_by_weight(&light, &heavy), Ordering::Less);
    assert_eq!(sort_by_weight(&heavy, &light), Ordering::Greater);
    assert_eq!(sort_by_weight(&heavy, &heavy_too), Ordering::Equal);
}

#[test]
fn lexicographic_comparison_of_strings() {
    assert_eq!(lex_cmp("", ""), Ordering::Equal);
    assert_eq!(lex_cmp("", "a"), Ordering::Less);
    assert_eq!(lex_cmp("a", ""), Ordering::Greater);
    assert_eq!(lex_cmp("ab", "abc"), Ordering::Less);
    assert_eq!(lex_cmp("abc", "ab"), Ordering::Greater);
    assert_eq!(lex_cmp("black", "white"), Ordering::Less);
    assert_eq!(lex_cmp("gray", "gray"), Ordering::Equal);
    // code point order, not alphabetical order
    assert_eq!(lex_cmp("z", "\u{e9}"), Ordering::Less);
    assert_eq!(lex_cmp("Z", "a"), Ordering::Less);
}

#[test]
fn json_document_flows_through_the_pipeline() {
    let text = r#"[
        {"type": "dog", "weight": 17, "color": "white"},
        {"type": "elephant", "weight": 5000, "color": "gray"},
        {"type": "cat", "weight": 30, "color": "black"}
    ]"#;
    let value: serde_json::Value = serde_json::from_str(text).unwrap();
    let mut records = Vec::new();
    for item in value.as_array().unwrap() {
        records.push(AnimalDAO::new(
            item["type"].as_str().unwrap(),
            item["weight"].as_i64().unwrap() as i32,
            item["color"].as_str().unwrap(),
        ));
    }
    let out = process_records(&records, true, false, false);
    assert_eq!(
        triples(&out),
        vec![
            ("cat".to_string(), 30, "black".to_string()),
            ("dog".to_string(), 17, "white".to_string()),
        ]
    );
}
