use model_query::error::QueryError;
use model_query::resolver::{entity_key, resolve_entity, same_values, Entity};
use model_query::row::Row;
use model_query::schema::{FieldDef, ModelSchema};
use model_query::value::{Felt, ScalarKind, Value};

fn tile_schema() -> ModelSchema {
    ModelSchema::new("Tile")
        .with_field(FieldDef::new("game", ScalarKind::Felt, false, true))
        .with_field(FieldDef::new("terrain", ScalarKind::Int, false, false))
        .with_field(FieldDef::new("slot", ScalarKind::Int, false, true))
}

fn tile(id: u64, game: u128, terrain: u64, slot: u64) -> Row {
    Row::new(
        id,
        vec![Value::Felt(Felt::from_u128(game)), Value::Int(terrain), Value::Int(slot)],
    )
}

fn tile_entities() -> Vec<Entity> {
    vec![
        Entity::new(
            vec![Value::Felt(Felt::from_u128(1)), Value::Int(1)],
            vec!["Tile".to_string()],
        ),
        Entity::new(
            vec![Value::Felt(Felt::from_u128(1)), Value::Int(2)],
            vec!["Tile".to_string(), "Trap".to_string()],
        ),
        Entity::new(vec![Value::Felt(Felt::from_u128(1))], vec!["Game".to_string()]),
    ]
}

#[test]
fn the_key_tuple_holds_the_key_fields_in_schema_order() {
    assert_eq!(
        entity_key(&tile_schema(), &tile(1, 5, 9, 3)),
        vec![Value::Felt(Felt::from_u128(5)), Value::Int(3)]
    );
    assert_eq!(entity_key(&ModelSchema::new("Bare"), &tile(1, 5, 9, 3)), vec![]);
    // a row that is too short has no value for the later key field
    assert_eq!(
        entity_key(&tile_schema(), &Row::new(1, vec![Value::Felt(Felt::from_u128(5))])),
        vec![Value::Felt(Felt::from_u128(5))]
    );
}

#[test]
fn an_entity_is_found_by_the_whole_key_tuple() {
    let entity = resolve_entity(&tile_entities(), &tile_schema(), &tile(7, 1, 0, 2)).unwrap();
    assert_eq!(entity, tile_entities()[1]);
    assert_eq!(entity.model_names, vec!["Tile".to_string(), "Trap".to_string()]);
    assert!(entity.has_model("Trap"));
    assert!(!entity.has_model("Game"));
}

#[test]
fn a_row_without_an_entity_is_a_consistency_error() {
    assert_eq!(
        resolve_entity(&tile_entities(), &tile_schema(), &tile(7, 1, 0, 3)),
        Err(QueryError::Consistency)
    );
    assert_eq!(
        resolve_entity(&tile_entities(), &tile_schema(), &tile(7, 2, 0, 1)),
        Err(QueryError::Consistency)
    );
    assert_eq!(
        resolve_entity(&vec![], &tile_schema(), &tile(7, 1, 0, 1)),
        Err(QueryError::Consistency)
    );
}

#[test]
fn of_two_entities_with_one_key_the_first_is_found() {
    let twice = vec![
        Entity::new(vec![Value::Int(1)], vec!["A".to_string()]),
        Entity::new(vec![Value::Int(1)], vec!["B".to_string()]),
    ];
    let schema =
        ModelSchema::new("A").with_field(FieldDef::new("id", ScalarKind::Int, false, true));
    let entity = resolve_entity(&twice, &schema, &Row::new(1, vec![Value::Int(1)])).unwrap();
    assert_eq!(entity.model_names, vec!["A".to_string()]);
}

#[test]
fn value_lists_compare_by_content() {
    let a = vec![Value::Int(1), Value::Text("x".to_string())];
    assert!(same_values(&a, &a.clone()));
    assert!(same_values(&vec![], &vec![]));
    assert!(!same_values(&a, &vec![Value::Int(1)]));
    assert!(!same_values(&a, &vec![Value::Int(1), Value::Text("y".to_string())]));
    assert!(!same_values(&vec![Value::Int(1)], &vec![Value::Felt(Felt::from_u128(1))]));
}

#[test]
fn entity_copies_keep_the_content() {
    for entity in tile_entities() {
        assert_eq!(entity.duplicate(), entity);
    }
}
