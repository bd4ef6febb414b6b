use model_query::error::{QueryError, SchemaIssue};
use model_query::order::{
    comes_before, compile_order, parse_direction, weigh, CompiledOrder, OrderColumn, OrderInput,
    OrderKey, OrderTerm, Weight,
};
use model_query::schema::{FieldDef, ModelSchema};
use model_query::shape::{build_shape, enum_name_of, Direction};
use model_query::value::{Felt, ScalarKind, Value};

fn card_schema() -> ModelSchema {
    ModelSchema::new("Card")
        .with_field(FieldDef::new("title", ScalarKind::Text, false, false))
        .with_field(FieldDef::new("cost", ScalarKind::Int, false, false))
        .with_field(FieldDef::new("art", ScalarKind::Bytes, true, false))
        .with_field(FieldDef::new("rare", ScalarKind::Bool, false, false))
        .with_field(FieldDef::new("token_id", ScalarKind::Felt, false, true))
}

fn order_fault(issue: SchemaIssue, subject: &str) -> QueryError {
    QueryError::SchemaValidation { issue, subject: subject.to_string() }
}

#[test]
fn no_order_input_means_ascending_identity() {
    let order = compile_order(&card_schema(), None).unwrap();
    assert_eq!(order, CompiledOrder { column: None, direction: Direction::Asc });
    assert_eq!(
        order.terms(),
        vec![OrderTerm { column: OrderColumn::Identity, direction: Direction::Asc }]
    );
}

#[test]
fn an_order_by_a_field_is_followed_by_identity_in_the_same_direction() {
    let input = OrderInput::new("COST", "DESC");
    let order = compile_order(&card_schema(), Some(&input)).unwrap();
    assert_eq!(order, CompiledOrder { column: Some(1), direction: Direction::Desc });
    assert_eq!(
        order.terms(),
        vec![
            OrderTerm { column: OrderColumn::Field(1), direction: Direction::Desc },
            OrderTerm { column: OrderColumn::Identity, direction: Direction::Desc },
        ]
    );
    let input = OrderInput::new("TOKEN_ID", "ASC");
    let order = compile_order(&card_schema(), Some(&input)).unwrap();
    assert_eq!(order, CompiledOrder { column: Some(4), direction: Direction::Asc });
}

#[test]
fn fields_of_variable_length_are_not_orderable() {
    for field in ["TITLE", "ART"] {
        let input = OrderInput::new(field, "ASC");
        assert_eq!(
            compile_order(&card_schema(), Some(&input)),
            Err(order_fault(SchemaIssue::NotOrderable, field))
        );
    }
}

#[test]
fn an_unknown_order_field_is_refused() {
    for field in ["PRICE", "cost", "Cost", ""] {
        let input = OrderInput::new(field, "ASC");
        let fault = compile_order(&card_schema(), Some(&input)).unwrap_err();
        assert!(fault.is_schema_validation());
        assert_eq!(fault, order_fault(SchemaIssue::UnknownField, field));
    }
}

#[test]
fn a_direction_other_than_asc_or_desc_is_refused() {
    for direction in ["asc", "UP", "", "ASC "] {
        let input = OrderInput::new("COST", direction);
        assert_eq!(
            compile_order(&card_schema(), Some(&input)),
            Err(order_fault(SchemaIssue::IllegalDirection, direction))
        );
    }
}

#[test]
fn a_fault_in_the_field_is_reported_before_one_in_the_direction() {
    let input = OrderInput::new("PRICE", "UP");
    assert_eq!(
        compile_order(&card_schema(), Some(&input)),
        Err(order_fault(SchemaIssue::UnknownField, "PRICE"))
    );
}

#[test]
fn directions_are_read_exactly() {
    assert_eq!(parse_direction("ASC"), Ok(Direction::Asc));
    assert_eq!(parse_direction("DESC"), Ok(Direction::Desc));
    assert_eq!(parse_direction("Desc"), Err(order_fault(SchemaIssue::IllegalDirection, "Desc")));
}

#[test]
fn choice_names_are_field_names_in_upper_case() {
    assert_eq!(enum_name_of("x"), "X");
    assert_eq!(enum_name_of("last_direction"), "LAST_DIRECTION");
    assert_eq!(enum_name_of("Token9z"), "TOKEN9Z");
    assert_eq!(enum_name_of("abcdefghijklmnopqrstuvwxyz"), "ABCDEFGHIJKLMNOPQRSTUVWXYZ");
    assert_eq!(enum_name_of("é{`"), "é{`");
    assert_eq!(enum_name_of(""), "");
}

#[test]
fn every_advertised_choice_is_accepted_for_its_field() {
    let schema = card_schema();
    for choice in build_shape(&schema).orderings {
        for (word, direction) in [("ASC", Direction::Asc), ("DESC", Direction::Desc)] {
            let input = OrderInput::new(&choice.name, word);
            assert_eq!(
                compile_order(&schema, Some(&input)),
                Ok(CompiledOrder { column: Some(choice.column), direction })
            );
        }
    }
}

#[test]
fn weights_of_values() {
    assert_eq!(weigh(&Value::Null), Weight::Absent);
    assert_eq!(weigh(&Value::Text("z".to_string())), Weight::Absent);
    assert_eq!(weigh(&Value::Bytes(vec![9])), Weight::Absent);
    assert_eq!(weigh(&Value::Bool(false)), Weight::Number(Felt { hi: 0, lo: 0 }));
    assert_eq!(weigh(&Value::Bool(true)), Weight::Number(Felt { hi: 0, lo: 1 }));
    assert_eq!(weigh(&Value::Int(42)), Weight::Number(Felt { hi: 0, lo: 42 }));
    assert_eq!(
        weigh(&Value::Felt(Felt { hi: 3, lo: 4 })),
        Weight::Number(Felt { hi: 3, lo: 4 })
    );
}

#[test]
fn absent_weighs_less_than_zero() {
    assert!(Weight::Absent.below(&Weight::Number(Felt { hi: 0, lo: 0 })));
    assert!(!Weight::Number(Felt { hi: 0, lo: 0 }).below(&Weight::Absent));
    assert!(!Weight::Absent.below(&Weight::Absent));
    assert!(Weight::Absent.same(&Weight::Absent));
    assert!(!Weight::Absent.same(&Weight::Number(Felt { hi: 0, lo: 0 })));
}

#[test]
fn positions_compare_by_weight_then_identity() {
    let key = |w: u128, id: u64| OrderKey { weight: Weight::Number(Felt::from_u128(w)), id };
    assert!(comes_before(Direction::Asc, &key(1, 9), &key(2, 1)));
    assert!(comes_before(Direction::Asc, &key(1, 1), &key(1, 2)));
    assert!(!comes_before(Direction::Asc, &key(1, 2), &key(1, 2)));
    assert!(!comes_before(Direction::Asc, &key(2, 1), &key(1, 9)));
    assert!(comes_before(Direction::Desc, &key(2, 1), &key(1, 9)));
    assert!(comes_before(Direction::Desc, &key(1, 2), &key(1, 1)));
    assert!(!comes_before(Direction::Desc, &key(1, 1), &key(1, 2)));
    let absent = OrderKey { weight: Weight::Absent, id: 5 };
    assert!(comes_before(Direction::Asc, &absent, &key(0, 1)));
    assert!(comes_before(Direction::Desc, &key(0, 1), &absent));
}

#[test]
fn of_any_two_positions_with_different_identities_one_comes_first() {
    let keys = [
        OrderKey { weight: Weight::Absent, id: 1 },
        OrderKey { weight: Weight::Absent, id: 2 },
        OrderKey { weight: Weight::Number(Felt { hi: 0, lo: 7 }), id: 3 },
        OrderKey { weight: Weight::Number(Felt { hi: 0, lo: 7 }), id: 4 },
        OrderKey { weight: Weight::Number(Felt { hi: 1, lo: 0 }), id: 5 },
    ];
    for direction in [Direction::Asc, Direction::Desc] {
        for a in &keys {
            assert!(!comes_before(direction, a, a));
            for b in &keys {
                if a.id != b.id {
                    assert!(comes_before(direction, a, b) != comes_before(direction, b, a));
                }
            }
        }
    }
}
