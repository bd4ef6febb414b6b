use model_query::error::{QueryError, SchemaIssue};
use model_query::filter::{compare_values, compile_filter, row_matches, Predicate, WhereEntry};
use model_query::row::Row;
use model_query::schema::{FieldDef, ModelSchema};
use model_query::shape::{build_shape, Operator};
use model_query::value::{Felt, ScalarKind, Value};

fn hero_schema() -> ModelSchema {
    ModelSchema::new("Hero")
        .with_field(FieldDef::new("owner", ScalarKind::Felt, false, true))
        .with_field(FieldDef::new("name", ScalarKind::Text, false, false))
        .with_field(FieldDef::new("alive", ScalarKind::Bool, false, false))
        .with_field(FieldDef::new("level", ScalarKind::Int, true, false))
        .with_field(FieldDef::new("sigil", ScalarKind::Bytes, true, false))
}

fn schema_fault(issue: SchemaIssue, subject: &str) -> QueryError {
    QueryError::SchemaValidation { issue, subject: subject.to_string() }
}

fn hero(id: u64, owner: u128, name: &str, alive: bool, level: Option<u64>) -> Row {
    Row::new(
        id,
        vec![
            Value::Felt(Felt::from_u128(owner)),
            Value::Text(name.to_string()),
            Value::Bool(alive),
            match level {
                Some(n) => Value::Int(n),
                None => Value::Null,
            },
            Value::Bytes(vec![1, 2, 3]),
        ],
    )
}

#[test]
fn arguments_compile_in_their_order() {
    let input = vec![
        WhereEntry::new("levelGTE", Value::Int(3)),
        WhereEntry::new("name", Value::Text("ann".to_string())),
        WhereEntry::new("aliveNEQ", Value::Bool(false)),
    ];
    let filter = compile_filter(&hero_schema(), &input).unwrap();
    assert_eq!(
        filter,
        vec![
            Predicate { column: 3, operator: Operator::Gte, value: Value::Int(3) },
            Predicate { column: 1, operator: Operator::Eq, value: Value::Text("ann".to_string()) },
            Predicate { column: 2, operator: Operator::Neq, value: Value::Bool(false) },
        ]
    );
}

#[test]
fn empty_where_input_compiles_to_the_empty_filter() {
    let filter = compile_filter(&hero_schema(), &vec![]).unwrap();
    assert!(filter.is_empty());
    assert!(row_matches(&filter, &hero(1, 7, "ann", true, Some(1))));
    assert!(row_matches(&filter, &Row::new(2, vec![])));
}

#[test]
fn greater_than_on_a_text_field_is_an_illegal_operator() {
    let input = vec![WhereEntry::new("nameGT", Value::Text("ann".to_string()))];
    let fault = compile_filter(&hero_schema(), &input).unwrap_err();
    assert!(fault.is_schema_validation());
    assert_eq!(fault, schema_fault(SchemaIssue::IllegalOperator, "nameGT"));
}

#[test]
fn comparisons_on_bool_and_bytes_are_illegal() {
    for name in ["aliveLT", "aliveGTE", "sigilGT", "sigilLTE"] {
        let input = vec![WhereEntry::new(name, Value::Bool(true))];
        assert_eq!(
            compile_filter(&hero_schema(), &input),
            Err(schema_fault(SchemaIssue::IllegalOperator, name))
        );
    }
}

#[test]
fn unknown_field_is_refused() {
    for name in ["height", "Level", "levelgt", "levelGTEE", ""] {
        let input = vec![WhereEntry::new(name, Value::Int(1))];
        assert_eq!(
            compile_filter(&hero_schema(), &input),
            Err(schema_fault(SchemaIssue::UnknownField, name))
        );
    }
}

#[test]
fn value_of_another_kind_is_refused() {
    let cases = vec![
        WhereEntry::new("level", Value::Text("3".to_string())),
        WhereEntry::new("level", Value::Null),
        WhereEntry::new("owner", Value::Int(2)),
        WhereEntry::new("aliveNEQ", Value::Int(0)),
        WhereEntry::new("sigil", Value::Text("abc".to_string())),
    ];
    for entry in cases {
        let name = entry.name.clone();
        assert_eq!(
            compile_filter(&hero_schema(), &vec![entry]),
            Err(schema_fault(SchemaIssue::KindMismatch, &name))
        );
    }
}

#[test]
fn the_first_faulty_argument_decides_the_error() {
    let input = vec![
        WhereEntry::new("level", Value::Int(1)),
        WhereEntry::new("nameLT", Value::Text("b".to_string())),
        WhereEntry::new("height", Value::Int(1)),
    ];
    assert_eq!(
        compile_filter(&hero_schema(), &input),
        Err(schema_fault(SchemaIssue::IllegalOperator, "nameLT"))
    );
}

#[test]
fn a_field_named_like_an_argument_wins_over_the_illegal_reading() {
    // "tagGT" is a field of its own; "tag" is text and has no GT.
    let schema = ModelSchema::new("Odd")
        .with_field(FieldDef::new("tag", ScalarKind::Text, false, false))
        .with_field(FieldDef::new("tagGT", ScalarKind::Int, false, false));
    let filter =
        compile_filter(&schema, &vec![WhereEntry::new("tagGT", Value::Int(5))]).unwrap();
    assert_eq!(filter, vec![Predicate { column: 1, operator: Operator::Eq, value: Value::Int(5) }]);
}

#[test]
fn of_two_readings_the_earlier_field_wins() {
    // "a" with GT and "aGT" with equality bear the same argument name.
    let schema = ModelSchema::new("Twin")
        .with_field(FieldDef::new("a", ScalarKind::Int, false, false))
        .with_field(FieldDef::new("aGT", ScalarKind::Int, false, false));
    let filter = compile_filter(&schema, &vec![WhereEntry::new("aGT", Value::Int(5))]).unwrap();
    assert_eq!(filter, vec![Predicate { column: 0, operator: Operator::Gt, value: Value::Int(5) }]);
}

#[test]
fn every_advertised_argument_is_accepted_for_its_field_and_operator() {
    let schema = hero_schema();
    for argument in build_shape(&schema).filters {
        let value = match schema.fields[argument.column].kind {
            ScalarKind::Int => Value::Int(1),
            ScalarKind::Felt => Value::Felt(Felt::from_u128(1)),
            ScalarKind::Text => Value::Text("a".to_string()),
            ScalarKind::Bytes => Value::Bytes(vec![1]),
            ScalarKind::Bool => Value::Bool(true),
        };
        let input = vec![WhereEntry::new(&argument.name, value.clone())];
        assert_eq!(
            compile_filter(&schema, &input),
            Ok(vec![Predicate { column: argument.column, operator: argument.operator, value }])
        );
    }
}

#[test]
fn numbers_compare_by_every_operator() {
    let cases = [
        (Operator::Eq, [false, true, false]),
        (Operator::Neq, [true, false, true]),
        (Operator::Gt, [false, false, true]),
        (Operator::Gte, [false, true, true]),
        (Operator::Lt, [true, false, false]),
        (Operator::Lte, [true, true, false]),
    ];
    for (op, expected) in cases {
        for (left, want) in [41u64, 42, 43].iter().zip(expected) {
            assert_eq!(compare_values(op, &Value::Int(*left), &Value::Int(42)), want);
        }
    }
}

#[test]
fn felts_compare_across_both_halves() {
    let small = Value::Felt(Felt { hi: 0, lo: u128::MAX });
    let large = Value::Felt(Felt { hi: 1, lo: 0 });
    assert!(compare_values(Operator::Lt, &small, &large));
    assert!(compare_values(Operator::Gt, &large, &small));
    assert!(compare_values(Operator::Neq, &large, &small));
    assert!(compare_values(Operator::Eq, &large, &Value::Felt(Felt { hi: 1, lo: 0 })));
    assert!(!compare_values(Operator::Lte, &large, &small));
}

#[test]
fn text_bytes_and_bool_know_only_equality() {
    let a = Value::Text("a".to_string());
    let b = Value::Text("b".to_string());
    assert!(compare_values(Operator::Eq, &a, &a));
    assert!(compare_values(Operator::Neq, &a, &b));
    assert!(!compare_values(Operator::Lt, &a, &b));
    assert!(compare_values(Operator::Eq, &Value::Bytes(vec![1]), &Value::Bytes(vec![1])));
    assert!(compare_values(Operator::Neq, &Value::Bytes(vec![1]), &Value::Bytes(vec![1, 0])));
    assert!(!compare_values(Operator::Gt, &Value::Bool(true), &Value::Bool(false)));
    assert!(compare_values(Operator::Neq, &Value::Bool(true), &Value::Bool(false)));
}

#[test]
fn absent_and_mismatched_values_satisfy_nothing() {
    for op in [Operator::Eq, Operator::Neq, Operator::Gt, Operator::Lte] {
        assert!(!compare_values(op, &Value::Null, &Value::Int(1)));
        assert!(!compare_values(op, &Value::Null, &Value::Null));
        assert!(!compare_values(op, &Value::Int(1), &Value::Felt(Felt::from_u128(1))));
    }
}

#[test]
fn predicates_combine_with_and() {
    let input = vec![
        WhereEntry::new("levelGT", Value::Int(1)),
        WhereEntry::new("alive", Value::Bool(true)),
    ];
    let filter = compile_filter(&hero_schema(), &input).unwrap();
    assert!(row_matches(&filter, &hero(1, 7, "ann", true, Some(2))));
    assert!(!row_matches(&filter, &hero(2, 7, "bob", false, Some(2))));
    assert!(!row_matches(&filter, &hero(3, 7, "cyd", true, Some(1))));
    assert!(!row_matches(&filter, &hero(4, 7, "dee", true, None)));
}

#[test]
fn the_order_of_predicates_does_not_change_the_matches() {
    let one = vec![
        WhereEntry::new("levelGT", Value::Int(1)),
        WhereEntry::new("alive", Value::Bool(true)),
    ];
    let other = vec![
        WhereEntry::new("alive", Value::Bool(true)),
        WhereEntry::new("levelGT", Value::Int(1)),
    ];
    let f = compile_filter(&hero_schema(), &one).unwrap();
    let g = compile_filter(&hero_schema(), &other).unwrap();
    for row in [
        hero(1, 7, "ann", true, Some(2)),
        hero(2, 7, "bob", false, Some(2)),
        hero(3, 7, "cyd", true, Some(1)),
        hero(4, 7, "dee", false, None),
    ] {
        assert_eq!(row_matches(&f, &row), row_matches(&g, &row));
    }
}

#[test]
fn a_predicate_on_a_missing_column_holds_for_no_row() {
    let p = Predicate { column: 9, operator: Operator::Neq, value: Value::Int(1) };
    assert!(!p.holds_for(&hero(1, 7, "ann", true, Some(2))));
}
