use model_query::engine::{plan, statements, Request};
use model_query::filter::{Predicate, WhereEntry};
use model_query::order::{CompiledOrder, OrderInput, OrderKey, Weight};
use model_query::schema::{FieldDef, ModelSchema, Registry};
use model_query::shape::{Direction, Operator};
use model_query::statement::{count_statement, page_statement, quote_identifier, Statement};
use model_query::value::{Felt, ScalarKind, Value};

fn unit_schema() -> ModelSchema {
    ModelSchema::new("Unit")
        .with_field(FieldDef::new("owner", ScalarKind::Felt, false, true))
        .with_field(FieldDef::new("hp", ScalarKind::Int, true, false))
        .with_field(FieldDef::new("name", ScalarKind::Text, false, false))
        .with_field(FieldDef::new("alive", ScalarKind::Bool, false, false))
}

fn on(column: usize, operator: Operator, value: Value) -> Predicate {
    Predicate { column, operator, value }
}

fn number(n: u128, id: u64) -> OrderKey {
    OrderKey { weight: Weight::Number(Felt::from_u128(n)), id }
}

#[test]
fn identifiers_are_quoted_and_quotes_in_them_doubled() {
    assert_eq!(quote_identifier("x"), "\"x\"");
    assert_eq!(quote_identifier(""), "\"\"");
    assert_eq!(quote_identifier("last_direction"), "\"last_direction\"");
    assert_eq!(quote_identifier("a\"b"), "\"a\"\"b\"");
    assert_eq!(quote_identifier("\"; DROP TABLE x; --"), "\"\"\"; DROP TABLE x; --\"");
    assert_eq!(quote_identifier("é\"\""), "\"é\"\"\"\"\"");
}

#[test]
fn count_without_a_filter_has_no_where_clause() {
    assert_eq!(
        count_statement(&unit_schema(), &vec![]),
        Statement { text: "SELECT COUNT(*) FROM \"Unit\"".to_string(), parameters: vec![] }
    );
}

#[test]
fn count_with_a_filter_binds_every_value() {
    let filter = vec![
        on(1, Operator::Gte, Value::Int(42)),
        on(2, Operator::Neq, Value::Text("x' OR 1=1 --".to_string())),
        on(0, Operator::Eq, Value::Felt(Felt::from_u128(2))),
        on(1, Operator::Lt, Value::Int(7)),
        on(3, Operator::Eq, Value::Bool(true)),
        on(1, Operator::Gt, Value::Int(1)),
        on(1, Operator::Lte, Value::Int(9)),
    ];
    let statement = count_statement(&unit_schema(), &filter);
    assert_eq!(
        statement.text,
        "SELECT COUNT(*) FROM \"Unit\" WHERE \"hp\" >= ? AND \"name\" <> ? AND \"owner\" = ? \
         AND \"hp\" < ? AND \"alive\" = ? AND \"hp\" > ? AND \"hp\" <= ?"
    );
    let values: Vec<Value> = filter.iter().map(|p| p.value.clone()).collect();
    assert_eq!(statement.parameters, values);
    assert_eq!(statement.text.matches('?').count(), statement.parameters.len());
}

#[test]
fn the_text_is_the_same_whatever_the_values() {
    let one = vec![on(2, Operator::Eq, Value::Text("ann".to_string()))];
    let other = vec![on(2, Operator::Eq, Value::Text("\"; DROP TABLE \"Unit\"; --".to_string()))];
    let order = CompiledOrder { column: Some(1), direction: Direction::Desc };
    assert_eq!(
        count_statement(&unit_schema(), &one).text,
        count_statement(&unit_schema(), &other).text
    );
    assert_eq!(
        page_statement(&unit_schema(), &one, &order, None, Some(5)).text,
        page_statement(&unit_schema(), &other, &order, None, Some(5)).text
    );
}

#[test]
fn a_page_without_anything_asked_for() {
    let natural = CompiledOrder { column: None, direction: Direction::Asc };
    assert_eq!(
        page_statement(&unit_schema(), &vec![], &natural, None, None),
        Statement {
            text: "SELECT * FROM \"Unit\" ORDER BY rowid ASC".to_string(),
            parameters: vec![]
        }
    );
}

#[test]
fn a_page_with_filter_order_cursor_and_size() {
    let filter = vec![on(3, Operator::Eq, Value::Bool(true))];
    let order = CompiledOrder { column: Some(1), direction: Direction::Asc };
    assert_eq!(
        page_statement(&unit_schema(), &filter, &order, Some(number(30, 4)), Some(10)),
        Statement {
            text: "SELECT * FROM \"Unit\" WHERE \"alive\" = ? AND (\"hp\" > ? OR (\"hp\" = ? AND \
                   rowid > ?)) ORDER BY \"hp\" ASC, rowid ASC LIMIT ?"
                .to_string(),
            parameters: vec![
                Value::Bool(true),
                Value::Int(30),
                Value::Int(30),
                Value::Int(4),
                Value::Int(10)
            ],
        }
    );
}

#[test]
fn seeking_in_each_direction_and_past_absent_values() {
    let schema = unit_schema();
    let asc = CompiledOrder { column: Some(1), direction: Direction::Asc };
    let desc = CompiledOrder { column: Some(1), direction: Direction::Desc };
    let absent = OrderKey { weight: Weight::Absent, id: 4 };
    assert_eq!(
        page_statement(&schema, &vec![], &desc, Some(number(30, 4)), None),
        Statement {
            text: "SELECT * FROM \"Unit\" WHERE (\"hp\" < ? OR \"hp\" IS NULL OR (\"hp\" = ? AND \
                   rowid < ?)) ORDER BY \"hp\" DESC, rowid DESC"
                .to_string(),
            parameters: vec![Value::Int(30), Value::Int(30), Value::Int(4)],
        }
    );
    assert_eq!(
        page_statement(&schema, &vec![], &asc, Some(absent), None),
        Statement {
            text: "SELECT * FROM \"Unit\" WHERE (\"hp\" IS NOT NULL OR (\"hp\" IS NULL AND rowid \
                   > ?)) ORDER BY \"hp\" ASC, rowid ASC"
                .to_string(),
            parameters: vec![Value::Int(4)],
        }
    );
    assert_eq!(
        page_statement(&schema, &vec![], &desc, Some(absent), None),
        Statement {
            text: "SELECT * FROM \"Unit\" WHERE (\"hp\" IS NULL AND rowid < ?) ORDER BY \"hp\" \
                   DESC, rowid DESC"
                .to_string(),
            parameters: vec![Value::Int(4)],
        }
    );
    let natural_desc = CompiledOrder { column: None, direction: Direction::Desc };
    assert_eq!(
        page_statement(&schema, &vec![], &natural_desc, Some(absent), Some(0)),
        Statement {
            text: "SELECT * FROM \"Unit\" WHERE rowid < ? ORDER BY rowid DESC LIMIT ?".to_string(),
            parameters: vec![Value::Int(4), Value::Int(0)],
        }
    );
}

#[test]
fn seek_values_take_the_kind_of_the_column() {
    let schema = unit_schema();
    let by_owner = CompiledOrder { column: Some(0), direction: Direction::Asc };
    let by_alive = CompiledOrder { column: Some(3), direction: Direction::Asc };
    let by_hp = CompiledOrder { column: Some(1), direction: Direction::Asc };
    let wide = OrderKey { weight: Weight::Number(Felt { hi: 1, lo: 2 }), id: 9 };
    assert_eq!(
        page_statement(&schema, &vec![], &by_owner, Some(number(2, 9)), None).parameters,
        vec![Value::Felt(Felt::from_u128(2)), Value::Felt(Felt::from_u128(2)), Value::Int(9)]
    );
    assert_eq!(
        page_statement(&schema, &vec![], &by_alive, Some(number(1, 9)), None).parameters,
        vec![Value::Bool(true), Value::Bool(true), Value::Int(9)]
    );
    assert_eq!(
        page_statement(&schema, &vec![], &by_alive, Some(number(0, 9)), None).parameters,
        vec![Value::Bool(false), Value::Bool(false), Value::Int(9)]
    );
    assert_eq!(
        page_statement(&schema, &vec![], &by_hp, Some(wide), None).parameters,
        vec![
            Value::Felt(Felt { hi: 1, lo: 2 }),
            Value::Felt(Felt { hi: 1, lo: 2 }),
            Value::Int(9)
        ]
    );
}

#[test]
fn a_column_that_the_schema_lacks_is_written_as_null() {
    let filter = vec![on(9, Operator::Eq, Value::Int(1))];
    let order = CompiledOrder { column: Some(9), direction: Direction::Asc };
    assert_eq!(
        page_statement(&unit_schema(), &filter, &order, None, None).text,
        "SELECT * FROM \"Unit\" WHERE NULL = ? ORDER BY NULL ASC, rowid ASC"
    );
}

#[test]
fn statements_of_a_planned_request() {
    let mut registry = Registry::new();
    registry.register(unit_schema()).unwrap();
    let request = Request::new("Unit")
        .filtered(WhereEntry::new("hpGTE", Value::Int(42)))
        .ordered(OrderInput::new("HP", "DESC"))
        .limited(2);
    let planned = plan(&registry, &request).unwrap();
    let (count, page) = statements(&planned);
    assert_eq!(count.text, "SELECT COUNT(*) FROM \"Unit\" WHERE \"hp\" >= ?");
    assert_eq!(count.parameters, vec![Value::Int(42)]);
    assert_eq!(
        page.text,
        "SELECT * FROM \"Unit\" WHERE \"hp\" >= ? ORDER BY \"hp\" DESC, rowid DESC LIMIT ?"
    );
    assert_eq!(page.parameters, vec![Value::Int(42), Value::Int(2)]);
}
