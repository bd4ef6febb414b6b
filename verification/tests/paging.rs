use model_query::cursor::{decode, encode};
use model_query::engine::{plan, resolve_connection, run, Request};
use model_query::error::{CursorIssue, QueryError, SchemaIssue};
use model_query::executor::{count_matching, execute, position_of, Connection};
use model_query::filter::{compile_filter, Predicate, WhereEntry};
use model_query::fingerprint::{fingerprint, Fingerprint};
use model_query::order::{compile_order, CompiledOrder, OrderInput, OrderKey, Weight};
use model_query::row::Row;
use model_query::schema::{FieldDef, ModelSchema, Registry};
use model_query::shape::{Direction, Operator};
use model_query::value::{Felt, ScalarKind, Value};

fn score_schema() -> ModelSchema {
    ModelSchema::new("Score")
        .with_field(FieldDef::new("player", ScalarKind::Felt, false, true))
        .with_field(FieldDef::new("points", ScalarKind::Int, true, false))
        .with_field(FieldDef::new("note", ScalarKind::Text, true, false))
}

fn score(id: u64, points: Option<u64>) -> Row {
    Row::new(
        id,
        vec![
            Value::Felt(Felt::from_u128(id as u128 + 100)),
            match points {
                Some(n) => Value::Int(n),
                None => Value::Null,
            },
            Value::Text(format!("row {}", id)),
        ],
    )
}

/// Seven rows; points tie at 10 (ids 2, 4, 7) and are absent for id 5.
fn score_rows() -> Vec<Row> {
    vec![
        score(1, Some(30)),
        score(2, Some(10)),
        score(3, Some(20)),
        score(4, Some(10)),
        score(5, None),
        score(6, Some(40)),
        score(7, Some(10)),
    ]
}

fn score_registry() -> Registry {
    let mut registry = Registry::new();
    registry.register(score_schema()).unwrap();
    registry
}

fn ids(connection: &Connection) -> Vec<u64> {
    connection.edges.iter().map(|e| e.node.id).collect()
}

fn walk(request: &Request, size: usize) -> (Vec<u64>, Vec<usize>) {
    let registry = score_registry();
    let rows = score_rows();
    let mut seen = Vec::new();
    let mut counts = Vec::new();
    let mut after: Option<String> = None;
    loop {
        let mut paged = request.clone().limited(size);
        if let Some(cursor) = &after {
            paged = paged.resumed(cursor);
        }
        let connection = resolve_connection(&registry, &paged, &rows).unwrap();
        counts.push(connection.total_count);
        seen.extend(ids(&connection));
        if connection.edges.len() < size {
            return (seen, counts);
        }
        after = Some(connection.edges.last().unwrap().cursor.clone());
    }
}

#[test]
fn without_an_order_rows_come_in_ascending_identity() {
    let connection =
        resolve_connection(&score_registry(), &Request::new("Score"), &score_rows()).unwrap();
    assert_eq!(connection.total_count, 7);
    assert_eq!(ids(&connection), vec![1, 2, 3, 4, 5, 6, 7]);
}

#[test]
fn ascending_order_breaks_ties_by_identity_and_puts_absent_first() {
    let request = Request::new("Score").ordered(OrderInput::new("POINTS", "ASC"));
    let connection = resolve_connection(&score_registry(), &request, &score_rows()).unwrap();
    assert_eq!(ids(&connection), vec![5, 2, 4, 7, 3, 1, 6]);
}

#[test]
fn descending_order_reverses_the_tie_break_too() {
    let request = Request::new("Score").ordered(OrderInput::new("POINTS", "DESC"));
    let connection = resolve_connection(&score_registry(), &request, &score_rows()).unwrap();
    assert_eq!(ids(&connection), vec![6, 1, 3, 7, 4, 2, 5]);
}

#[test]
fn pages_laid_end_to_end_are_the_whole_result() {
    let requests = vec![
        (Request::new("Score"), vec![1, 2, 3, 4, 5, 6, 7]),
        (
            Request::new("Score").ordered(OrderInput::new("POINTS", "ASC")),
            vec![5, 2, 4, 7, 3, 1, 6],
        ),
        (
            Request::new("Score").ordered(OrderInput::new("POINTS", "DESC")),
            vec![6, 1, 3, 7, 4, 2, 5],
        ),
        (
            Request::new("Score")
                .filtered(WhereEntry::new("pointsLTE", Value::Int(20)))
                .ordered(OrderInput::new("POINTS", "DESC")),
            vec![3, 7, 4, 2],
        ),
        (
            Request::new("Score")
                .filtered(WhereEntry::new("points", Value::Int(10)))
                .ordered(OrderInput::new("PLAYER", "DESC")),
            vec![7, 4, 2],
        ),
    ];
    for (request, expected) in requests {
        for size in 1..=8 {
            let (seen, counts) = walk(&request, size);
            assert_eq!(seen, expected, "page size {}", size);
            assert!(counts.iter().all(|n| *n == expected.len()));
        }
    }
}

#[test]
fn total_count_does_not_depend_on_the_page() {
    let registry = score_registry();
    let rows = score_rows();
    let base = Request::new("Score").filtered(WhereEntry::new("pointsGTE", Value::Int(10)));
    let all = resolve_connection(&registry, &base, &rows).unwrap();
    assert_eq!(all.total_count, 6);
    assert_eq!(all.edges.len(), 6);
    for first in 0..8 {
        let page = resolve_connection(&registry, &base.clone().limited(first), &rows).unwrap();
        assert_eq!(page.total_count, 6);
        assert_eq!(page.edges.len(), first.min(6));
        for edge in &all.edges {
            let resumed = base.clone().limited(first).resumed(&edge.cursor);
            assert_eq!(resolve_connection(&registry, &resumed, &rows).unwrap().total_count, 6);
        }
    }
}

#[test]
fn a_page_of_no_rows_still_counts() {
    let request = Request::new("Score").limited(0);
    let connection = resolve_connection(&score_registry(), &request, &score_rows()).unwrap();
    assert_eq!(connection.total_count, 7);
    assert!(connection.edges.is_empty());
}

#[test]
fn an_empty_table_is_answered_with_nothing() {
    let connection = resolve_connection(&score_registry(), &Request::new("Score"), &vec![]).unwrap();
    assert_eq!(connection, Connection { total_count: 0, edges: vec![] });
}

#[test]
fn resuming_after_the_last_row_gives_an_empty_page() {
    let registry = score_registry();
    let rows = score_rows();
    let all = resolve_connection(&registry, &Request::new("Score"), &rows).unwrap();
    let last = all.edges.last().unwrap().cursor.clone();
    let rest = resolve_connection(&registry, &Request::new("Score").resumed(&last), &rows).unwrap();
    assert_eq!(rest.total_count, 7);
    assert!(rest.edges.is_empty());
}

#[test]
fn each_edge_carries_the_cursor_of_its_position() {
    let registry = score_registry();
    let rows = score_rows();
    let request = Request::new("Score").ordered(OrderInput::new("POINTS", "ASC"));
    let planned = plan(&registry, &request).unwrap();
    assert_eq!(planned.order, CompiledOrder { column: Some(1), direction: Direction::Asc });
    assert_eq!(planned.mark, fingerprint("Score", &vec![], &planned.order));
    let connection = run(&planned, &rows).unwrap();
    for edge in &connection.edges {
        let key = position_of(&planned.order, &edge.node);
        assert_eq!(edge.cursor, encode(&key, &planned.mark));
        assert_eq!(decode(&edge.cursor), Ok((key, planned.mark)));
    }
    assert_eq!(
        position_of(&planned.order, &rows[0]),
        OrderKey { weight: Weight::Number(Felt { hi: 0, lo: 30 }), id: 1 }
    );
    assert_eq!(
        position_of(&planned.order, &rows[4]),
        OrderKey { weight: Weight::Absent, id: 5 }
    );
}

#[test]
fn a_cursor_from_another_order_is_refused() {
    let registry = score_registry();
    let rows = score_rows();
    let ascending = Request::new("Score").ordered(OrderInput::new("POINTS", "ASC"));
    let cursor =
        resolve_connection(&registry, &ascending, &rows).unwrap().edges[2].cursor.clone();
    let others = vec![
        Request::new("Score"),
        Request::new("Score").ordered(OrderInput::new("POINTS", "DESC")),
        Request::new("Score").ordered(OrderInput::new("PLAYER", "ASC")),
        ascending.clone().filtered(WhereEntry::new("pointsGT", Value::Int(0))),
    ];
    for other in others {
        let fault = resolve_connection(&registry, &other.resumed(&cursor), &rows).unwrap_err();
        assert!(fault.is_cursor());
        assert_eq!(fault, QueryError::Cursor(CursorIssue::Foreign));
    }
    assert!(resolve_connection(&registry, &ascending.resumed(&cursor), &rows).is_ok());
}

#[test]
fn a_cursor_that_is_no_cursor_is_refused() {
    let request = Request::new("Score").resumed("bm90IGEgY3Vyc29y");
    assert_eq!(
        resolve_connection(&score_registry(), &request, &score_rows()),
        Err(QueryError::Cursor(CursorIssue::Malformed))
    );
}

#[test]
fn a_faulty_request_fails_whatever_the_rows_are() {
    let registry = score_registry();
    let broken_rows = vec![score(2, Some(1)), score(1, Some(1)), Row::new(9, vec![])];
    let cases = vec![
        (Request::new("Nothing"), SchemaIssue::UnknownModel, "Nothing"),
        (
            Request::new("Score").filtered(WhereEntry::new("height", Value::Int(1))),
            SchemaIssue::UnknownField,
            "height",
        ),
        (
            Request::new("Score")
                .filtered(WhereEntry::new("noteGT", Value::Text("a".to_string()))),
            SchemaIssue::IllegalOperator,
            "noteGT",
        ),
        (
            Request::new("Score").ordered(OrderInput::new("NOTE", "ASC")),
            SchemaIssue::NotOrderable,
            "NOTE",
        ),
    ];
    for (request, issue, subject) in cases {
        let expected = QueryError::SchemaValidation { issue, subject: subject.to_string() };
        assert_eq!(plan(&registry, &request), Err(expected.clone()));
        for rows in [score_rows(), broken_rows.clone(), vec![]] {
            let fault = resolve_connection(&registry, &request, &rows).unwrap_err();
            assert!(fault.is_schema_validation());
            assert_eq!(fault, expected);
        }
    }
}

#[test]
fn a_fault_in_the_filter_comes_before_one_in_the_order_or_cursor() {
    let request = Request::new("Score")
        .filtered(WhereEntry::new("height", Value::Int(1)))
        .ordered(OrderInput::new("NOTE", "UP"))
        .resumed("zz");
    assert_eq!(
        plan(&score_registry(), &request),
        Err(QueryError::SchemaValidation {
            issue: SchemaIssue::UnknownField,
            subject: "height".to_string()
        })
    );
    let request = Request::new("Score").ordered(OrderInput::new("NOTE", "UP")).resumed("zz");
    assert_eq!(
        plan(&score_registry(), &request),
        Err(QueryError::SchemaValidation {
            issue: SchemaIssue::NotOrderable,
            subject: "NOTE".to_string()
        })
    );
}

#[test]
fn rows_that_are_no_snapshot_are_a_store_error() {
    let registry = score_registry();
    let unsorted = vec![score(2, Some(1)), score(1, Some(1))];
    let repeated = vec![score(1, Some(1)), score(1, Some(2))];
    let misfit = vec![Row::new(1, vec![Value::Int(1), Value::Int(2), Value::Null])];
    let short = vec![Row::new(1, vec![])];
    for rows in [unsorted, repeated, misfit, short] {
        assert_eq!(
            resolve_connection(&registry, &Request::new("Score"), &rows),
            Err(QueryError::Store)
        );
    }
}

#[test]
fn execute_on_compiled_parts() {
    let schema = score_schema();
    let rows = score_rows();
    let filter =
        compile_filter(&schema, &vec![WhereEntry::new("pointsNEQ", Value::Int(10))]).unwrap();
    assert_eq!(
        filter,
        vec![Predicate { column: 1, operator: Operator::Neq, value: Value::Int(10) }]
    );
    assert_eq!(count_matching(&rows, &filter), 3);
    assert_eq!(count_matching(&rows, &vec![]), 7);
    let input = OrderInput::new("POINTS", "DESC");
    let order = compile_order(&schema, Some(&input)).unwrap();
    let mark = Fingerprint { scope: 1, column: 1, mode: 3 };
    let first_page = execute(&schema, &rows, &filter, &order, &mark, None, 2).unwrap();
    assert_eq!(first_page.total_count, 3);
    assert_eq!(ids(&first_page), vec![6, 1]);
    let after = position_of(&order, &first_page.edges[1].node);
    let second_page = execute(&schema, &rows, &filter, &order, &mark, Some(after), 2).unwrap();
    assert_eq!(second_page.total_count, 3);
    assert_eq!(ids(&second_page), vec![3]);
    // a position between two rows resumes with the next row
    let between = OrderKey { weight: Weight::Number(Felt { hi: 0, lo: 25 }), id: 0 };
    let third = execute(&schema, &rows, &filter, &order, &mark, Some(between), 5).unwrap();
    assert_eq!(ids(&third), vec![3]);
}

#[test]
fn nodes_are_the_rows_as_the_snapshot_has_them() {
    let rows = score_rows();
    let connection =
        resolve_connection(&score_registry(), &Request::new("Score"), &rows).unwrap();
    for (edge, row) in connection.edges.iter().zip(&rows) {
        assert_eq!(&edge.node, row);
        assert_eq!(edge.node.duplicate(), *row);
    }
}
