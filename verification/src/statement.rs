//! Statements for a relational store: the count and the page of a query as
//! parameterized text.
//!
//! Identifiers are taken from the schema and quoted; every value that a
//! client supplied leaves the text and travels as a parameter, in the order
//! of the placeholders. What the store must answer to these statements is
//! what the executor answers on a snapshot.

use vstd::prelude::*;
use vstd::string::*;
use crate::filter::{Predicate, PredicateView, predicate_views};
use crate::order::{CompiledOrder, OrderKey, Weight, weight_of};
use crate::schema::{ModelSchema, SchemaView};
use crate::shape::{Direction, Operator, orderable};
use crate::value::{Felt, ScalarKind, Value, ValueView, views_of};

verus! {

/// A statement and the values for its placeholders, in order.
#[derive(Clone, Debug, PartialEq, Eq)]
pub struct Statement {
    pub text: String,
    pub parameters: Vec<Value>,
}

/// The mathematical content of a [`Statement`].
pub struct StatementView {
    pub text: Seq<char>,
    pub parameters: Seq<ValueView>,
}

impl View for Statement {
    type V = StatementView;

    open spec fn view(&self) -> StatementView {
        StatementView { text: self.text@, parameters: views_of(self.parameters@) }
    }
}

/// A name with every double quote in it doubled.
pub open spec fn escaped(name: Seq<char>) -> Seq<char>
    decreases name.len(),
{
    if name.len() == 0 {
        Seq::empty()
    } else if name.last() == '"' {
        escaped(name.drop_last()) + "\"\""@
    } else {
        escaped(name.drop_last()).push(name.last())
    }
}

/// A name as a quoted identifier.
pub open spec fn quoted(name: Seq<char>) -> Seq<char> {
    "\""@ + escaped(name) + "\""@
}

/// The column of the row's identity.
pub open spec fn identity() -> Seq<char> {
    "rowid"@
}

/// What stands for a column in a statement: the quoted name of the field, or
/// `NULL` for a column that the schema does not have, which no comparison
/// holds of.
pub open spec fn operand(schema: SchemaView, column: int) -> Seq<char> {
    if 0 <= column < schema.fields.len() {
        quoted(schema.fields[column].name)
    } else {
        "NULL"@
    }
}

/// How an operator is written.
pub open spec fn symbol(op: Operator) -> Seq<char> {
    match op {
        Operator::Eq => " = ?"@,
        Operator::Neq => " <> ?"@,
        Operator::Gt => " > ?"@,
        Operator::Gte => " >= ?"@,
        Operator::Lt => " < ?"@,
        Operator::Lte => " <= ?"@,
    }
}

/// One predicate as a condition with a placeholder for its value.
pub open spec fn condition(schema: SchemaView, p: PredicateView) -> Seq<char> {
    operand(schema, p.column) + symbol(p.operator)
}

/// The conditions of a filter, joined by `AND`.
pub open spec fn conjunction(schema: SchemaView, filter: Seq<PredicateView>) -> Seq<char>
    decreases filter.len(),
{
    if filter.len() == 0 {
        Seq::empty()
    } else if filter.len() == 1 {
        condition(schema, filter[0])
    } else {
        conjunction(schema, filter.drop_last()) + " AND "@ + condition(schema, filter.last())
    }
}

/// The values of a filter, one for each condition.
pub open spec fn filter_parameters(filter: Seq<PredicateView>) -> Seq<ValueView> {
    Seq::new(filter.len(), |k: int| filter[k].value)
}

/// How a direction is written.
pub open spec fn direction_word(direction: Direction) -> Seq<char> {
    match direction {
        Direction::Asc => " ASC"@,
        Direction::Desc => " DESC"@,
    }
}

/// The comparison that lets through what comes later in a direction.
pub open spec fn later(direction: Direction) -> Seq<char> {
    match direction {
        Direction::Asc => " > ?"@,
        Direction::Desc => " < ?"@,
    }
}

/// The order clause: the ordering field, if any, then the identity, both in
/// the order's direction.
pub open spec fn ordering(schema: SchemaView, order: CompiledOrder) -> Seq<char> {
    match order.column {
        Some(c) => " ORDER BY "@ + operand(schema, c as int) + direction_word(order.direction)
            + ", "@ + identity() + direction_word(order.direction),
        None => " ORDER BY "@ + identity() + direction_word(order.direction),
    }
}

/// The condition that lets through the rows past a position. Absent values
/// come first in ascending order and last in descending order.
pub open spec fn seek(schema: SchemaView, order: CompiledOrder, key: OrderKey) -> Seq<char> {
    match order.column {
        None => identity() + later(order.direction),
        Some(c) => {
            let column = operand(schema, c as int);
            let tie = identity() + later(order.direction);
            match (key.weight, order.direction) {
                (Weight::Number(_), Direction::Asc) => "("@ + column + " > ? OR ("@ + column
                    + " = ? AND "@ + tie + "))"@,
                (Weight::Number(_), Direction::Desc) => "("@ + column + " < ? OR "@ + column
                    + " IS NULL OR ("@ + column + " = ? AND "@ + tie + "))"@,
                (Weight::Absent, Direction::Asc) => "("@ + column + " IS NOT NULL OR ("@ + column
                    + " IS NULL AND "@ + tie + "))"@,
                (Weight::Absent, Direction::Desc) => "("@ + column + " IS NULL AND "@ + tie
                    + ")"@,
            }
        },
    }
}

/// The value of the given kind that has the given weight.
pub open spec fn weighing(kind: ScalarKind, weight: Felt) -> ValueView {
    match kind {
        ScalarKind::Bool => ValueView::Bool(weight.hi != 0 || weight.lo != 0),
        ScalarKind::Int => if weight.hi == 0 && weight.lo <= u64::MAX {
            ValueView::Int(weight.lo as u64)
        } else {
            ValueView::Felt(weight)
        },
        _ => ValueView::Felt(weight),
    }
}

/// An orderable value is the value of its kind that has its weight.
pub proof fn lemma_weighing_inverts(v: ValueView)
    requires
        v.kind() matches Some(kind) && orderable(kind),
    ensures
        weight_of(v) matches Weight::Number(w) && weighing(v.kind()->0, w) == v,
{
}

/// The kind of a column; a column that the schema lacks counts as a field element.
pub open spec fn kind_at(schema: SchemaView, column: int) -> ScalarKind {
    if 0 <= column < schema.fields.len() {
        schema.fields[column].kind
    } else {
        ScalarKind::Felt
    }
}

/// The values for the placeholders of [`seek`].
pub open spec fn seek_parameters(schema: SchemaView, order: CompiledOrder, key: OrderKey) -> Seq<
    ValueView,
> {
    match (order.column, key.weight) {
        (Some(c), Weight::Number(w)) => seq![
            weighing(kind_at(schema, c as int), w),
            weighing(kind_at(schema, c as int), w),
            ValueView::Int(key.id),
        ],
        _ => seq![ValueView::Int(key.id)],
    }
}

/// The where clause of a statement: the filter's conditions and the seek
/// condition, as far as there are any.
pub open spec fn restriction(
    schema: SchemaView,
    filter: Seq<PredicateView>,
    order: CompiledOrder,
    after: Option<OrderKey>,
) -> Seq<char> {
    match after {
        None => if filter.len() == 0 {
            Seq::empty()
        } else {
            " WHERE "@ + conjunction(schema, filter)
        },
        Some(key) => if filter.len() == 0 {
            " WHERE "@ + seek(schema, order, key)
        } else {
            " WHERE "@ + conjunction(schema, filter) + " AND "@ + seek(schema, order, key)
        },
    }
}

/// The statement that counts the rows that match a filter.
pub open spec fn count_query(schema: SchemaView, filter: Seq<PredicateView>) -> StatementView {
    StatementView {
        text: "SELECT COUNT(*) FROM "@ + quoted(schema.name) + restriction(
            schema,
            filter,
            CompiledOrder::natural(),
            None,
        ),
        parameters: filter_parameters(filter),
    }
}

/// The statement that selects a page: the rows that match the filter and lie
/// past the position, in order, and no more of them than the page may hold.
pub open spec fn page_query(
    schema: SchemaView,
    filter: Seq<PredicateView>,
    order: CompiledOrder,
    after: Option<OrderKey>,
    first: Option<usize>,
) -> StatementView {
    StatementView {
        text: "SELECT * FROM "@ + quoted(schema.name) + restriction(schema, filter, order, after)
            + ordering(schema, order) + match first {
            Some(_) => " LIMIT ?"@,
            None => Seq::empty(),
        },
        parameters: filter_parameters(filter) + match after {
            Some(key) => seek_parameters(schema, order, key),
            None => Seq::empty(),
        } + match first {
            Some(n) => seq![ValueView::Int(n as u64)],
            None => Seq::empty(),
        },
    }
}

/// Whether two filters put the same operators on the same columns.
pub open spec fn same_conditions(a: Seq<PredicateView>, b: Seq<PredicateView>) -> bool {
    &&& a.len() == b.len()
    &&& forall|k: int|
        0 <= k < a.len() ==> (#[trigger] a[k]).column == b[k].column && a[k].operator
            == b[k].operator
}

/// The text of a where clause does not depend on the values that a client
/// supplied: filters that put the same operators on the same columns are
/// written the same.
pub proof fn lemma_text_ignores_values(
    schema: SchemaView,
    a: Seq<PredicateView>,
    b: Seq<PredicateView>,
)
    requires
        same_conditions(a, b),
    ensures
        conjunction(schema, a) == conjunction(schema, b),
        count_query(schema, a).text == count_query(schema, b).text,
        forall|order: CompiledOrder, first: Option<usize>|
            (#[trigger] page_query(schema, a, order, None, first)).text == page_query(
                schema,
                b,
                order,
                None,
                first,
            ).text,
    decreases a.len(),
{
    if a.len() > 1 {
        assert(same_conditions(a.drop_last(), b.drop_last())) by {
            assert forall|k: int| 0 <= k < a.len() - 1 implies (#[trigger] a.drop_last()[k]).column
                == b.drop_last()[k].column && a.drop_last()[k].operator
                == b.drop_last()[k].operator by {
                assert(a[k].column == b[k].column);
            }
        }
        lemma_text_ignores_values(schema, a.drop_last(), b.drop_last());
        assert(a[a.len() - 1].column == b[a.len() - 1].column);
    } else if a.len() == 1 {
        assert(a[0].column == b[0].column);
    }
}

/// A name as a quoted identifier.
pub fn quote_identifier(name: &str) -> (text: String)
    ensures
        text@ == quoted(name@),
{
    let n = name.unicode_len();
    let mut text = String::from_str("\"");
    let ghost opening = text@;
    let mut i: usize = 0;
    assert(name@.take(0) =~= Seq::<char>::empty());
    while i < n
        invariant
            i <= n,
            n == name@.len(),
            opening == "\""@,
            text@ == opening + escaped(name@.take(i as int)),
        decreases n - i,
    {
        let c = name.get_char(i);
        proof {
            assert(name@.take(i + 1).drop_last() =~= name@.take(i as int));
            assert(name@.take(i + 1).last() == c);
        }
        if c == '"' {
            text.append("\"\"");
        } else {
            text.append(name.substring_char(i, i + 1));
        }
        assert(text@ =~= opening + escaped(name@.take(i + 1)));
        i += 1;
    }
    assert(name@.take(n as int) =~= name@);
    text.append("\"");
    text
}

/// What stands for a column in a statement.
fn operand_of(schema: &ModelSchema, column: usize) -> (text: String)
    ensures
        text@ == operand(schema@, column as int),
{
    if column < schema.fields.len() {
        assert(schema.fields@[column as int]@ == schema@.fields[column as int]);
        quote_identifier(schema.fields[column].name.as_str())
    } else {
        String::from_str("NULL")
    }
}

/// How an operator is written.
fn symbol_of(op: Operator) -> (s: &'static str)
    ensures
        s@ == symbol(op),
{
    match op {
        Operator::Eq => " = ?",
        Operator::Neq => " <> ?",
        Operator::Gt => " > ?",
        Operator::Gte => " >= ?",
        Operator::Lt => " < ?",
        Operator::Lte => " <= ?",
    }
}

fn direction_word_of(direction: Direction) -> (s: &'static str)
    ensures
        s@ == direction_word(direction),
{
    match direction {
        Direction::Asc => " ASC",
        Direction::Desc => " DESC",
    }
}

fn later_of(direction: Direction) -> (s: &'static str)
    ensures
        s@ == later(direction),
{
    match direction {
        Direction::Asc => " > ?",
        Direction::Desc => " < ?",
    }
}

/// Appends the conditions of a filter, joined by `AND`, and collects their values.
fn write_conjunction(
    schema: &ModelSchema,
    filter: &Vec<Predicate>,
    text: &mut String,
    parameters: &mut Vec<Value>,
)
    ensures
        final(text)@ == old(text)@ + conjunction(schema@, predicate_views(filter@)),
        views_of(final(parameters)@) == views_of(old(parameters)@) + filter_parameters(
            predicate_views(filter@),
        ),
{
    let ghost start = text@;
    let ghost held = views_of(parameters@);
    let ghost all = predicate_views(filter@);
    let mut k: usize = 0;
    assert(all.take(0) =~= Seq::<PredicateView>::empty());
    assert(text@ =~= start + conjunction(schema@, all.take(0)));
    assert(views_of(parameters@) =~= held + filter_parameters(all.take(0)));
    while k < filter.len()
        invariant
            k <= filter.len(),
            all == predicate_views(filter@),
            text@ == start + conjunction(schema@, all.take(k as int)),
            views_of(parameters@) == held + filter_parameters(all.take(k as int)),
        decreases filter.len() - k,
    {
        let p = &filter[k];
        proof {
            assert(all.take(k + 1).drop_last() =~= all.take(k as int));
            assert(all.take(k + 1).last() == p@);
            assert(all.take(k + 1)[0] == all[0]);
        }
        let ghost before = text@;
        let ghost values = views_of(parameters@);
        if k > 0 {
            text.append(" AND ");
        }
        let column = operand_of(schema, p.column);
        text.append(column.as_str());
        text.append(symbol_of(p.operator));
        parameters.push(p.value.duplicate());
        proof {
            assert(text@ =~= start + conjunction(schema@, all.take(k + 1)));
            assert(views_of(parameters@) =~= values.push(p@.value));
            assert(views_of(parameters@) =~= held + filter_parameters(all.take(k + 1)));
        }
        k += 1;
    }
    assert(all.take(filter.len() as int) =~= all);
}

/// The value of the given kind that has the given weight.
fn weighing_of(kind: ScalarKind, weight: Felt) -> (v: Value)
    ensures
        v@ == weighing(kind, weight),
{
    match kind {
        ScalarKind::Bool => Value::Bool(weight.hi != 0 || weight.lo != 0),
        ScalarKind::Int => if weight.hi == 0 && weight.lo <= 0xffff_ffff_ffff_ffffu128 {
            Value::Int(weight.lo as u64)
        } else {
            Value::Felt(weight)
        },
        _ => Value::Felt(weight),
    }
}

/// Appends the seek condition and collects its values.
fn write_seek(
    schema: &ModelSchema,
    order: &CompiledOrder,
    key: &OrderKey,
    text: &mut String,
    parameters: &mut Vec<Value>,
)
    ensures
        final(text)@ == old(text)@ + seek(schema@, *order, *key),
        views_of(final(parameters)@) == views_of(old(parameters)@) + seek_parameters(
            schema@,
            *order,
            *key,
        ),
{
    let ghost start = text@;
    let ghost held = views_of(parameters@);
    let tie_word = later_of(order.direction);
    match order.column {
        None => {
            text.append("rowid");
            text.append(tie_word);
        },
        Some(c) => {
            let column = operand_of(schema, c);
            match (key.weight, order.direction) {
                (Weight::Number(_), Direction::Asc) => {
                    text.append("(");
                    text.append(column.as_str());
                    text.append(" > ? OR (");
                    text.append(column.as_str());
                    text.append(" = ? AND ");
                    text.append("rowid");
                    text.append(tie_word);
                    text.append("))");
                },
                (Weight::Number(_), Direction::Desc) => {
                    text.append("(");
                    text.append(column.as_str());
                    text.append(" < ? OR ");
                    text.append(column.as_str());
                    text.append(" IS NULL OR (");
                    text.append(column.as_str());
                    text.append(" = ? AND ");
                    text.append("rowid");
                    text.append(tie_word);
                    text.append("))");
                },
                (Weight::Absent, Direction::Asc) => {
                    text.append("(");
                    text.append(column.as_str());
                    text.append(" IS NOT NULL OR (");
                    text.append(column.as_str());
                    text.append(" IS NULL AND ");
                    text.append("rowid");
                    text.append(tie_word);
                    text.append("))");
                },
                (Weight::Absent, Direction::Desc) => {
                    text.append("(");
                    text.append(column.as_str());
                    text.append(" IS NULL AND ");
                    text.append("rowid");
                    text.append(tie_word);
                    text.append(")");
                },
            }
        },
    }
    assert(text@ =~= start + seek(schema@, *order, *key));
    match (order.column, key.weight) {
        (Some(c), Weight::Number(w)) => {
            let kind = if c < schema.fields.len() {
                assert(schema.fields@[c as int]@ == schema@.fields[c as int]);
                schema.fields[c].kind
            } else {
                ScalarKind::Felt
            };
            parameters.push(weighing_of(kind, w));
            parameters.push(weighing_of(kind, w));
        },
        _ => {},
    }
    parameters.push(Value::Int(key.id));
    assert(views_of(parameters@) =~= held + seek_parameters(schema@, *order, *key));
}

/// Appends the where clause and collects its values.
fn write_restriction(
    schema: &ModelSchema,
    filter: &Vec<Predicate>,
    order: &CompiledOrder,
    after: Option<OrderKey>,
    text: &mut String,
    parameters: &mut Vec<Value>,
)
    ensures
        final(text)@ == old(text)@ + restriction(
            schema@,
            predicate_views(filter@),
            *order,
            after,
        ),
        views_of(final(parameters)@) == views_of(old(parameters)@) + filter_parameters(
            predicate_views(filter@),
        ) + match after {
            Some(key) => seek_parameters(schema@, *order, key),
            None => Seq::empty(),
        },
{
    let ghost start = text@;
    let ghost held = views_of(parameters@);
    if filter.len() > 0 || after.is_some() {
        text.append(" WHERE ");
    }
    write_conjunction(schema, filter, text, parameters);
    match after {
        Some(key) => {
            if filter.len() > 0 {
                text.append(" AND ");
            }
            write_seek(schema, order, &key, text, parameters);
        },
        None => {},
    }
    proof {
        let views = predicate_views(filter@);
        if views.len() == 0 {
            assert(conjunction(schema@, views) =~= Seq::<char>::empty());
        }
        assert(text@ =~= start + restriction(schema@, views, *order, after));
        assert(views_of(parameters@) =~= held + filter_parameters(views) + match after {
            Some(key) => seek_parameters(schema@, *order, key),
            None => Seq::empty(),
        });
    }
}

/// The statement that counts the rows that match a filter.
pub fn count_statement(schema: &ModelSchema, filter: &Vec<Predicate>) -> (statement: Statement)
    ensures
        statement@ == count_query(schema@, predicate_views(filter@)),
{
    let mut text = String::from_str("SELECT COUNT(*) FROM ");
    let name = quote_identifier(schema.name.as_str());
    text.append(name.as_str());
    let mut parameters: Vec<Value> = Vec::new();
    let natural = CompiledOrder { column: None, direction: Direction::Asc };
    assert(views_of(parameters@) =~= Seq::<ValueView>::empty());
    write_restriction(schema, filter, &natural, None, &mut text, &mut parameters);
    let statement = Statement { text, parameters };
    assert(statement@.parameters =~= count_query(schema@, predicate_views(filter@)).parameters);
    statement
}

/// The statement that selects a page.
pub fn page_statement(
    schema: &ModelSchema,
    filter: &Vec<Predicate>,
    order: &CompiledOrder,
    after: Option<OrderKey>,
    first: Option<usize>,
) -> (statement: Statement)
    ensures
        statement@ == page_query(schema@, predicate_views(filter@), *order, after, first),
{
    let mut text = String::from_str("SELECT * FROM ");
    let name = quote_identifier(schema.name.as_str());
    text.append(name.as_str());
    let mut parameters: Vec<Value> = Vec::new();
    assert(views_of(parameters@) =~= Seq::<ValueView>::empty());
    write_restriction(schema, filter, order, after, &mut text, &mut parameters);
    text.append(" ORDER BY ");
    match order.column {
        Some(c) => {
            let column = operand_of(schema, c);
            text.append(column.as_str());
            text.append(direction_word_of(order.direction));
            text.append(", ");
        },
        None => {},
    }
    text.append("rowid");
    text.append(direction_word_of(order.direction));
    let ghost values = views_of(parameters@);
    match first {
        Some(n) => {
            text.append(" LIMIT ?");
            parameters.push(Value::Int(n as u64));
            assert(views_of(parameters@) =~= values.push(ValueView::Int(n as u64)));
        },
        None => {},
    }
    let statement = Statement { text, parameters };
    proof {
        let wanted = page_query(schema@, predicate_views(filter@), *order, after, first);
        assert(statement@.text =~= wanted.text);
        assert(statement@.parameters =~= wanted.parameters);
    }
    statement
}

} // verus!
