//! Order compilation: from a client's order input to a total order over rows.
//!
//! Rows are ordered by the weight of the chosen field and, among rows of equal
//! weight, by their identity. Identities are unique within a table, so the
//! combined order never leaves two rows tied.

use vstd::prelude::*;
use vstd::string::*;
use crate::error::{ErrorView, QueryError, SchemaIssue, schema_error};
use crate::schema::{ModelSchema, SchemaView};
use crate::shape::{
    Direction,
    OrderChoiceView,
    enum_name,
    enum_name_of,
    is_orderable,
    order_choices,
    orderable,
};
use crate::value::{Felt, Value, ValueView};

verus! {

/// What a value counts for when rows are ordered by it.
#[derive(Clone, Copy, Debug, PartialEq, Eq, Structural)]
pub enum Weight {
    /// An absent value, or a value of a kind that has no order.
    Absent,
    Number(Felt),
}

impl Weight {
    /// The weight as a number; absent values come before all others.
    pub open spec fn rank(self) -> int {
        match self {
            Weight::Absent => -1,
            Weight::Number(f) => f.value(),
        }
    }

    /// Whether this weight is strictly less than the other.
    pub fn below(&self, other: &Weight) -> (r: bool)
        ensures
            r == (self.rank() < other.rank()),
    {
        match (self, other) {
            (Weight::Absent, Weight::Absent) => false,
            (Weight::Absent, Weight::Number(_)) => true,
            (Weight::Number(_), Weight::Absent) => false,
            (Weight::Number(a), Weight::Number(b)) => a.less_than(b),
        }
    }

    /// Whether the two weights are the same.
    pub fn same(&self, other: &Weight) -> (r: bool)
        ensures
            r == (self.rank() == other.rank()),
            r == (*self == *other),
    {
        match (self, other) {
            (Weight::Absent, Weight::Absent) => true,
            (Weight::Number(a), Weight::Number(b)) => a.hi == b.hi && a.lo == b.lo,
            _ => false,
        }
    }
}

/// The weight of a value: booleans count as 0 and 1, numbers as themselves.
pub open spec fn weight_of(v: ValueView) -> Weight {
    match v {
        ValueView::Bool(b) => Weight::Number(Felt { hi: 0, lo: if b { 1 } else { 0 } }),
        ValueView::Int(n) => Weight::Number(Felt { hi: 0, lo: n as u128 }),
        ValueView::Felt(f) => Weight::Number(f),
        _ => Weight::Absent,
    }
}

/// The weight of a value.
pub fn weigh(v: &Value) -> (w: Weight)
    ensures
        w == weight_of(v@),
{
    match v {
        Value::Bool(b) => Weight::Number(Felt { hi: 0, lo: if *b { 1 } else { 0 } }),
        Value::Int(n) => Weight::Number(Felt { hi: 0, lo: *n as u128 }),
        Value::Felt(f) => Weight::Number(*f),
        _ => Weight::Absent,
    }
}

/// The position of a row under an order: the weight of its ordering field and
/// its identity. This is the key tuple that a cursor carries.
#[derive(Clone, Copy, Debug, PartialEq, Eq, Structural)]
pub struct OrderKey {
    pub weight: Weight,
    pub id: u64,
}

/// Whether position `a` comes strictly before position `b` in the given direction.
pub open spec fn key_before(direction: Direction, a: OrderKey, b: OrderKey) -> bool {
    match direction {
        Direction::Asc => a.weight.rank() < b.weight.rank() || (a.weight.rank() == b.weight.rank()
            && a.id < b.id),
        Direction::Desc => a.weight.rank() > b.weight.rank() || (a.weight.rank()
            == b.weight.rank() && a.id > b.id),
    }
}

/// Whether position `a` comes strictly before position `b` in the given direction.
pub fn comes_before(direction: Direction, a: &OrderKey, b: &OrderKey) -> (r: bool)
    ensures
        r == key_before(direction, *a, *b),
{
    match direction {
        Direction::Asc => a.weight.below(&b.weight) || (a.weight.same(&b.weight) && a.id < b.id),
        Direction::Desc => b.weight.below(&a.weight) || (a.weight.same(&b.weight) && a.id > b.id),
    }
}

/// In either direction, "comes before" is a strict total order on positions.
pub proof fn lemma_key_order(direction: Direction, a: OrderKey, b: OrderKey, c: OrderKey)
    ensures
        !key_before(direction, a, a),
        key_before(direction, a, b) ==> !key_before(direction, b, a),
        key_before(direction, a, b) && key_before(direction, b, c) ==> key_before(direction, a, c),
        a.id != b.id ==> key_before(direction, a, b) || key_before(direction, b, a),
        a == b || key_before(direction, a, b) || key_before(direction, b, a),
{
    match (a.weight, b.weight) {
        (Weight::Number(x), Weight::Number(y)) => {
            Felt::lemma_value_injective(x, y);
        },
        (Weight::Number(x), Weight::Absent) => {
            Felt::lemma_value_injective(x, x);
        },
        (Weight::Absent, Weight::Number(y)) => {
            Felt::lemma_value_injective(y, y);
        },
        _ => {},
    }
}

/// What rows are ordered by.
#[derive(Clone, Copy, Debug, PartialEq, Eq)]
pub enum OrderColumn {
    /// The field at this position of the schema.
    Field(usize),
    /// The identity of the row.
    Identity,
}

/// One step of an order.
#[derive(Clone, Copy, Debug, PartialEq, Eq)]
pub struct OrderTerm {
    pub column: OrderColumn,
    pub direction: Direction,
}

/// A validated order: the field to order by, if any, and the direction, which
/// the tie-break by identity follows.
#[derive(Clone, Copy, Debug, PartialEq, Eq)]
pub struct CompiledOrder {
    pub column: Option<usize>,
    pub direction: Direction,
}

impl CompiledOrder {
    /// The order as a list of steps, the primary one first and the tie-break by
    /// identity last.
    pub open spec fn term_list(self) -> Seq<OrderTerm> {
        match self.column {
            Some(c) => seq![
                OrderTerm { column: OrderColumn::Field(c), direction: self.direction },
                OrderTerm { column: OrderColumn::Identity, direction: self.direction },
            ],
            None => seq![OrderTerm { column: OrderColumn::Identity, direction: self.direction }],
        }
    }

    /// The order as a list of steps.
    pub fn terms(&self) -> (t: Vec<OrderTerm>)
        ensures
            t@ == self.term_list(),
    {
        let mut t: Vec<OrderTerm> = Vec::new();
        match self.column {
            Some(c) => {
                t.push(OrderTerm { column: OrderColumn::Field(c), direction: self.direction });
            },
            None => {},
        }
        t.push(OrderTerm { column: OrderColumn::Identity, direction: self.direction });
        assert(t@ =~= self.term_list());
        t
    }

    /// The order that applies when the client asks for none: ascending identity.
    pub open spec fn natural() -> CompiledOrder {
        CompiledOrder { column: None, direction: Direction::Asc }
    }
}

/// A client's wish for an order, as it arrives.
#[derive(Clone, Debug, PartialEq, Eq)]
pub struct OrderInput {
    pub field: String,
    pub direction: String,
}

/// The mathematical content of an [`OrderInput`].
pub struct OrderInputView {
    pub field: Seq<char>,
    pub direction: Seq<char>,
}

impl View for OrderInput {
    type V = OrderInputView;

    open spec fn view(&self) -> OrderInputView {
        OrderInputView { field: self.field@, direction: self.direction@ }
    }
}

impl OrderInput {
    /// An order input from the words that a client wrote.
    pub fn new(field: &str, direction: &str) -> (o: OrderInput)
        ensures
            o@ == (OrderInputView { field: field@, direction: direction@ }),
    {
        OrderInput { field: field.to_owned(), direction: direction.to_owned() }
    }
}

/// The direction that a word stands for.
pub open spec fn direction_named(word: Seq<char>) -> Option<Direction> {
    if word == "ASC"@ {
        Some(Direction::Asc)
    } else if word == "DESC"@ {
        Some(Direction::Desc)
    } else {
        None
    }
}

/// Reads a direction: `ASC` or `DESC`, and nothing else.
pub fn parse_direction(word: &str) -> (r: Result<Direction, QueryError>)
    ensures
        match r {
            Ok(d) => direction_named(word@) == Some(d),
            Err(e) => direction_named(word@) is None && e@ == schema_error(
                SchemaIssue::IllegalDirection,
                word@,
            ),
        },
{
    let given = word.to_owned();
    if given == String::from_str("ASC") {
        Ok(Direction::Asc)
    } else if given == String::from_str("DESC") {
        Ok(Direction::Desc)
    } else {
        Err(QueryError::schema(SchemaIssue::IllegalDirection, word))
    }
}

/// Whether field `i` is the first orderable field that the word chooses.
pub open spec fn is_first_choice(schema: SchemaView, word: Seq<char>, i: int) -> bool {
    &&& 0 <= i < schema.fields.len()
    &&& orderable(schema.fields[i].kind)
    &&& enum_name(schema.fields[i].name) == word
    &&& forall|j: int|
        0 <= j < i ==> !(orderable((#[trigger] schema.fields[j]).kind) && enum_name(
            schema.fields[j].name,
        ) == word)
}

/// Whether the word chooses some orderable field.
pub open spec fn has_choice(schema: SchemaView, word: Seq<char>) -> bool {
    exists|i: int| is_first_choice(schema, word, i)
}

/// Whether the word is the choice name of some field, orderable or not.
pub open spec fn names_field(schema: SchemaView, word: Seq<char>) -> bool {
    exists|i: int|
        0 <= i < schema.fields.len() && enum_name((#[trigger] schema.fields[i]).name) == word
}

/// Whether `k` is the first advertised order choice that bears the name.
pub open spec fn is_first_advertised(schema: SchemaView, word: Seq<char>, k: int) -> bool {
    let choices = order_choices(schema.fields, schema.fields.len() as int);
    &&& 0 <= k < choices.len()
    &&& choices[k].name == word
    &&& forall|j: int| 0 <= j < k ==> (#[trigger] choices[j]).name != word
}

/// The advertised order choices are the orderable fields under their choice
/// names, in schema order.
pub proof fn lemma_order_choices_sound(schema: SchemaView, n: int, k: int)
    requires
        0 <= n <= schema.fields.len(),
        0 <= k < order_choices(schema.fields, n).len(),
    ensures
        0 <= order_choices(schema.fields, n)[k].column < n,
        orderable(schema.fields[order_choices(schema.fields, n)[k].column].kind),
        order_choices(schema.fields, n)[k].name == enum_name(
            schema.fields[order_choices(schema.fields, n)[k].column].name,
        ),
        forall|j: int|
            0 <= j < k ==> (#[trigger] order_choices(schema.fields, n)[j]).column
                < order_choices(schema.fields, n)[k].column,
    decreases n,
{
    let before = order_choices(schema.fields, n - 1);
    if k < before.len() {
        lemma_order_choices_sound(schema, n - 1, k);
        assert forall|j: int| 0 <= j < k implies (#[trigger] order_choices(
            schema.fields,
            n,
        )[j]).column < order_choices(schema.fields, n)[k].column by {
            assert(before[j].column < before[k].column);
        }
    } else {
        assert forall|j: int| 0 <= j < k implies (#[trigger] order_choices(
            schema.fields,
            n,
        )[j]).column < n - 1 by {
            lemma_order_choices_sound(schema, n - 1, j);
        }
    }
}

/// Every orderable field is advertised as an order choice.
pub proof fn lemma_order_choices_complete(schema: SchemaView, n: int, column: int)
    requires
        0 <= column < n <= schema.fields.len(),
        orderable(schema.fields[column].kind),
    ensures
        exists|k: int|
            0 <= k < order_choices(schema.fields, n).len() && #[trigger] order_choices(
                schema.fields,
                n,
            )[k] == (OrderChoiceView {
                name: enum_name(schema.fields[column].name),
                column,
            }),
    decreases n,
{
    let before = order_choices(schema.fields, n - 1);
    if column < n - 1 {
        lemma_order_choices_complete(schema, n - 1, column);
        let k = choose|k: int|
            0 <= k < before.len() && #[trigger] before[k] == (OrderChoiceView {
                name: enum_name(schema.fields[column].name),
                column,
            });
        assert(order_choices(schema.fields, n)[k] == before[k]);
    } else {
        assert(order_choices(schema.fields, n)[before.len() as int] == (OrderChoiceView {
            name: enum_name(schema.fields[column].name),
            column,
        }));
    }
}

/// What is accepted is what is advertised: a word chooses field `i` exactly
/// when the first advertised order choice of that name stands for field `i`.
pub proof fn lemma_choice_is_advertised(schema: SchemaView, word: Seq<char>, i: int)
    ensures
        is_first_choice(schema, word, i) <==> exists|k: int|
            is_first_advertised(schema, word, k) && order_choices(
                schema.fields,
                schema.fields.len() as int,
            )[k].column == i,
{
    let n = schema.fields.len() as int;
    let choices = order_choices(schema.fields, n);
    if is_first_choice(schema, word, i) {
        lemma_order_choices_complete(schema, n, i);
        let k = choose|k: int|
            0 <= k < choices.len() && #[trigger] choices[k] == (OrderChoiceView {
                name: enum_name(schema.fields[i].name),
                column: i,
            });
        lemma_order_choices_sound(schema, n, k);
        assert forall|j: int| 0 <= j < k implies (#[trigger] choices[j]).name != word by {
            lemma_order_choices_sound(schema, n, j);
            assert(choices[j].column < i);
            let c = choices[j].column;
            assert(!(orderable(schema.fields[c].kind) && enum_name(schema.fields[c].name)
                == word));
        }
        assert(is_first_advertised(schema, word, k));
    }
    if exists|k: int| is_first_advertised(schema, word, k) && choices[k].column == i {
        let k = choose|k: int| is_first_advertised(schema, word, k) && choices[k].column == i;
        lemma_order_choices_sound(schema, n, k);
        assert forall|j: int| 0 <= j < i implies !(orderable((#[trigger] schema.fields[j]).kind)
            && enum_name(schema.fields[j].name) == word) by {
            if orderable(schema.fields[j].kind) && enum_name(schema.fields[j].name) == word {
                lemma_order_choices_complete(schema, n, j);
                let m = choose|m: int|
                    0 <= m < choices.len() && #[trigger] choices[m] == (OrderChoiceView {
                        name: enum_name(schema.fields[j].name),
                        column: j,
                    });
                if m >= k {
                    lemma_order_choices_sound(schema, n, m);
                }
            }
        }
    }
}

/// What an order input compiles to.
///
/// Without an input the order is ascending identity. With one, the word must
/// choose an orderable field and the direction must be `ASC` or `DESC`; the
/// tie-break by identity follows the direction asked for. A fault in the field
/// is reported before a fault in the direction.
pub open spec fn compile_ordering(schema: SchemaView, input: Option<OrderInputView>) -> Result<
    CompiledOrder,
    ErrorView,
> {
    match input {
        None => Ok(CompiledOrder::natural()),
        Some(o) => if has_choice(schema, o.field) {
            match direction_named(o.direction) {
                Some(direction) => Ok(
                    CompiledOrder {
                        column: Some(
                            (choose|i: int| is_first_choice(schema, o.field, i)) as usize,
                        ),
                        direction,
                    },
                ),
                None => Err(schema_error(SchemaIssue::IllegalDirection, o.direction)),
            }
        } else if names_field(schema, o.field) {
            Err(schema_error(SchemaIssue::NotOrderable, o.field))
        } else {
            Err(schema_error(SchemaIssue::UnknownField, o.field))
        },
    }
}

/// The content of an order input, if there is one.
pub open spec fn order_input_view(input: Option<&OrderInput>) -> Option<OrderInputView> {
    match input {
        Some(o) => Some(o@),
        None => None,
    }
}

/// Validates a client's order against a schema.
pub fn compile_order(schema: &ModelSchema, input: Option<&OrderInput>) -> (r: Result<
    CompiledOrder,
    QueryError,
>)
    ensures
        match r {
            Ok(order) => compile_ordering(schema@, order_input_view(input)) == Ok::<
                CompiledOrder,
                ErrorView,
            >(order),
            Err(e) => compile_ordering(schema@, order_input_view(input)) == Err::<
                CompiledOrder,
                ErrorView,
            >(e@),
        },
        r matches Ok(order) ==> match order.column {
            Some(c) => c < schema@.fields.len() && orderable(schema@.fields[c as int].kind),
            None => input is None,
        },
{
    let o = match input {
        None => {
            return Ok(CompiledOrder { column: None, direction: Direction::Asc });
        },
        Some(o) => o,
    };
    let mut named: bool = false;
    let mut i: usize = 0;
    while i < schema.fields.len()
        invariant
            i <= schema.fields.len(),
            input == Some(o),
            forall|j: int|
                0 <= j < i ==> !(orderable((#[trigger] schema@.fields[j]).kind) && enum_name(
                    schema@.fields[j].name,
                ) == o@.field),
            named <==> exists|j: int|
                0 <= j < i && enum_name((#[trigger] schema@.fields[j]).name) == o@.field,
        decreases schema.fields.len() - i,
    {
        let field = &schema.fields[i];
        assert(field@ == schema@.fields[i as int]);
        if enum_name_of(field.name.as_str()) == o.field {
            if is_orderable(field.kind) {
                proof {
                    assert(is_first_choice(schema@, o@.field, i as int));
                    let chosen = choose|c: int| is_first_choice(schema@, o@.field, c);
                    assert(chosen == i);
                }
                return match parse_direction(o.direction.as_str()) {
                    Ok(direction) => Ok(CompiledOrder { column: Some(i), direction }),
                    Err(e) => Err(e),
                };
            }
            named = true;
        }
        i += 1;
    }
    assert(!has_choice(schema@, o@.field));
    if named {
        Err(QueryError::schema(SchemaIssue::NotOrderable, o.field.as_str()))
    } else {
        Err(QueryError::schema(SchemaIssue::UnknownField, o.field.as_str()))
    }
}

} // verus!
