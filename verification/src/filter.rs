//! Filter compilation: from the arguments of a client's where input to a list
//! of predicates, each bound to a column of the schema and carrying its value
//! as a parameter.

use vstd::prelude::*;
use vstd::string::*;
use crate::error::{ErrorView, QueryError, SchemaIssue, schema_error};
use crate::row::{Row, RowView};
use crate::schema::{ModelSchema, SchemaView};
use crate::shape::{
    ModelShape,
    Operator,
    WhereArgumentView,
    argument_name,
    argument_name_of,
    build_shape,
    lemma_operator_table,
    operators_for,
    shape_of,
    where_arguments,
};
use crate::value::{Felt, ScalarKind, Value, ValueView, bytes_equal};

verus! {

/// One argument of a where input: its name, such as `x` or `xGTE`, and the
/// value to hold the field against.
#[derive(Clone, Debug, PartialEq, Eq)]
pub struct WhereEntry {
    pub name: String,
    pub value: Value,
}

/// The mathematical content of a [`WhereEntry`].
pub struct WhereEntryView {
    pub name: Seq<char>,
    pub value: ValueView,
}

impl View for WhereEntry {
    type V = WhereEntryView;

    open spec fn view(&self) -> WhereEntryView {
        WhereEntryView { name: self.name@, value: self.value@ }
    }
}

impl WhereEntry {
    /// An argument from its name and its value.
    pub fn new(name: &str, value: Value) -> (e: WhereEntry)
        ensures
            e@ == (WhereEntryView { name: name@, value: value@ }),
    {
        WhereEntry { name: name.to_owned(), value }
    }
}

/// A compiled condition on one column. The value is a parameter of the
/// condition; it never becomes part of an identifier.
#[derive(Clone, Debug, PartialEq, Eq)]
pub struct Predicate {
    pub column: usize,
    pub operator: Operator,
    pub value: Value,
}

/// The mathematical content of a [`Predicate`].
pub struct PredicateView {
    pub column: int,
    pub operator: Operator,
    pub value: ValueView,
}

impl View for Predicate {
    type V = PredicateView;

    open spec fn view(&self) -> PredicateView {
        PredicateView { column: self.column as int, operator: self.operator, value: self.value@ }
    }
}

/// The contents of a list of predicates.
pub open spec fn predicate_views(filter: Seq<Predicate>) -> Seq<PredicateView> {
    Seq::new(filter.len(), |i: int| filter[i]@)
}

/// What an operator says of two numbers.
pub open spec fn relates(op: Operator, left: int, right: int) -> bool {
    match op {
        Operator::Eq => left == right,
        Operator::Neq => left != right,
        Operator::Gt => left > right,
        Operator::Gte => left >= right,
        Operator::Lt => left < right,
        Operator::Lte => left <= right,
    }
}

/// What an operator says of a field's value `left` and a parameter `right`.
/// Values of different kinds, and absent values, satisfy no operator; kinds
/// without an order satisfy only equality and inequality.
pub open spec fn satisfies(op: Operator, left: ValueView, right: ValueView) -> bool {
    match (left, right) {
        (ValueView::Int(a), ValueView::Int(b)) => relates(op, a as int, b as int),
        (ValueView::Felt(a), ValueView::Felt(b)) => relates(op, a.value(), b.value()),
        (ValueView::Bool(a), ValueView::Bool(b)) => (op is Eq && a == b) || (op is Neq && a != b),
        (ValueView::Text(a), ValueView::Text(b)) => (op is Eq && a == b) || (op is Neq && a != b),
        (ValueView::Bytes(a), ValueView::Bytes(b)) => (op is Eq && a == b) || (op is Neq && a
            != b),
        _ => false,
    }
}

/// Equality holds of two values only if they are the same value.
pub proof fn lemma_equality_is_sameness(left: ValueView, right: ValueView)
    ensures
        satisfies(Operator::Eq, left, right) <==> left == right && !(left is Null),
{
    match (left, right) {
        (ValueView::Felt(a), ValueView::Felt(b)) => {
            Felt::lemma_value_injective(a, b);
        },
        _ => {},
    }
}

/// Whether a row satisfies a predicate.
pub open spec fn holds(p: PredicateView, row: RowView) -> bool {
    0 <= p.column < row.values.len() && satisfies(p.operator, row.values[p.column], p.value)
}

/// Whether a row satisfies every predicate of a filter. The empty filter is
/// satisfied by every row.
pub open spec fn passes(filter: Seq<PredicateView>, row: RowView) -> bool {
    forall|k: int| 0 <= k < filter.len() ==> holds(#[trigger] filter[k], row)
}

/// The order in which the predicates stand does not change what a filter
/// matches: only which predicates it holds counts.
pub proof fn lemma_order_of_predicates(a: Seq<PredicateView>, b: Seq<PredicateView>, row: RowView)
    requires
        forall|p: PredicateView| a.contains(p) <==> b.contains(p),
    ensures
        passes(a, row) == passes(b, row),
{
    if passes(a, row) {
        assert forall|k: int| 0 <= k < b.len() implies holds(#[trigger] b[k], row) by {
            assert(b.contains(b[k]));
            let j = choose|j: int| 0 <= j < a.len() && a[j] == b[k];
            assert(holds(a[j], row));
        }
    }
    if passes(b, row) {
        assert forall|k: int| 0 <= k < a.len() implies holds(#[trigger] a[k], row) by {
            assert(a.contains(a[k]));
            let j = choose|j: int| 0 <= j < b.len() && b[j] == a[k];
            assert(holds(b[j], row));
        }
    }
}

/// What an operator says of two numbers.
fn relate_numbers(op: Operator, less: bool, equal: bool) -> (r: bool)
    ensures
        r == match op {
            Operator::Eq => equal,
            Operator::Neq => !equal,
            Operator::Gt => !less && !equal,
            Operator::Gte => !less,
            Operator::Lt => less,
            Operator::Lte => less || equal,
        },
{
    match op {
        Operator::Eq => equal,
        Operator::Neq => !equal,
        Operator::Gt => !less && !equal,
        Operator::Gte => !less,
        Operator::Lt => less,
        Operator::Lte => less || equal,
    }
}

/// What an operator says of two values that are equal or not.
fn relate_plain(op: Operator, equal: bool) -> (r: bool)
    ensures
        r == ((op is Eq && equal) || (op is Neq && !equal)),
{
    match op {
        Operator::Eq => equal,
        Operator::Neq => !equal,
        _ => false,
    }
}

/// What an operator says of a field's value and a parameter.
pub fn compare_values(op: Operator, left: &Value, right: &Value) -> (r: bool)
    ensures
        r == satisfies(op, left@, right@),
{
    match (left, right) {
        (Value::Int(a), Value::Int(b)) => relate_numbers(op, *a < *b, *a == *b),
        (Value::Felt(a), Value::Felt(b)) => {
            proof {
                Felt::lemma_value_injective(*a, *b);
            }
            relate_numbers(op, a.less_than(b), a.hi == b.hi && a.lo == b.lo)
        },
        (Value::Bool(a), Value::Bool(b)) => relate_plain(op, *a == *b),
        (Value::Text(a), Value::Text(b)) => relate_plain(op, *a == *b),
        (Value::Bytes(a), Value::Bytes(b)) => relate_plain(op, bytes_equal(a, b)),
        _ => false,
    }
}

impl Predicate {
    /// Whether a row satisfies the predicate.
    pub fn holds_for(&self, row: &Row) -> (r: bool)
        ensures
            r == holds(self@, row@),
    {
        if self.column < row.values.len() {
            assert(row.values@[self.column as int]@ == row@.values[self.column as int]);
            compare_values(self.operator, &row.values[self.column], &self.value)
        } else {
            false
        }
    }
}

/// Whether a row satisfies every predicate of a filter.
pub fn row_matches(filter: &Vec<Predicate>, row: &Row) -> (r: bool)
    ensures
        r == passes(predicate_views(filter@), row@),
{
    let mut k: usize = 0;
    while k < filter.len()
        invariant
            k <= filter.len(),
            forall|j: int| 0 <= j < k ==> holds(#[trigger] predicate_views(filter@)[j], row@),
        decreases filter.len() - k,
    {
        assert(filter@[k as int]@ == predicate_views(filter@)[k as int]);
        if !filter[k].holds_for(row) {
            return false;
        }
        k += 1;
    }
    true
}

/// Whether `k` is the first advertised argument that bears the name.
pub open spec fn is_first_argument(schema: SchemaView, name: Seq<char>, k: int) -> bool {
    let arguments = where_arguments(schema.fields, schema.fields.len() as int);
    &&& 0 <= k < arguments.len()
    &&& arguments[k].name == name
    &&& forall|j: int| 0 <= j < k ==> (#[trigger] arguments[j]).name != name
}

/// The advertised argument that a name refers to: the first that bears it.
pub open spec fn resolve(schema: SchemaView, name: Seq<char>) -> Option<WhereArgumentView> {
    if exists|k: int| is_first_argument(schema, name, k) {
        let k = choose|k: int| is_first_argument(schema, name, k);
        Some(where_arguments(schema.fields, schema.fields.len() as int)[k])
    } else {
        None
    }
}

/// Whether the name is made of the name of some field and the suffix of some
/// operator, legal for the field or not.
pub open spec fn names_pairing(schema: SchemaView, name: Seq<char>) -> bool {
    exists|i: int, op: Operator|
        0 <= i < schema.fields.len() && name == #[trigger] argument_name(
            schema.fields[i].name,
            op,
        )
}

/// What one argument compiles to.
///
/// The name must refer to an advertised argument, and the value must be
/// present and of the kind of the argument's field. A name that pairs a field
/// with an operator that its kind lacks is an illegal operator; any other
/// unknown name is an unknown field.
pub open spec fn compile_entry(schema: SchemaView, entry: WhereEntryView) -> Result<
    PredicateView,
    ErrorView,
> {
    match resolve(schema, entry.name) {
        Some(argument) => if entry.value.kind() == Some(schema.fields[argument.column].kind) {
            Ok(
                PredicateView {
                    column: argument.column,
                    operator: argument.operator,
                    value: entry.value,
                },
            )
        } else {
            Err(schema_error(SchemaIssue::KindMismatch, entry.name))
        },
        None => if names_pairing(schema, entry.name) {
            Err(schema_error(SchemaIssue::IllegalOperator, entry.name))
        } else {
            Err(schema_error(SchemaIssue::UnknownField, entry.name))
        },
    }
}

/// The position of the first advertised argument that bears the name.
fn find_argument(shape: &ModelShape, name: &String) -> (r: Option<usize>)
    ensures
        match r {
            Some(k) => {
                &&& k < shape.filters@.len()
                &&& shape@.filters[k as int].name == name@
                &&& forall|j: int| 0 <= j < k ==> (#[trigger] shape@.filters[j]).name != name@
            },
            None => forall|j: int|
                0 <= j < shape@.filters.len() ==> (#[trigger] shape@.filters[j]).name != name@,
        },
{
    let mut k: usize = 0;
    while k < shape.filters.len()
        invariant
            k <= shape.filters.len(),
            forall|j: int| 0 <= j < k ==> (#[trigger] shape@.filters[j]).name != name@,
        decreases shape.filters.len() - k,
    {
        assert(shape.filters@[k as int]@ == shape@.filters[k as int]);
        if shape.filters[k].name == *name {
            return Some(k);
        }
        k += 1;
    }
    None
}

/// Whether the name pairs some field with some operator.
fn pairs_field_with_operator(schema: &ModelSchema, name: &String) -> (r: bool)
    ensures
        r == names_pairing(schema@, name@),
{
    let every = operators_for(ScalarKind::Int);
    proof {
        assert forall|op: Operator| every@.contains(op) by {
            lemma_operator_table(ScalarKind::Int, op);
        }
    }
    let mut i: usize = 0;
    while i < schema.fields.len()
        invariant
            i <= schema.fields.len(),
            forall|op: Operator| every@.contains(op),
            forall|j: int, op: Operator|
                0 <= j < i ==> name@ != #[trigger] argument_name(schema@.fields[j].name, op),
        decreases schema.fields.len() - i,
    {
        let field = &schema.fields[i];
        assert(field@ == schema@.fields[i as int]);
        let mut k: usize = 0;
        while k < every.len()
            invariant
                k <= every.len(),
                i < schema.fields.len(),
                field@ == schema@.fields[i as int],
                forall|j: int| 0 <= j < k ==> name@ != argument_name(field@.name, #[trigger] every@[j]),
            decreases every.len() - k,
        {
            if argument_name_of(&field.name, every[k]) == *name {
                assert(name@ == argument_name(schema@.fields[i as int].name, every@[k as int]));
                return true;
            }
            k += 1;
        }
        assert forall|op: Operator| name@ != #[trigger] argument_name(
            schema@.fields[i as int].name,
            op,
        ) by {
            assert(every@.contains(op));
            let j = choose|j: int| 0 <= j < every@.len() && every@[j] == op;
            assert(name@ != argument_name(field@.name, every@[j]));
        }
        i += 1;
    }
    false
}

/// Compiles one argument against a shape and the schema it was derived from.
fn compile_one(schema: &ModelSchema, shape: &ModelShape, entry: &WhereEntry) -> (r: Result<
    Predicate,
    QueryError,
>)
    requires
        shape@ == shape_of(schema@),
    ensures
        match r {
            Ok(p) => compile_entry(schema@, entry@) == Ok::<PredicateView, ErrorView>(p@),
            Err(e) => compile_entry(schema@, entry@) == Err::<PredicateView, ErrorView>(e@),
        },
{
    let ghost arguments = where_arguments(schema@.fields, schema@.fields.len() as int);
    match find_argument(shape, &entry.name) {
        Some(k) => {
            assert(shape.filters@[k as int]@ == arguments[k as int]);
            let argument = &shape.filters[k];
            proof {
                assert(is_first_argument(schema@, entry@.name, k as int));
                let chosen = choose|c: int| is_first_argument(schema@, entry@.name, c);
                assert(chosen == k);
                crate::shape::lemma_where_arguments_legal(
                    schema@.fields,
                    schema@.fields.len() as int,
                    k as int,
                );
            }
            let field = &schema.fields[argument.column];
            assert(field@ == schema@.fields[argument.column as int]);
            match entry.value.kind() {
                Some(kind) => {
                    if kind == field.kind {
                        return Ok(
                            Predicate {
                                column: argument.column,
                                operator: argument.operator,
                                value: entry.value.duplicate(),
                            },
                        );
                    }
                },
                None => {},
            }
            Err(QueryError::schema(SchemaIssue::KindMismatch, entry.name.as_str()))
        },
        None => {
            assert(resolve(schema@, entry@.name) is None);
            if pairs_field_with_operator(schema, &entry.name) {
                Err(QueryError::schema(SchemaIssue::IllegalOperator, entry.name.as_str()))
            } else {
                Err(QueryError::schema(SchemaIssue::UnknownField, entry.name.as_str()))
            }
        },
    }
}

/// The contents of a where input.
pub open spec fn entry_views(input: Seq<WhereEntry>) -> Seq<WhereEntryView> {
    Seq::new(input.len(), |k: int| input[k]@)
}

/// Whether argument `k` is the first that does not compile.
pub open spec fn is_first_fault(schema: SchemaView, input: Seq<WhereEntryView>, k: int) -> bool {
    &&& 0 <= k < input.len()
    &&& compile_entry(schema, input[k]) is Err
    &&& forall|j: int| 0 <= j < k ==> compile_entry(schema, #[trigger] input[j]) is Ok
}

/// What a where input compiles to: one predicate for each argument, in the
/// order of the arguments, or the error of the first argument that does not
/// compile. The empty input compiles to the empty filter.
pub open spec fn compile_where(schema: SchemaView, input: Seq<WhereEntryView>) -> Result<
    Seq<PredicateView>,
    ErrorView,
> {
    if exists|k: int| is_first_fault(schema, input, k) {
        let k = choose|k: int| is_first_fault(schema, input, k);
        Err(compile_entry(schema, input[k])->Err_0)
    } else {
        Ok(Seq::new(input.len(), |k: int| compile_entry(schema, input[k])->Ok_0))
    }
}

/// Whatever a where input fails with is a schema violation.
pub proof fn lemma_filter_faults_are_schema_faults(schema: SchemaView, input: Seq<WhereEntryView>)
    ensures
        compile_where(schema, input) matches Err(e) ==> e is SchemaValidation,
{
}

/// Validates a where input against a schema and compiles it.
pub fn compile_filter(schema: &ModelSchema, input: &Vec<WhereEntry>) -> (r: Result<
    Vec<Predicate>,
    QueryError,
>)
    ensures
        match r {
            Ok(filter) => compile_where(schema@, entry_views(input@)) == Ok::<
                Seq<PredicateView>,
                ErrorView,
            >(predicate_views(filter@)),
            Err(e) => compile_where(schema@, entry_views(input@)) == Err::<
                Seq<PredicateView>,
                ErrorView,
            >(e@),
        },
{
    let ghost given = entry_views(input@);
    let shape = build_shape(schema);
    let mut filter: Vec<Predicate> = Vec::new();
    let mut k: usize = 0;
    while k < input.len()
        invariant
            k <= input.len(),
            given == entry_views(input@),
            shape@ == shape_of(schema@),
            filter@.len() == k,
            forall|j: int|
                0 <= j < k ==> compile_entry(schema@, #[trigger] given[j]) == Ok::<
                    PredicateView,
                    ErrorView,
                >(filter@[j]@),
        decreases input.len() - k,
    {
        assert(given[k as int] == input@[k as int]@);
        match compile_one(schema, &shape, &input[k]) {
            Ok(p) => {
                filter.push(p);
            },
            Err(e) => {
                proof {
                    assert(is_first_fault(schema@, given, k as int));
                    let chosen = choose|c: int| is_first_fault(schema@, given, c);
                    assert(chosen == k);
                }
                return Err(e);
            },
        }
        k += 1;
    }
    proof {
        assert forall|c: int| !is_first_fault(schema@, given, c) by {
            if 0 <= c < given.len() {
                assert(compile_entry(schema@, given[c]) is Ok);
            }
        }
        assert(predicate_views(filter@) =~= Seq::new(
            given.len(),
            |k: int| compile_entry(schema@, given[k])->Ok_0,
        ));
    }
    Ok(filter)
}

} // verus!
