//! Rows of a model table, as a store snapshot hands them to the engine.

use vstd::prelude::*;
use crate::schema::{FieldView, ModelSchema, SchemaView};
use crate::value::{Value, ValueView, duplicate_values, views_of};

verus! {

/// One row: its identity within the table and one value for each field of the
/// model's schema, key fields included.
#[derive(Clone, Debug, PartialEq, Eq)]
pub struct Row {
    pub id: u64,
    pub values: Vec<Value>,
}

/// The mathematical content of a [`Row`].
pub struct RowView {
    pub id: u64,
    pub values: Seq<ValueView>,
}

impl View for Row {
    type V = RowView;

    open spec fn view(&self) -> RowView {
        RowView { id: self.id, values: views_of(self.values@) }
    }
}

/// The contents of a list of rows.
pub open spec fn row_views(rows: Seq<Row>) -> Seq<RowView> {
    Seq::new(rows.len(), |i: int| rows[i]@)
}

/// Whether a value may stand in a field: it is of the field's kind, or it is
/// absent and the field is nullable.
pub open spec fn value_fits(field: FieldView, value: ValueView) -> bool {
    match value.kind() {
        None => field.nullable,
        Some(kind) => kind == field.kind,
    }
}

/// Whether a row has one fitting value for each field of the schema.
pub open spec fn row_fits(schema: SchemaView, row: RowView) -> bool {
    &&& row.values.len() == schema.fields.len()
    &&& forall|i: int|
        0 <= i < row.values.len() ==> value_fits(schema.fields[i], #[trigger] row.values[i])
}

/// Whether identities strictly ascend along the rows.
pub open spec fn ascending_ids(rows: Seq<RowView>) -> bool {
    forall|i: int, j: int| 0 <= i < j < rows.len() ==> (#[trigger] rows[i]).id < (#[trigger] rows[j]).id
}

/// Whether the rows are a snapshot of the model's table: every row fits the
/// schema, and the rows come in ascending identity.
pub open spec fn is_snapshot(schema: SchemaView, rows: Seq<RowView>) -> bool {
    &&& forall|i: int| 0 <= i < rows.len() ==> row_fits(schema, #[trigger] rows[i])
    &&& ascending_ids(rows)
}

impl Row {
    /// A row from its identity and its values.
    pub fn new(id: u64, values: Vec<Value>) -> (r: Row)
        ensures
            r.id == id,
            r.values == values,
    {
        Row { id, values }
    }

    /// A copy with the same content.
    pub fn duplicate(&self) -> (r: Row)
        ensures
            r@ == self@,
    {
        Row { id: self.id, values: duplicate_values(&self.values) }
    }

    /// Whether the row has one fitting value for each field of the schema.
    pub fn fits(&self, schema: &ModelSchema) -> (r: bool)
        ensures
            r == row_fits(schema@, self@),
    {
        if self.values.len() != schema.fields.len() {
            return false;
        }
        let mut i: usize = 0;
        while i < self.values.len()
            invariant
                i <= self.values.len(),
                self.values.len() == schema.fields.len(),
                forall|j: int|
                    0 <= j < i ==> value_fits(schema@.fields[j], #[trigger] self@.values[j]),
            decreases self.values.len() - i,
        {
            let field = &schema.fields[i];
            assert(field@ == schema@.fields[i as int]);
            assert(self.values@[i as int]@ == self@.values[i as int]);
            let fitting = match self.values[i].kind() {
                None => field.nullable,
                Some(kind) => kind == field.kind,
            };
            if !fitting {
                return false;
            }
            i += 1;
        }
        true
    }
}

/// Whether the rows are a snapshot of the model's table.
pub fn check_snapshot(schema: &ModelSchema, rows: &Vec<Row>) -> (r: bool)
    ensures
        r == is_snapshot(schema@, row_views(rows@)),
{
    let mut i: usize = 0;
    while i < rows.len()
        invariant
            i <= rows.len(),
            forall|j: int| 0 <= j < i ==> row_fits(schema@, #[trigger] row_views(rows@)[j]),
            forall|j: int, k: int|
                0 <= j < k < i ==> (#[trigger] row_views(rows@)[j]).id < (#[trigger] row_views(
                    rows@,
                )[k]).id,
        decreases rows.len() - i,
    {
        assert(rows@[i as int]@ == row_views(rows@)[i as int]);
        if !rows[i].fits(schema) {
            return false;
        }
        if i > 0 {
            assert(rows@[i - 1]@ == row_views(rows@)[i - 1]);
            if rows[i - 1].id >= rows[i].id {
                return false;
            }
        }
        i += 1;
    }
    true
}

} // verus!
