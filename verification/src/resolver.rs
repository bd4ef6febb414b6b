//! The relationship resolver: from a model row to the entity that owns it.

use vstd::prelude::*;
use vstd::string::*;
use crate::error::{ErrorView, QueryError};
use crate::filter::{PredicateView, holds, lemma_equality_is_sameness};
use crate::row::{Row, RowView};
use crate::schema::{ModelSchema, SchemaView};
use crate::shape::Operator;
use crate::value::{Value, ValueView, duplicate_values, views_of};

verus! {

/// An entity: its key tuple and the names of the models for which it
/// currently has a row.
#[derive(Clone, Debug, PartialEq, Eq)]
pub struct Entity {
    pub keys: Vec<Value>,
    pub model_names: Vec<String>,
}

/// The mathematical content of an [`Entity`].
pub struct EntityView {
    pub keys: Seq<ValueView>,
    pub model_names: Seq<Seq<char>>,
}

impl View for Entity {
    type V = EntityView;

    open spec fn view(&self) -> EntityView {
        EntityView {
            keys: views_of(self.keys@),
            model_names: Seq::new(self.model_names@.len(), |i: int| self.model_names@[i]@),
        }
    }
}

/// The contents of a list of entities.
pub open spec fn entity_views(entities: Seq<Entity>) -> Seq<EntityView> {
    Seq::new(entities.len(), |i: int| entities[i]@)
}

/// The values that a row has for the key fields among the first `n` fields of
/// the schema, in schema order.
pub open spec fn key_tuple_upto(schema: SchemaView, row: RowView, n: int) -> Seq<ValueView>
    decreases n,
{
    if n <= 0 {
        Seq::empty()
    } else if n - 1 < schema.fields.len() && schema.fields[n - 1].key && n - 1 < row.values.len() {
        key_tuple_upto(schema, row, n - 1).push(row.values[n - 1])
    } else {
        key_tuple_upto(schema, row, n - 1)
    }
}

/// The key tuple of a row: its values for the key fields of the schema. It is
/// the key of the entity that owns the row.
pub open spec fn key_tuple(schema: SchemaView, row: RowView) -> Seq<ValueView> {
    key_tuple_upto(schema, row, schema.fields.len() as int)
}

/// The key tuple of a row holds the row's value for every key field.
pub proof fn lemma_key_tuple_holds_key_fields(
    schema: SchemaView,
    row: RowView,
    n: int,
    column: int,
)
    requires
        0 <= column < n <= schema.fields.len(),
        column < row.values.len(),
        schema.fields[column].key,
    ensures
        key_tuple_upto(schema, row, n).contains(row.values[column]),
    decreases n,
{
    let before = key_tuple_upto(schema, row, n - 1);
    let now = key_tuple_upto(schema, row, n);
    if column < n - 1 {
        lemma_key_tuple_holds_key_fields(schema, row, n - 1, column);
        let k = choose|k: int| 0 <= k < before.len() && before[k] == row.values[column];
        assert(now[k] == row.values[column]);
    } else {
        assert(now[before.len() as int] == row.values[column]);
    }
}

/// A filter for equality on a key field lets through only rows whose key
/// tuple holds the value asked for.
pub proof fn lemma_key_filter_selects_by_key(
    schema: SchemaView,
    row: RowView,
    column: int,
    wanted: ValueView,
)
    requires
        0 <= column < schema.fields.len(),
        schema.fields[column].key,
        holds(PredicateView { column, operator: Operator::Eq, value: wanted }, row),
    ensures
        key_tuple(schema, row).contains(wanted),
{
    lemma_equality_is_sameness(row.values[column], wanted);
    lemma_key_tuple_holds_key_fields(schema, row, schema.fields.len() as int, column);
}

/// Whether entity `i` is the first that bears the key tuple.
pub open spec fn is_owner(entities: Seq<EntityView>, keys: Seq<ValueView>, i: int) -> bool {
    &&& 0 <= i < entities.len()
    &&& entities[i].keys == keys
    &&& forall|j: int| 0 <= j < i ==> (#[trigger] entities[j]).keys != keys
}

/// Whether some entity bears the key tuple.
pub open spec fn has_owner(entities: Seq<EntityView>, keys: Seq<ValueView>) -> bool {
    exists|i: int| 0 <= i < entities.len() && (#[trigger] entities[i]).keys == keys
}

/// Whether the entity has a row of the named model.
pub open spec fn lists_model(entity: EntityView, model: Seq<char>) -> bool {
    entity.model_names.contains(model)
}

/// The key tuple of a row.
pub fn entity_key(schema: &ModelSchema, row: &Row) -> (keys: Vec<Value>)
    ensures
        views_of(keys@) == key_tuple(schema@, row@),
{
    let mut keys: Vec<Value> = Vec::new();
    let mut i: usize = 0;
    assert(views_of(keys@) =~= key_tuple_upto(schema@, row@, 0));
    while i < schema.fields.len()
        invariant
            i <= schema.fields.len(),
            views_of(keys@) == key_tuple_upto(schema@, row@, i as int),
        decreases schema.fields.len() - i,
    {
        let field = &schema.fields[i];
        assert(field@ == schema@.fields[i as int]);
        let ghost so_far = views_of(keys@);
        if field.key && i < row.values.len() {
            assert(row.values@[i as int]@ == row@.values[i as int]);
            keys.push(row.values[i].duplicate());
            assert(views_of(keys@) =~= so_far.push(row@.values[i as int]));
        }
        i += 1;
    }
    keys
}

/// Whether two lists of values have the same contents.
pub fn same_values(a: &Vec<Value>, b: &Vec<Value>) -> (r: bool)
    ensures
        r == (views_of(a@) == views_of(b@)),
{
    if a.len() != b.len() {
        assert(views_of(a@).len() != views_of(b@).len());
        return false;
    }
    let mut i: usize = 0;
    while i < a.len()
        invariant
            i <= a.len(),
            a.len() == b.len(),
            forall|j: int| 0 <= j < i ==> a@[j]@ == b@[j]@,
        decreases a.len() - i,
    {
        if !a[i].same(&b[i]) {
            assert(views_of(a@)[i as int] != views_of(b@)[i as int]);
            return false;
        }
        i += 1;
    }
    assert(views_of(a@) =~= views_of(b@));
    true
}

impl Entity {
    /// An entity from its key tuple and its model names.
    pub fn new(keys: Vec<Value>, model_names: Vec<String>) -> (e: Entity)
        ensures
            e.keys == keys,
            e.model_names == model_names,
    {
        Entity { keys, model_names }
    }

    /// A copy with the same content.
    pub fn duplicate(&self) -> (r: Entity)
        ensures
            r@ == self@,
    {
        let mut names: Vec<String> = Vec::new();
        let mut i: usize = 0;
        while i < self.model_names.len()
            invariant
                i <= self.model_names.len(),
                names@.len() == i,
                forall|j: int| 0 <= j < i ==> names@[j]@ == self.model_names@[j]@,
            decreases self.model_names.len() - i,
        {
            names.push(self.model_names[i].clone());
            i += 1;
        }
        let r = Entity { keys: duplicate_values(&self.keys), model_names: names };
        assert(r@.model_names =~= self@.model_names);
        r
    }

    /// Whether the entity has a row of the named model.
    pub fn has_model(&self, model: &str) -> (r: bool)
        ensures
            r == lists_model(self@, model@),
    {
        let wanted = model.to_owned();
        let mut i: usize = 0;
        while i < self.model_names.len()
            invariant
                i <= self.model_names.len(),
                wanted@ == model@,
                forall|j: int| 0 <= j < i ==> self@.model_names[j] != model@,
            decreases self.model_names.len() - i,
        {
            if self.model_names[i] == wanted {
                assert(self@.model_names[i as int] == model@);
                return true;
            }
            i += 1;
        }
        false
    }
}

/// Looks up the entity that owns a row by the row's key tuple.
///
/// The entity is handed out as the store holds it: its model names are
/// neither added to nor trimmed. A row without an entity breaks the store's
/// invariant and is reported as a consistency error; no empty entity stands
/// in for the missing one.
pub fn resolve_entity(entities: &Vec<Entity>, schema: &ModelSchema, row: &Row) -> (r: Result<
    Entity,
    QueryError,
>)
    ensures
        match r {
            Ok(entity) => exists|i: int|
                is_owner(entity_views(entities@), key_tuple(schema@, row@), i) && entity@
                    == entity_views(entities@)[i],
            Err(e) => !has_owner(entity_views(entities@), key_tuple(schema@, row@)) && e@
                == ErrorView::Consistency,
        },
{
    let keys = entity_key(schema, row);
    let ghost all = entity_views(entities@);
    let mut i: usize = 0;
    while i < entities.len()
        invariant
            i <= entities.len(),
            all == entity_views(entities@),
            views_of(keys@) == key_tuple(schema@, row@),
            forall|j: int| 0 <= j < i ==> (#[trigger] all[j]).keys != key_tuple(schema@, row@),
        decreases entities.len() - i,
    {
        assert(all[i as int] == entities@[i as int]@);
        if same_values(&entities[i].keys, &keys) {
            assert(is_owner(all, key_tuple(schema@, row@), i as int));
            return Ok(entities[i].duplicate());
        }
        i += 1;
    }
    Err(QueryError::Consistency)
}

} // verus!
