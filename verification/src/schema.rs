//! Model schemas and the registry that holds them by name.

use vstd::prelude::*;
use crate::error::{ErrorView, QueryError, SchemaIssue, schema_error};
use crate::value::ScalarKind;

verus! {

/// One field of a model: its name, its kind, whether a row may leave it absent,
/// and whether it is part of the key of the entity that owns the row.
#[derive(Clone, Debug, PartialEq, Eq)]
pub struct FieldDef {
    pub name: String,
    pub kind: ScalarKind,
    pub nullable: bool,
    pub key: bool,
}

/// The mathematical content of a [`FieldDef`].
pub struct FieldView {
    pub name: Seq<char>,
    pub kind: ScalarKind,
    pub nullable: bool,
    pub key: bool,
}

impl View for FieldDef {
    type V = FieldView;

    open spec fn view(&self) -> FieldView {
        FieldView { name: self.name@, kind: self.kind, nullable: self.nullable, key: self.key }
    }
}

impl FieldDef {
    /// A field definition from its parts.
    pub fn new(name: &str, kind: ScalarKind, nullable: bool, key: bool) -> (f: FieldDef)
        ensures
            f@ == (FieldView { name: name@, kind, nullable, key }),
    {
        FieldDef { name: name.to_owned(), kind, nullable, key }
    }

    /// Whether two definitions say the same.
    pub fn same(&self, other: &FieldDef) -> (r: bool)
        ensures
            r == (self@ == other@),
    {
        self.name == other.name && self.kind == other.kind && self.nullable == other.nullable
            && self.key == other.key
    }

    /// A copy with the same content.
    pub fn duplicate(&self) -> (r: FieldDef)
        ensures
            r@ == self@,
    {
        FieldDef {
            name: self.name.clone(),
            kind: self.kind,
            nullable: self.nullable,
            key: self.key,
        }
    }
}

/// A named, ordered list of fields.
#[derive(Clone, Debug, PartialEq, Eq)]
pub struct ModelSchema {
    pub name: String,
    pub fields: Vec<FieldDef>,
}

/// The mathematical content of a [`ModelSchema`].
pub struct SchemaView {
    pub name: Seq<char>,
    pub fields: Seq<FieldView>,
}

impl SchemaView {
    /// Whether some field bears the name.
    pub open spec fn has_field(self, name: Seq<char>) -> bool {
        exists|i: int| 0 <= i < self.fields.len() && #[trigger] self.fields[i].name == name
    }

    /// Whether `i` is the first field that bears the name.
    pub open spec fn is_first_named(self, name: Seq<char>, i: int) -> bool {
        &&& 0 <= i < self.fields.len()
        &&& self.fields[i].name == name
        &&& forall|j: int| 0 <= j < i ==> (#[trigger] self.fields[j]).name != name
    }
}

impl View for ModelSchema {
    type V = SchemaView;

    open spec fn view(&self) -> SchemaView {
        SchemaView {
            name: self.name@,
            fields: Seq::new(self.fields@.len(), |i: int| self.fields@[i]@),
        }
    }
}

impl ModelSchema {
    /// A schema without fields.
    pub fn new(name: &str) -> (s: ModelSchema)
        ensures
            s@.name == name@,
            s@.fields == Seq::<FieldView>::empty(),
    {
        let s = ModelSchema { name: name.to_owned(), fields: Vec::new() };
        assert(s@.fields =~= Seq::<FieldView>::empty());
        s
    }

    /// The schema with one more field at its end.
    pub fn with_field(self, field: FieldDef) -> (s: ModelSchema)
        ensures
            s@.name == self@.name,
            s@.fields == self@.fields.push(field@),
    {
        let mut s = self;
        s.fields.push(field);
        assert(s@.fields =~= self@.fields.push(field@));
        s
    }

    /// Whether two schemas say the same: equal names and equal fields in equal order.
    pub fn same(&self, other: &ModelSchema) -> (r: bool)
        ensures
            r == (self@ == other@),
    {
        if !(self.name == other.name) || self.fields.len() != other.fields.len() {
            assert(self@.name != other@.name || self@.fields.len() != other@.fields.len());
            return false;
        }
        let mut i: usize = 0;
        while i < self.fields.len()
            invariant
                i <= self.fields.len(),
                self.fields.len() == other.fields.len(),
                self.name@ == other.name@,
                forall|j: int| 0 <= j < i ==> self.fields@[j]@ == other.fields@[j]@,
            decreases self.fields.len() - i,
        {
            if !self.fields[i].same(&other.fields[i]) {
                assert(self@.fields[i as int] != other@.fields[i as int]);
                return false;
            }
            i += 1;
        }
        assert(self@.fields =~= other@.fields);
        true
    }

    /// A copy with the same content.
    pub fn duplicate(&self) -> (r: ModelSchema)
        ensures
            r@ == self@,
    {
        let mut fields: Vec<FieldDef> = Vec::new();
        let mut i: usize = 0;
        while i < self.fields.len()
            invariant
                i <= self.fields.len(),
                fields.len() == i,
                forall|j: int| 0 <= j < i ==> fields@[j]@ == self.fields@[j]@,
            decreases self.fields.len() - i,
        {
            fields.push(self.fields[i].duplicate());
            i += 1;
        }
        let r = ModelSchema { name: self.name.clone(), fields };
        assert(r@.fields =~= self@.fields);
        r
    }

    /// The position of the first field that bears the name.
    pub fn find_field(&self, name: &str) -> (r: Option<usize>)
        ensures
            match r {
                Some(i) => self@.is_first_named(name@, i as int),
                None => !self@.has_field(name@),
            },
    {
        let wanted = name.to_owned();
        let mut i: usize = 0;
        while i < self.fields.len()
            invariant
                i <= self.fields.len(),
                wanted@ == name@,
                forall|j: int| 0 <= j < i ==> (#[trigger] self@.fields[j]).name != name@,
            decreases self.fields.len() - i,
        {
            if self.fields[i].name == wanted {
                return Some(i);
            }
            i += 1;
        }
        None
    }
}

/// The registered schemas, at most one per model name.
pub struct Registry {
    schemas: Vec<ModelSchema>,
}

impl Registry {
    /// Whether slot `i` is the first that holds a schema named `name`.
    spec fn holds(self, name: Seq<char>, i: int) -> bool {
        &&& 0 <= i < self.schemas@.len()
        &&& self.schemas@[i].name@ == name
        &&& forall|j: int| 0 <= j < i ==> (#[trigger] self.schemas@[j]).name@ != name
    }

    /// The registry as a map from model names to schemas.
    pub closed spec fn view(&self) -> Map<Seq<char>, SchemaView> {
        Map::new(
            |name: Seq<char>| exists|i: int| self.holds(name, i),
            |name: Seq<char>| self.schemas@[choose|i: int| self.holds(name, i)]@,
        )
    }

    /// A registry without schemas.
    pub fn new() -> (r: Registry)
        ensures
            r@ == Map::<Seq<char>, SchemaView>::empty(),
    {
        let r = Registry { schemas: Vec::new() };
        assert(r@ =~= Map::<Seq<char>, SchemaView>::empty());
        r
    }

    /// The slot of the schema registered under the name, if there is one.
    fn slot_of(&self, name: &String) -> (r: Option<usize>)
        ensures
            match r {
                Some(i) => self.holds(name@, i as int) && self@.contains_key(name@) && self@[name@]
                    == self.schemas@[i as int]@,
                None => !self@.contains_key(name@) && forall|j: int|
                    0 <= j < self.schemas@.len() ==> (#[trigger] self.schemas@[j]).name@ != name@,
            },
    {
        let mut i: usize = 0;
        while i < self.schemas.len()
            invariant
                i <= self.schemas.len(),
                forall|j: int| 0 <= j < i ==> (#[trigger] self.schemas@[j]).name@ != name@,
            decreases self.schemas.len() - i,
        {
            if self.schemas[i].name == *name {
                assert(self.holds(name@, i as int));
                return Some(i);
            }
            i += 1;
        }
        None
    }

    /// Registers a schema under its name.
    ///
    /// Registering the very same schema again changes nothing and succeeds; a
    /// different schema under a name that is taken is refused as a conflict.
    pub fn register(&mut self, schema: ModelSchema) -> (r: Result<(), QueryError>)
        ensures
            match r {
                Ok(()) => final(self)@ == old(self)@.insert(schema@.name, schema@),
                Err(e) => {
                    &&& final(self)@ == old(self)@
                    &&& e@ == schema_error(SchemaIssue::Conflict, schema@.name)
                },
            },
            r is Err <==> old(self)@.contains_key(schema@.name) && old(self)@[schema@.name]
                != schema@,
    {
        match self.slot_of(&schema.name) {
            Some(i) => {
                if self.schemas[i].same(&schema) {
                    assert(self@ =~= self@.insert(schema@.name, schema@));
                    Ok(())
                } else {
                    Err(QueryError::schema(SchemaIssue::Conflict, schema.name.as_str()))
                }
            },
            None => {
                let ghost before = *self;
                let ghost added = schema@;
                self.schemas.push(schema);
                proof {
                    let last = before.schemas@.len() as int;
                    assert(self.schemas@[last]@ == added);
                    assert(self.holds(added.name, last));
                    assert forall|name: Seq<char>, i: int| before.holds(name, i) implies self.holds(
                        name,
                        i,
                    ) by {}
                    assert(forall|j: int|
                        0 <= j < last ==> self.schemas@[j] == before.schemas@[j]);
                    assert forall|name: Seq<char>, i: int|
                        name != added.name && self.holds(name, i) implies before.holds(name, i) by {
                        assert(i != last);
                        assert forall|j: int| 0 <= j < i implies (
                        #[trigger] before.schemas@[j]).name@ != name by {
                            assert(self.schemas@[j].name@ != name);
                        }
                    }
                    assert(self@ =~= before@.insert(added.name, added)) by {
                        assert forall|name: Seq<char>| #[trigger]
                            self@.contains_key(name) <==> before@.insert(
                            added.name,
                            added,
                        ).contains_key(name) by {
                            if self@.contains_key(name) && name != added.name {
                                let i = choose|i: int| self.holds(name, i);
                                assert(before.holds(name, i));
                            }
                            if before@.contains_key(name) {
                                let i = choose|i: int| before.holds(name, i);
                                assert(self.holds(name, i));
                            }
                        }
                        assert forall|name: Seq<char>| #[trigger]
                            self@.contains_key(name) implies self@[name] == before@.insert(
                            added.name,
                            added,
                        )[name] by {
                            let i = choose|i: int| self.holds(name, i);
                            if name != added.name {
                                assert(before.holds(name, i));
                                let j = choose|j: int| before.holds(name, j);
                                assert(i == j);
                            } else {
                                assert(i == last);
                            }
                        }
                    }
                }
                Ok(())
            },
        }
    }

    /// The schema registered under the name.
    pub fn get(&self, name: &str) -> (r: Result<&ModelSchema, QueryError>)
        ensures
            match r {
                Ok(s) => self@.contains_key(name@) && s@ == self@[name@],
                Err(e) => !self@.contains_key(name@) && e@ == ErrorView::NotFound,
            },
    {
        let wanted = name.to_owned();
        match self.slot_of(&wanted) {
            Some(i) => Ok(&self.schemas[i]),
            None => Err(QueryError::NotFound),
        }
    }

    /// The kind of a field of a registered model.
    pub fn field_kind(&self, name: &str, field: &str) -> (r: Result<ScalarKind, QueryError>)
        ensures
            match r {
                Ok(k) => {
                    &&& self@.contains_key(name@)
                    &&& exists|i: int|
                        self@[name@].is_first_named(field@, i) && k == self@[name@].fields[i].kind
                },
                Err(e) => if self@.contains_key(name@) {
                    &&& !self@[name@].has_field(field@)
                    &&& e@ == schema_error(SchemaIssue::UnknownField, field@)
                } else {
                    e@ == ErrorView::NotFound
                },
            },
    {
        let schema = self.get(name)?;
        match schema.find_field(field) {
            Some(i) => Ok(schema.fields[i].kind),
            None => Err(QueryError::schema(SchemaIssue::UnknownField, field)),
        }
    }
}

} // verus!
