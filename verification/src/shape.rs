//! The queryable shape of a model: which operators each kind of field admits,
//! which fields rows can be ordered by, and the argument names that a client may
//! use. The operator table here is the one that the filter compiler validates
//! against, so what is advertised and what is accepted cannot drift apart.

use vstd::prelude::*;
use vstd::string::*;
use crate::schema::{FieldView, ModelSchema, SchemaView};
use crate::value::ScalarKind;

verus! {

/// A comparison that a filter can apply to a field.
#[derive(Clone, Copy, Debug, PartialEq, Eq, Structural)]
pub enum Operator {
    Eq,
    Neq,
    Gt,
    Gte,
    Lt,
    Lte,
}

/// The direction of an ordering.
#[derive(Clone, Copy, Debug, PartialEq, Eq, Structural)]
pub enum Direction {
    Asc,
    Desc,
}

/// The operator table: the operators that a field of the given kind admits, in
/// the order in which they are advertised.
pub open spec fn legal_operators(kind: ScalarKind) -> Seq<Operator> {
    match kind {
        ScalarKind::Int | ScalarKind::Felt => seq![
            Operator::Eq,
            Operator::Neq,
            Operator::Gt,
            Operator::Gte,
            Operator::Lt,
            Operator::Lte,
        ],
        ScalarKind::Text | ScalarKind::Bytes | ScalarKind::Bool => seq![
            Operator::Eq,
            Operator::Neq,
        ],
    }
}

/// Whether the table lists the operator for the kind.
pub open spec fn allows(kind: ScalarKind, op: Operator) -> bool {
    legal_operators(kind).contains(op)
}

/// Whether rows can be ordered by a field of the kind. Kinds of variable length
/// are left out.
pub open spec fn orderable(kind: ScalarKind) -> bool {
    kind is Int || kind is Felt || kind is Bool
}

/// What the operator appends to a field's name in an argument name. Equality is
/// implied by the bare field name.
pub open spec fn suffix(op: Operator) -> Seq<char> {
    match op {
        Operator::Eq => ""@,
        Operator::Neq => "NEQ"@,
        Operator::Gt => "GT"@,
        Operator::Gte => "GTE"@,
        Operator::Lt => "LT"@,
        Operator::Lte => "LTE"@,
    }
}

/// The name of the argument that applies `op` to the field named `field`.
pub open spec fn argument_name(field: Seq<char>, op: Operator) -> Seq<char> {
    field + suffix(op)
}

/// Every operator is either equality, inequality, or one of the four
/// comparisons that only numeric kinds admit.
pub proof fn lemma_operator_table(kind: ScalarKind, op: Operator)
    ensures
        allows(kind, op) <==> (op is Eq || op is Neq || kind is Int || kind is Felt),
{
    let table = legal_operators(kind);
    if op is Eq {
        assert(table[0] == op);
    }
    if op is Neq {
        assert(table[1] == op);
    }
    if kind is Int || kind is Felt {
        assert(table[2] == Operator::Gt);
        assert(table[3] == Operator::Gte);
        assert(table[4] == Operator::Lt);
        assert(table[5] == Operator::Lte);
    }
}

/// The operators that a field of the given kind admits.
pub fn operators_for(kind: ScalarKind) -> (ops: Vec<Operator>)
    ensures
        ops@ == legal_operators(kind),
{
    let mut ops: Vec<Operator> = Vec::new();
    ops.push(Operator::Eq);
    ops.push(Operator::Neq);
    match kind {
        ScalarKind::Int | ScalarKind::Felt => {
            ops.push(Operator::Gt);
            ops.push(Operator::Gte);
            ops.push(Operator::Lt);
            ops.push(Operator::Lte);
        },
        _ => {},
    }
    assert(ops@ =~= legal_operators(kind));
    ops
}

/// Whether a field of the given kind admits the operator.
pub fn operator_allowed(kind: ScalarKind, op: Operator) -> (r: bool)
    ensures
        r == allows(kind, op),
{
    proof {
        lemma_operator_table(kind, op);
    }
    match op {
        Operator::Eq | Operator::Neq => true,
        _ => match kind {
            ScalarKind::Int | ScalarKind::Felt => true,
            _ => false,
        },
    }
}

/// Whether rows can be ordered by a field of the given kind.
pub fn is_orderable(kind: ScalarKind) -> (r: bool)
    ensures
        r == orderable(kind),
{
    match kind {
        ScalarKind::Int | ScalarKind::Felt | ScalarKind::Bool => true,
        _ => false,
    }
}

/// What the operator appends to a field's name.
pub fn operator_suffix(op: Operator) -> (s: &'static str)
    ensures
        s@ == suffix(op),
{
    match op {
        Operator::Eq => "",
        Operator::Neq => "NEQ",
        Operator::Gt => "GT",
        Operator::Gte => "GTE",
        Operator::Lt => "LT",
        Operator::Lte => "LTE",
    }
}

/// The name of the argument that applies `op` to the field named `field`.
pub fn argument_name_of(field: &String, op: Operator) -> (name: String)
    ensures
        name@ == argument_name(field@, op),
{
    let mut name = field.clone();
    name.append(operator_suffix(op));
    name
}

/// The upper-case form of an ASCII letter; any other character is left as it is.
pub open spec fn ascii_upper(c: char) -> char {
    if 'a' <= c && c <= 'z' {
        ((c as u32) - 32) as char
    } else {
        c
    }
}

/// The name under which a field appears among the order choices: the field's
/// name with its ASCII letters in upper case.
pub open spec fn enum_name(field: Seq<char>) -> Seq<char> {
    Seq::new(field.len(), |i: int| ascii_upper(field[i]))
}

/// The upper-case form of a lower-case ASCII letter, as a string of one letter.
fn upper_letter(c: char) -> (s: &'static str)
    requires
        'a' <= c && c <= 'z',
    ensures
        s@ == seq![ascii_upper(c)],
{
    let letters = "ABCDEFGHIJKLMNOPQRSTUVWXYZ";
    proof {
        reveal_strlit("ABCDEFGHIJKLMNOPQRSTUVWXYZ");
    }
    let place = (c as u32 - 97) as usize;
    let s = letters.substring_char(place, place + 1);
    assert(s@ =~= seq![ascii_upper(c)]);
    s
}

/// The name under which a field appears among the order choices.
pub fn enum_name_of(field: &str) -> (name: String)
    ensures
        name@ == enum_name(field@),
{
    let n = field.unicode_len();
    let mut name = String::new();
    let mut i: usize = 0;
    while i < n
        invariant
            i <= n,
            n == field@.len(),
            name@ == enum_name(field@).take(i as int),
        decreases n - i,
    {
        let c = field.get_char(i);
        if 'a' <= c && c <= 'z' {
            name.append(upper_letter(c));
        } else {
            name.append(field.substring_char(i, i + 1));
        }
        assert(name@ =~= enum_name(field@).take(i + 1));
        i += 1;
    }
    assert(name@ =~= enum_name(field@));
    name
}

/// A field as a client sees it.
#[derive(Clone, Debug, PartialEq, Eq)]
pub struct ObjectField {
    pub name: String,
    pub kind: ScalarKind,
}

/// The mathematical content of an [`ObjectField`].
pub struct ObjectFieldView {
    pub name: Seq<char>,
    pub kind: ScalarKind,
}

impl View for ObjectField {
    type V = ObjectFieldView;

    open spec fn view(&self) -> ObjectFieldView {
        ObjectFieldView { name: self.name@, kind: self.kind }
    }
}

/// One legal pairing of a field with an operator, under the name by which a
/// filter refers to it.
#[derive(Clone, Debug, PartialEq, Eq)]
pub struct WhereArgument {
    pub name: String,
    pub column: usize,
    pub operator: Operator,
}

/// The mathematical content of a [`WhereArgument`].
pub struct WhereArgumentView {
    pub name: Seq<char>,
    pub column: int,
    pub operator: Operator,
}

impl View for WhereArgument {
    type V = WhereArgumentView;

    open spec fn view(&self) -> WhereArgumentView {
        WhereArgumentView { name: self.name@, column: self.column as int, operator: self.operator }
    }
}

/// A field by which rows can be ordered, under the name by which an order
/// input chooses it.
#[derive(Clone, Debug, PartialEq, Eq)]
pub struct OrderChoice {
    pub name: String,
    pub column: usize,
}

/// The mathematical content of an [`OrderChoice`].
pub struct OrderChoiceView {
    pub name: Seq<char>,
    pub column: int,
}

impl View for OrderChoice {
    type V = OrderChoiceView;

    open spec fn view(&self) -> OrderChoiceView {
        OrderChoiceView { name: self.name@, column: self.column as int }
    }
}

/// Everything a client may ask of one model.
#[derive(Clone, Debug, PartialEq, Eq)]
pub struct ModelShape {
    pub name: String,
    pub object: Vec<ObjectField>,
    pub filters: Vec<WhereArgument>,
    pub orderings: Vec<OrderChoice>,
}

/// The mathematical content of a [`ModelShape`].
pub struct ShapeView {
    pub name: Seq<char>,
    pub object: Seq<ObjectFieldView>,
    pub filters: Seq<WhereArgumentView>,
    pub orderings: Seq<OrderChoiceView>,
}

impl View for ModelShape {
    type V = ShapeView;

    open spec fn view(&self) -> ShapeView {
        ShapeView {
            name: self.name@,
            object: Seq::new(self.object@.len(), |i: int| self.object@[i]@),
            filters: Seq::new(self.filters@.len(), |i: int| self.filters@[i]@),
            orderings: Seq::new(self.orderings@.len(), |i: int| self.orderings@[i]@),
        }
    }
}

/// The arguments that one field contributes: one for each operator that the
/// table lists for its kind, in the table's order.
pub open spec fn field_arguments(field: FieldView, column: int) -> Seq<WhereArgumentView> {
    Seq::new(
        legal_operators(field.kind).len(),
        |k: int|
            WhereArgumentView {
                name: argument_name(field.name, legal_operators(field.kind)[k]),
                column,
                operator: legal_operators(field.kind)[k],
            },
    )
}

/// The arguments that the first `n` fields contribute, field by field.
pub open spec fn where_arguments(fields: Seq<FieldView>, n: int) -> Seq<WhereArgumentView>
    decreases n,
{
    if n <= 0 {
        Seq::empty()
    } else {
        where_arguments(fields, n - 1) + field_arguments(fields[n - 1], n - 1)
    }
}

/// The orderable ones among the first `n` fields, in schema order, each under
/// its choice name.
pub open spec fn order_choices(fields: Seq<FieldView>, n: int) -> Seq<OrderChoiceView>
    decreases n,
{
    if n <= 0 {
        Seq::empty()
    } else if orderable(fields[n - 1].kind) {
        order_choices(fields, n - 1).push(
            OrderChoiceView { name: enum_name(fields[n - 1].name), column: n - 1 },
        )
    } else {
        order_choices(fields, n - 1)
    }
}

/// The shape that a schema gives rise to.
pub open spec fn shape_of(schema: SchemaView) -> ShapeView {
    ShapeView {
        name: schema.name,
        object: Seq::new(
            schema.fields.len(),
            |i: int| ObjectFieldView { name: schema.fields[i].name, kind: schema.fields[i].kind },
        ),
        filters: where_arguments(schema.fields, schema.fields.len() as int),
        orderings: order_choices(schema.fields, schema.fields.len() as int),
    }
}

/// Every advertised argument pairs an existing field with an operator that the
/// table lists for that field's kind, and bears the name made of the two.
pub proof fn lemma_where_arguments_legal(fields: Seq<FieldView>, n: int, k: int)
    requires
        0 <= n <= fields.len(),
        0 <= k < where_arguments(fields, n).len(),
    ensures
        0 <= where_arguments(fields, n)[k].column < n,
        allows(
            fields[where_arguments(fields, n)[k].column].kind,
            where_arguments(fields, n)[k].operator,
        ),
        where_arguments(fields, n)[k].name == argument_name(
            fields[where_arguments(fields, n)[k].column].name,
            where_arguments(fields, n)[k].operator,
        ),
    decreases n,
{
    let before = where_arguments(fields, n - 1);
    if k < before.len() {
        lemma_where_arguments_legal(fields, n - 1, k);
    } else {
        let ops = legal_operators(fields[n - 1].kind);
        assert(ops[k - before.len()] == where_arguments(fields, n)[k].operator);
    }
}

/// Every legal pairing of a field with an operator is advertised.
pub proof fn lemma_where_arguments_complete(
    fields: Seq<FieldView>,
    n: int,
    column: int,
    op: Operator,
)
    requires
        0 <= column < n <= fields.len(),
        allows(fields[column].kind, op),
    ensures
        exists|k: int|
            0 <= k < where_arguments(fields, n).len() && #[trigger] where_arguments(fields, n)[k]
                == (WhereArgumentView {
                name: argument_name(fields[column].name, op),
                column,
                operator: op,
            }),
    decreases n,
{
    let before = where_arguments(fields, n - 1);
    if column < n - 1 {
        lemma_where_arguments_complete(fields, n - 1, column, op);
        let k = choose|k: int|
            0 <= k < before.len() && #[trigger] before[k] == (WhereArgumentView {
                name: argument_name(fields[column].name, op),
                column,
                operator: op,
            });
        assert(where_arguments(fields, n)[k] == before[k]);
    } else {
        let ops = legal_operators(fields[column].kind);
        let j = choose|j: int| 0 <= j < ops.len() && ops[j] == op;
        assert(where_arguments(fields, n)[before.len() + j] == field_arguments(
            fields[column],
            column,
        )[j]);
    }
}

/// Derives the shape of a model from its schema.
pub fn build_shape(schema: &ModelSchema) -> (shape: ModelShape)
    ensures
        shape@ == shape_of(schema@),
{
    let mut object: Vec<ObjectField> = Vec::new();
    let mut filters: Vec<WhereArgument> = Vec::new();
    let mut orderings: Vec<OrderChoice> = Vec::new();
    let ghost fields = schema@.fields;
    let mut i: usize = 0;
    while i < schema.fields.len()
        invariant
            i <= schema.fields.len(),
            fields == schema@.fields,
            object@.len() == i,
            forall|j: int|
                0 <= j < i ==> (#[trigger] object@[j])@ == (ObjectFieldView {
                    name: fields[j].name,
                    kind: fields[j].kind,
                }),
            Seq::new(filters@.len(), |j: int| filters@[j]@) == where_arguments(fields, i as int),
            Seq::new(orderings@.len(), |j: int| orderings@[j]@) == order_choices(fields, i as int),
        decreases schema.fields.len() - i,
    {
        let field = &schema.fields[i];
        assert(field@ == fields[i as int]);
        object.push(ObjectField { name: field.name.clone(), kind: field.kind });
        let ops = operators_for(field.kind);
        let ghost base = filters@;
        let mut k: usize = 0;
        while k < ops.len()
            invariant
                k <= ops.len(),
                i < schema.fields.len(),
                fields == schema@.fields,
                field@ == fields[i as int],
                ops@ == legal_operators(field.kind),
                filters@.len() == base.len() + k,
                forall|j: int| 0 <= j < base.len() ==> filters@[j] == base[j],
                forall|j: int|
                    0 <= j < k ==> (#[trigger] filters@[base.len() + j])@ == field_arguments(
                        fields[i as int],
                        i as int,
                    )[j],
            decreases ops.len() - k,
        {
            filters.push(
                WhereArgument {
                    name: argument_name_of(&field.name, ops[k]),
                    column: i,
                    operator: ops[k],
                },
            );
            k += 1;
        }
        assert(Seq::new(filters@.len(), |j: int| filters@[j]@) =~= where_arguments(
            fields,
            i as int,
        ) + field_arguments(fields[i as int], i as int)) by {
            let prior = Seq::new(base.len(), |j: int| base[j]@);
            assert(prior == where_arguments(fields, i as int));
            assert forall|j: int| 0 <= j < filters@.len() implies filters@[j]@ == (prior
                + field_arguments(fields[i as int], i as int))[j] by {
                if j < base.len() {
                    assert(prior[j] == base[j]@);
                } else {
                    assert(filters@[base.len() + (j - base.len())]@ == field_arguments(
                        fields[i as int],
                        i as int,
                    )[j - base.len()]);
                }
            }
        }
        let ghost chosen = Seq::new(orderings@.len(), |j: int| orderings@[j]@);
        if is_orderable(field.kind) {
            orderings.push(OrderChoice { name: enum_name_of(field.name.as_str()), column: i });
            assert(Seq::new(orderings@.len(), |j: int| orderings@[j]@) =~= chosen.push(
                OrderChoiceView { name: enum_name(fields[i as int].name), column: i as int },
            ));
        }
        i += 1;
    }
    let shape = ModelShape { name: schema.name.clone(), object, filters, orderings };
    assert(shape@.object =~= shape_of(schema@).object);
    shape
}

} // verus!
