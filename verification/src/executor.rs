//! The query executor: an exact count and one page of a filtered, ordered
//! table, both taken from the same snapshot.

use vstd::prelude::*;
use vstd::string::*;
use crate::cursor::{cursor_text, encode};
use crate::error::{ErrorView, QueryError};
use crate::filter::{Predicate, PredicateView, passes, predicate_views, row_matches};
use crate::fingerprint::Fingerprint;
use crate::order::{
    CompiledOrder,
    OrderKey,
    Weight,
    comes_before,
    key_before,
    lemma_key_order,
    weigh,
    weight_of,
};
use crate::row::{Row, RowView, ascending_ids, check_snapshot, is_snapshot, row_views};
use crate::schema::ModelSchema;

verus! {

/// One row of a page, with the cursor that resumes after it.
#[derive(Clone, Debug, PartialEq, Eq)]
pub struct Edge {
    pub node: Row,
    pub cursor: String,
}

/// The mathematical content of an [`Edge`].
pub struct EdgeView {
    pub node: RowView,
    pub cursor: Seq<char>,
}

impl View for Edge {
    type V = EdgeView;

    open spec fn view(&self) -> EdgeView {
        EdgeView { node: self.node@, cursor: self.cursor@ }
    }
}

/// The answer to a query: how many rows match the filter in all, and one page
/// of them.
#[derive(Clone, Debug, PartialEq, Eq)]
pub struct Connection {
    pub total_count: usize,
    pub edges: Vec<Edge>,
}

/// The mathematical content of a [`Connection`].
pub struct ConnectionView {
    pub total_count: nat,
    pub edges: Seq<EdgeView>,
}

impl View for Connection {
    type V = ConnectionView;

    open spec fn view(&self) -> ConnectionView {
        ConnectionView {
            total_count: self.total_count as nat,
            edges: Seq::new(self.edges@.len(), |i: int| self.edges@[i]@),
        }
    }
}

/// The rows of the edges, in order.
pub open spec fn nodes(edges: Seq<EdgeView>) -> Seq<RowView> {
    Seq::new(edges.len(), |i: int| edges[i].node)
}

/// The position of a row under an order: the weight of the ordering field, if
/// the order has one and the row a value for it, and the row's identity.
pub open spec fn position(order: CompiledOrder, row: RowView) -> OrderKey {
    OrderKey {
        weight: match order.column {
            Some(c) => if c < row.values.len() {
                weight_of(row.values[c as int])
            } else {
                Weight::Absent
            },
            None => Weight::Absent,
        },
        id: row.id,
    }
}

/// Whether row `a` comes strictly before row `b` under the order.
pub open spec fn before(order: CompiledOrder, a: RowView, b: RowView) -> bool {
    key_before(order.direction, position(order, a), position(order, b))
}

/// Whether a row lies strictly past the position that a cursor carries. With
/// no cursor every row does.
pub open spec fn past(order: CompiledOrder, after: Option<OrderKey>, row: RowView) -> bool {
    match after {
        Some(key) => key_before(order.direction, key, position(order, row)),
        None => true,
    }
}

/// The rows that match the filter, in the order of the table.
pub open spec fn matching(rows: Seq<RowView>, filter: Seq<PredicateView>) -> Seq<RowView> {
    rows.filter(|row: RowView| passes(filter, row))
}

/// Whether a row may appear on a page: it is in the table, it matches the
/// filter, and it lies past the cursor.
pub open spec fn eligible(
    rows: Seq<RowView>,
    filter: Seq<PredicateView>,
    order: CompiledOrder,
    after: Option<OrderKey>,
    row: RowView,
) -> bool {
    rows.contains(row) && passes(filter, row) && past(order, after, row)
}

/// Whether `page` is the page of at most `first` rows that follows `after`:
/// its rows are eligible and strictly ascend under the order, and any
/// eligible row that is not on it comes after all of a full page.
pub open spec fn is_page(
    rows: Seq<RowView>,
    filter: Seq<PredicateView>,
    order: CompiledOrder,
    after: Option<OrderKey>,
    first: nat,
    page: Seq<RowView>,
) -> bool {
    &&& page.len() <= first
    &&& forall|i: int|
        0 <= i < page.len() ==> eligible(rows, filter, order, after, #[trigger] page[i])
    &&& forall|i: int, j: int|
        0 <= i < j < page.len() ==> before(order, #[trigger] page[i], #[trigger] page[j])
    &&& forall|row: RowView| #[trigger]
        eligible(rows, filter, order, after, row) && !page.contains(row) ==> {
            &&& page.len() == first
            &&& forall|i: int| 0 <= i < page.len() ==> before(order, #[trigger] page[i], row)
        }
}

/// Whether a connection answers a query on a snapshot: the count is that of
/// all matching rows, whatever the page; the edges are the page asked for;
/// and each edge's cursor is that of its row's position.
pub open spec fn answers(
    rows: Seq<RowView>,
    filter: Seq<PredicateView>,
    order: CompiledOrder,
    mark: Fingerprint,
    after: Option<OrderKey>,
    first: nat,
    connection: ConnectionView,
) -> bool {
    &&& connection.total_count == matching(rows, filter).len()
    &&& is_page(rows, filter, order, after, first, nodes(connection.edges))
    &&& forall|i: int|
        0 <= i < connection.edges.len() ==> (#[trigger] connection.edges[i]).cursor
            == cursor_text(position(order, connection.edges[i].node), mark)
}

/// The position of a row under an order.
pub fn position_of(order: &CompiledOrder, row: &Row) -> (key: OrderKey)
    ensures
        key == position(*order, row@),
{
    let weight = match order.column {
        Some(c) => if c < row.values.len() {
            assert(row.values@[c as int]@ == row@.values[c as int]);
            weigh(&row.values[c])
        } else {
            Weight::Absent
        },
        None => Weight::Absent,
    };
    OrderKey { weight, id: row.id }
}

/// How many rows match the filter.
pub fn count_matching(rows: &Vec<Row>, filter: &Vec<Predicate>) -> (n: usize)
    ensures
        n == matching(row_views(rows@), predicate_views(filter@)).len(),
{
    let ghost all = row_views(rows@);
    let ghost wanted = |row: RowView| passes(predicate_views(filter@), row);
    let mut n: usize = 0;
    let mut i: usize = 0;
    assert(all.take(0).filter(wanted).len() == 0) by {
        all.take(0).lemma_filter_len(wanted);
    }
    while i < rows.len()
        invariant
            i <= rows.len(),
            all == row_views(rows@),
            wanted == |row: RowView| passes(predicate_views(filter@), row),
            n <= i,
            n == all.take(i as int).filter(wanted).len(),
        decreases rows.len() - i,
    {
        proof {
            assert(all.take(i + 1) =~= all.take(i as int).push(all[i as int]));
            all.take(i as int).lemma_filter_push(all[i as int], wanted);
            assert(all[i as int] == rows@[i as int]@);
        }
        if row_matches(filter, &rows[i]) {
            n += 1;
        }
        i += 1;
    }
    assert(all.take(rows.len() as int) =~= all);
    n
}

/// The first row, under the order, among those that match the filter and lie
/// past the bound.
fn next_row(
    rows: &Vec<Row>,
    filter: &Vec<Predicate>,
    order: &CompiledOrder,
    bound: Option<OrderKey>,
) -> (r: Option<usize>)
    ensures
        match r {
            Some(m) => {
                &&& m < rows@.len()
                &&& passes(predicate_views(filter@), rows@[m as int]@)
                &&& past(*order, bound, rows@[m as int]@)
                &&& forall|j: int|
                    0 <= j < rows@.len() && passes(predicate_views(filter@), (#[trigger] rows@[j])@)
                        && past(*order, bound, rows@[j]@) ==> !before(
                        *order,
                        rows@[j]@,
                        rows@[m as int]@,
                    )
            },
            None => forall|j: int|
                0 <= j < rows@.len() ==> !(passes(predicate_views(filter@), (#[trigger] rows@[j])@)
                    && past(*order, bound, rows@[j]@)),
        },
{
    let mut best: Option<(usize, OrderKey)> = None;
    let mut i: usize = 0;
    while i < rows.len()
        invariant
            i <= rows.len(),
            match best {
                Some((m, key)) => {
                    &&& m < i
                    &&& key == position(*order, rows@[m as int]@)
                    &&& passes(predicate_views(filter@), rows@[m as int]@)
                    &&& past(*order, bound, rows@[m as int]@)
                    &&& forall|j: int|
                        0 <= j < i && passes(predicate_views(filter@), (#[trigger] rows@[j])@)
                            && past(*order, bound, rows@[j]@) ==> !before(
                            *order,
                            rows@[j]@,
                            rows@[m as int]@,
                        )
                },
                None => forall|j: int|
                    0 <= j < i ==> !(passes(predicate_views(filter@), (#[trigger] rows@[j])@)
                        && past(*order, bound, rows@[j]@)),
            },
        decreases rows.len() - i,
    {
        let row = &rows[i];
        if row_matches(filter, row) {
            let key = position_of(order, row);
            let is_past = match bound {
                Some(b) => comes_before(order.direction, &b, &key),
                None => true,
            };
            if is_past {
                match best {
                    Some((m, held)) => {
                        if comes_before(order.direction, &key, &held) {
                            proof {
                                assert forall|j: int|
                                    0 <= j < i + 1 && passes(
                                        predicate_views(filter@),
                                        (#[trigger] rows@[j])@,
                                    ) && past(*order, bound, rows@[j]@) implies !before(
                                    *order,
                                    rows@[j]@,
                                    rows@[i as int]@,
                                ) by {
                                    lemma_key_order(
                                        order.direction,
                                        position(*order, rows@[j]@),
                                        key,
                                        held,
                                    );
                                }
                            }
                            best = Some((i, key));
                        }
                    },
                    None => {
                        proof {
                            lemma_key_order(order.direction, key, key, key);
                        }
                        best = Some((i, key));
                    },
                }
            }
        }
        i += 1;
    }
    match best {
        Some((m, _)) => Some(m),
        None => None,
    }
}

/// Whether place `j` is among the picked places.
spec fn is_picked(picked: Seq<usize>, j: int) -> bool {
    exists|i: int| 0 <= i < picked.len() && #[trigger] picked[i] as int == j
}

/// The rows at the picked places.
spec fn pick(rows: Seq<RowView>, picked: Seq<usize>) -> Seq<RowView> {
    Seq::new(picked.len(), |i: int| rows[picked[i] as int])
}

/// The places, in a table of ascending identities, of the rows of the page of
/// at most `first` rows that follows `after`.
fn select_page(
    rows: &Vec<Row>,
    filter: &Vec<Predicate>,
    order: &CompiledOrder,
    after: Option<OrderKey>,
    first: usize,
) -> (picked: Vec<usize>)
    requires
        ascending_ids(row_views(rows@)),
    ensures
        forall|i: int| 0 <= i < picked@.len() ==> (#[trigger] picked@[i]) < rows@.len(),
        is_page(
            row_views(rows@),
            predicate_views(filter@),
            *order,
            after,
            first as nat,
            pick(row_views(rows@), picked@),
        ),
{
    let ghost all = row_views(rows@);
    let ghost wanted = predicate_views(filter@);
    let mut picked: Vec<usize> = Vec::new();
    let mut bound: Option<OrderKey> = after;
    let mut exhausted: bool = false;
    while picked.len() < first && !exhausted
        invariant
            all == row_views(rows@),
            wanted == predicate_views(filter@),
            ascending_ids(all),
            picked@.len() <= first,
            forall|i: int| 0 <= i < picked@.len() ==> (#[trigger] picked@[i]) < rows@.len(),
            forall|i: int|
                0 <= i < picked@.len() ==> passes(wanted, all[(#[trigger] picked@[i]) as int])
                    && past(*order, after, all[picked@[i] as int]),
            forall|i: int, j: int|
                0 <= i < j < picked@.len() ==> before(
                    *order,
                    all[(#[trigger] picked@[i]) as int],
                    all[(#[trigger] picked@[j]) as int],
                ),
            bound == if picked@.len() == 0 {
                after
            } else {
                Some(position(*order, all[picked@[picked@.len() - 1] as int]))
            },
            forall|j: int|
                0 <= j < all.len() && passes(wanted, #[trigger] all[j]) && past(
                    *order,
                    after,
                    all[j],
                ) ==> is_picked(picked@, j) || (!exhausted && past(*order, bound, all[j])),
        decreases first - picked@.len() + if exhausted { 0int } else { 1int },
    {
        match next_row(rows, filter, order, bound) {
            Some(m) => {
                let ghost old_picked = picked@;
                let ghost old_bound = bound;
                assert(all[m as int] == rows@[m as int]@);
                proof {
                    // The new row lies past the cursor, and after every row picked so far.
                    if old_picked.len() > 0 {
                        let last = all[old_picked[old_picked.len() - 1] as int];
                        if after is Some {
                            lemma_key_order(
                                order.direction,
                                after->0,
                                position(*order, last),
                                position(*order, all[m as int]),
                            );
                        }
                        assert forall|i: int| 0 <= i < old_picked.len() implies before(
                            *order,
                            all[(#[trigger] old_picked[i]) as int],
                            all[m as int],
                        ) by {
                            lemma_key_order(
                                order.direction,
                                position(*order, all[old_picked[i] as int]),
                                position(*order, last),
                                position(*order, all[m as int]),
                            );
                        }
                    }
                }
                picked.push(m);
                bound = Some(position_of(order, &rows[m]));
                proof {
                    assert forall|j: int|
                        0 <= j < all.len() && passes(wanted, #[trigger] all[j]) && past(
                            *order,
                            after,
                            all[j],
                        ) implies is_picked(picked@, j) || past(*order, bound, all[j]) by {
                        assert(all[j] == rows@[j]@);
                        if is_picked(old_picked, j) {
                            let i = choose|i: int|
                                0 <= i < old_picked.len() && #[trigger] old_picked[i] as int == j;
                            assert(picked@[i] as int == j);
                        } else if j == m {
                            assert(picked@[old_picked.len() as int] as int == j);
                        } else {
                            assert(past(*order, old_bound, all[j]));
                            assert(all[j].id != all[m as int].id) by {
                                if j < m {
                                    assert(all[j].id < all[m as int].id);
                                } else {
                                    assert(all[m as int].id < all[j].id);
                                }
                            }
                            lemma_key_order(
                                order.direction,
                                position(*order, all[m as int]),
                                position(*order, all[j]),
                                position(*order, all[j]),
                            );
                        }
                    }
                }
            },
            None => {
                proof {
                    assert forall|j: int|
                        0 <= j < all.len() && passes(wanted, #[trigger] all[j]) && past(
                            *order,
                            after,
                            all[j],
                        ) implies is_picked(picked@, j) by {
                        assert(all[j] == rows@[j]@);
                    }
                }
                exhausted = true;
            },
        }
    }
    proof {
        let page = pick(all, picked@);
        assert forall|i: int| 0 <= i < page.len() implies eligible(
            all,
            wanted,
            *order,
            after,
            #[trigger] page[i],
        ) by {
            assert(all[picked@[i] as int] == page[i]);
        }
        assert forall|row: RowView| #[trigger]
            eligible(all, wanted, *order, after, row) && !page.contains(row) implies {
            &&& page.len() == first as nat
            &&& forall|i: int| 0 <= i < page.len() ==> before(*order, #[trigger] page[i], row)
        } by {
            let j = choose|j: int| 0 <= j < all.len() && all[j] == row;
            if is_picked(picked@, j) {
                let i = choose|i: int|
                    0 <= i < picked@.len() && #[trigger] picked@[i] as int == j;
                assert(page[i] == row);
            }
            assert(!exhausted && past(*order, bound, all[j]));
            assert forall|i: int| 0 <= i < page.len() implies before(
                *order,
                #[trigger] page[i],
                row,
            ) by {
                let last = all[picked@[picked@.len() - 1] as int];
                assert(page[i] == all[picked@[i] as int]);
                lemma_key_order(
                    order.direction,
                    position(*order, page[i]),
                    position(*order, last),
                    position(*order, row),
                );
            }
        }
    }
    picked
}

/// Answers a query on a snapshot of a model's table.
///
/// The rows must be a snapshot of the table of `schema`: each row fits the
/// schema and identities ascend. Anything else is a store error. On a
/// snapshot the answer holds the count of all rows that match the filter,
/// and the page of at most `first` such rows that follows `after` under the
/// order, each with its cursor. An empty match is an answer like any other.
pub fn execute(
    schema: &ModelSchema,
    rows: &Vec<Row>,
    filter: &Vec<Predicate>,
    order: &CompiledOrder,
    mark: &Fingerprint,
    after: Option<OrderKey>,
    first: usize,
) -> (r: Result<Connection, QueryError>)
    ensures
        match r {
            Ok(connection) => {
                &&& is_snapshot(schema@, row_views(rows@))
                &&& answers(
                    row_views(rows@),
                    predicate_views(filter@),
                    *order,
                    *mark,
                    after,
                    first as nat,
                    connection@,
                )
            },
            Err(e) => !is_snapshot(schema@, row_views(rows@)) && e@ == ErrorView::Store,
        },
{
    if !check_snapshot(schema, rows) {
        return Err(QueryError::Store);
    }
    let total_count = count_matching(rows, filter);
    let picked = select_page(rows, filter, order, after, first);
    let ghost all = row_views(rows@);
    let mut edges: Vec<Edge> = Vec::new();
    let mut i: usize = 0;
    while i < picked.len()
        invariant
            i <= picked.len(),
            all == row_views(rows@),
            forall|k: int| 0 <= k < picked@.len() ==> (#[trigger] picked@[k]) < rows@.len(),
            edges@.len() == i,
            forall|k: int|
                0 <= k < i ==> (#[trigger] edges@[k])@.node == all[picked@[k] as int]
                    && edges@[k]@.cursor == cursor_text(position(*order, edges@[k]@.node), *mark),
        decreases picked.len() - i,
    {
        let row = &rows[picked[i]];
        assert(row@ == all[picked@[i as int] as int]);
        let key = position_of(order, row);
        edges.push(Edge { node: row.duplicate(), cursor: encode(&key, mark) });
        i += 1;
    }
    let connection = Connection { total_count, edges };
    assert(nodes(connection@.edges) =~= pick(all, picked@));
    Ok(connection)
}

} // verus!
