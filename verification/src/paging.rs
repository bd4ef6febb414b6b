//! Laws of paging: what the executor's contract implies for a client that
//! walks a connection page by page.

use vstd::prelude::*;
use crate::cursor::{accept, lemma_cursor_round_trip};
use crate::executor::{
    ConnectionView,
    answers,
    before,
    eligible,
    is_page,
    matching,
    nodes,
    past,
    position,
};
use crate::fingerprint::Fingerprint;
use crate::filter::{PredicateView, passes};
use crate::order::{CompiledOrder, OrderKey, lemma_key_order, weight_of};
use crate::row::{RowView, ascending_ids};
use crate::shape::Direction;

verus! {

/// The cursor position with which to ask for the page after `page`: that of
/// its last row, or, if the page is empty, the position that led to it.
pub open spec fn next_after(order: CompiledOrder, after: Option<OrderKey>, page: Seq<RowView>)
    -> Option<OrderKey> {
    if page.len() == 0 {
        after
    } else {
        Some(position(order, page.last()))
    }
}

/// The cursor of the last edge of an answer is accepted by the next request
/// under the same filter and order, and carries the position after which the
/// next page begins.
pub proof fn lemma_last_cursor_resumes(
    rows: Seq<RowView>,
    filter: Seq<PredicateView>,
    order: CompiledOrder,
    mark: Fingerprint,
    after: Option<OrderKey>,
    first: nat,
    connection: ConnectionView,
)
    requires
        answers(rows, filter, order, mark, after, first, connection),
        connection.edges.len() > 0,
    ensures
        accept(connection.edges.last().cursor, mark) matches Ok(key) && Some(key) == next_after(
            order,
            after,
            nodes(connection.edges),
        ),
{
    let last = connection.edges.last();
    assert(last == connection.edges[connection.edges.len() - 1]);
    lemma_cursor_round_trip(position(order, last.node), mark);
    assert(nodes(connection.edges).last() == last.node);
}

/// Two pages for the same request agree on every place that both have.
proof fn lemma_pages_agree(
    rows: Seq<RowView>,
    filter: Seq<PredicateView>,
    order: CompiledOrder,
    after: Option<OrderKey>,
    first: nat,
    p: Seq<RowView>,
    q: Seq<RowView>,
    i: int,
)
    requires
        is_page(rows, filter, order, after, first, p),
        is_page(rows, filter, order, after, first, q),
        0 <= i < p.len(),
        i < q.len(),
    ensures
        p[i] == q[i],
    decreases i,
{
    assert forall|k: int| 0 <= k < i implies p[k] == q[k] by {
        lemma_pages_agree(rows, filter, order, after, first, p, q, k);
    }
    if p[i] != q[i] {
        lemma_follows(rows, filter, order, after, first, q, p, i);
        lemma_follows(rows, filter, order, after, first, p, q, i);
        lemma_key_order(
            order.direction,
            position(order, p[i]),
            position(order, q[i]),
            position(order, q[i]),
        );
    }
}

/// If two pages for the same request agree before place `i` and differ at it,
/// the row that `p` has there comes before the row that `q` has there.
proof fn lemma_follows(
    rows: Seq<RowView>,
    filter: Seq<PredicateView>,
    order: CompiledOrder,
    after: Option<OrderKey>,
    first: nat,
    p: Seq<RowView>,
    q: Seq<RowView>,
    i: int,
)
    requires
        is_page(rows, filter, order, after, first, p),
        is_page(rows, filter, order, after, first, q),
        0 <= i < p.len(),
        i < q.len(),
        forall|k: int| 0 <= k < i ==> p[k] == q[k],
        p[i] != q[i],
    ensures
        before(order, p[i], q[i]),
{
    let row = q[i];
    assert(eligible(rows, filter, order, after, row));
    if p.contains(row) {
        let j = choose|j: int| 0 <= j < p.len() && p[j] == row;
        if j < i {
            assert(before(order, q[j], q[i]));
            lemma_key_order(
                order.direction,
                position(order, row),
                position(order, row),
                position(order, row),
            );
        }
        assert(before(order, p[i], p[j]));
    }
}

/// A request has one page only: the executor's contract leaves no choice.
pub proof fn lemma_page_unique(
    rows: Seq<RowView>,
    filter: Seq<PredicateView>,
    order: CompiledOrder,
    after: Option<OrderKey>,
    first: nat,
    p: Seq<RowView>,
    q: Seq<RowView>,
)
    requires
        is_page(rows, filter, order, after, first, p),
        is_page(rows, filter, order, after, first, q),
    ensures
        p == q,
{
    assert forall|i: int| 0 <= i < p.len() && i < q.len() implies p[i] == q[i] by {
        lemma_pages_agree(rows, filter, order, after, first, p, q, i);
    }
    lemma_no_longer_page(rows, filter, order, after, first, p, q);
    lemma_no_longer_page(rows, filter, order, after, first, q, p);
    assert(p =~= q);
}

/// Of two pages for the same request that agree where both have rows, the
/// second is no longer than the first.
proof fn lemma_no_longer_page(
    rows: Seq<RowView>,
    filter: Seq<PredicateView>,
    order: CompiledOrder,
    after: Option<OrderKey>,
    first: nat,
    p: Seq<RowView>,
    q: Seq<RowView>,
)
    requires
        is_page(rows, filter, order, after, first, p),
        is_page(rows, filter, order, after, first, q),
        forall|i: int| 0 <= i < p.len() && i < q.len() ==> p[i] == q[i],
    ensures
        q.len() <= p.len(),
{
    if p.len() < q.len() {
        let row = q[p.len() as int];
        assert(eligible(rows, filter, order, after, row));
        if p.contains(row) {
            let k = choose|k: int| 0 <= k < p.len() && p[k] == row;
            assert(before(order, q[k], q[p.len() as int]));
            lemma_key_order(
                order.direction,
                position(order, row),
                position(order, row),
                position(order, row),
            );
        }
    }
}

/// Gap-free paging, for two pages: a page followed by the page that its last
/// cursor leads to is the page of both sizes together. No row appears twice
/// and none is left out between them.
pub proof fn lemma_pages_join(
    rows: Seq<RowView>,
    filter: Seq<PredicateView>,
    order: CompiledOrder,
    after: Option<OrderKey>,
    n: nat,
    m: nat,
    p: Seq<RowView>,
    q: Seq<RowView>,
)
    requires
        is_page(rows, filter, order, after, n, p),
        is_page(rows, filter, order, next_after(order, after, p), m, q),
    ensures
        is_page(rows, filter, order, after, n + m, p + q),
{
    let both = p + q;
    let resume = next_after(order, after, p);
    if p.len() == 0 {
        if q.len() > 0 {
            assert(eligible(rows, filter, order, after, q[0]));
            assert(!p.contains(q[0]));
        }
        assert(both =~= q);
        assert forall|row: RowView| #[trigger]
            eligible(rows, filter, order, after, row) && !both.contains(row) implies {
            &&& both.len() == n + m
            &&& forall|i: int| 0 <= i < both.len() ==> before(order, #[trigger] both[i], row)
        } by {
            assert(!p.contains(row));
        }
    } else {
        let last = p.last();
        assert(eligible(rows, filter, order, after, last));
        // Whatever lies past the last row of `p` lies past the cursor too, and
        // after every row of `p`.
        assert forall|row: RowView| before(order, last, row) implies past(order, after, row) && (
        forall|i: int| 0 <= i < p.len() ==> before(order, #[trigger] p[i], row)) by {
            if after is Some {
                lemma_key_order(
                    order.direction,
                    after->0,
                    position(order, last),
                    position(order, row),
                );
            }
            assert forall|i: int| 0 <= i < p.len() implies before(order, #[trigger] p[i], row) by {
                lemma_key_order(
                    order.direction,
                    position(order, p[i]),
                    position(order, last),
                    position(order, row),
                );
            }
        }
        assert forall|j: int| 0 <= j < q.len() implies before(order, last, #[trigger] q[j]) by {
            assert(eligible(rows, filter, order, resume, q[j]));
        }
        assert forall|i: int| 0 <= i < both.len() implies eligible(
            rows,
            filter,
            order,
            after,
            #[trigger] both[i],
        ) by {
            if i < p.len() {
                assert(both[i] == p[i]);
            } else {
                assert(both[i] == q[i - p.len()]);
                assert(eligible(rows, filter, order, resume, q[i - p.len()]));
            }
        }
        assert forall|i: int, j: int| 0 <= i < j < both.len() implies before(
            order,
            #[trigger] both[i],
            #[trigger] both[j],
        ) by {
            if j < p.len() {
                assert(before(order, p[i], p[j]));
            } else if i >= p.len() {
                assert(before(order, q[i - p.len()], q[j - p.len()]));
            } else {
                assert(before(order, last, q[j - p.len()]));
                assert(before(order, p[i], q[j - p.len()]));
            }
        }
        assert forall|row: RowView| #[trigger]
            eligible(rows, filter, order, after, row) && !both.contains(row) implies {
            &&& both.len() == n + m
            &&& forall|i: int| 0 <= i < both.len() ==> before(order, #[trigger] both[i], row)
        } by {
            if p.contains(row) {
                let i = choose|i: int| 0 <= i < p.len() && p[i] == row;
                assert(both[i] == row);
            }
            assert(before(order, last, row));
            assert(eligible(rows, filter, order, resume, row));
            if q.contains(row) {
                let j = choose|j: int| 0 <= j < q.len() && q[j] == row;
                assert(both[p.len() + j] == row);
            }
            assert forall|i: int| 0 <= i < both.len() implies before(
                order,
                #[trigger] both[i],
                row,
            ) by {
                if i < p.len() {
                    assert(before(order, p[i], row));
                } else {
                    assert(before(order, q[i - p.len()], row));
                }
            }
        }
    }
}

/// The sizes asked for, added up.
pub open spec fn total(sizes: Seq<nat>) -> nat
    decreases sizes.len(),
{
    if sizes.len() == 0 {
        0
    } else {
        sizes[0] + total(sizes.drop_first())
    }
}

/// The pages laid end to end.
pub open spec fn joined(pages: Seq<Seq<RowView>>) -> Seq<RowView>
    decreases pages.len(),
{
    if pages.len() == 0 {
        Seq::empty()
    } else {
        pages[0] + joined(pages.drop_first())
    }
}

/// Whether `pages` is a walk through a connection: the first page follows
/// `after`, and each later page follows the last cursor of the page before it.
pub open spec fn is_walk(
    rows: Seq<RowView>,
    filter: Seq<PredicateView>,
    order: CompiledOrder,
    after: Option<OrderKey>,
    sizes: Seq<nat>,
    pages: Seq<Seq<RowView>>,
) -> bool
    decreases pages.len(),
{
    &&& pages.len() == sizes.len()
    &&& pages.len() > 0 ==> {
        &&& is_page(rows, filter, order, after, sizes[0], pages[0])
        &&& is_walk(
            rows,
            filter,
            order,
            next_after(order, after, pages[0]),
            sizes.drop_first(),
            pages.drop_first(),
        )
    }
}

/// Gap-free paging: the pages of a walk, laid end to end, are the one page
/// that a single request for all their sizes together would have returned.
pub proof fn lemma_walk_joins(
    rows: Seq<RowView>,
    filter: Seq<PredicateView>,
    order: CompiledOrder,
    after: Option<OrderKey>,
    sizes: Seq<nat>,
    pages: Seq<Seq<RowView>>,
)
    requires
        is_walk(rows, filter, order, after, sizes, pages),
    ensures
        is_page(rows, filter, order, after, total(sizes), joined(pages)),
        next_after(order, after, joined(pages)) == walk_end(order, after, pages),
    decreases pages.len(),
{
    if pages.len() == 0 {
        assert(joined(pages) =~= Seq::<RowView>::empty());
    } else {
        let resume = next_after(order, after, pages[0]);
        lemma_walk_joins(rows, filter, order, resume, sizes.drop_first(), pages.drop_first());
        lemma_pages_join(
            rows,
            filter,
            order,
            after,
            sizes[0],
            total(sizes.drop_first()),
            pages[0],
            joined(pages.drop_first()),
        );
    }
}

/// The cursor position that a walk ends with.
pub open spec fn walk_end(order: CompiledOrder, after: Option<OrderKey>, pages: Seq<Seq<RowView>>)
    -> Option<OrderKey>
    decreases pages.len(),
{
    if pages.len() == 0 {
        after
    } else {
        walk_end(order, next_after(order, after, pages[0]), pages.drop_first())
    }
}

/// A page that is shorter than asked for ends the walk: together with what
/// came before it, every eligible row has been seen.
pub proof fn lemma_short_page_is_rest(
    rows: Seq<RowView>,
    filter: Seq<PredicateView>,
    order: CompiledOrder,
    after: Option<OrderKey>,
    first: nat,
    page: Seq<RowView>,
)
    requires
        is_page(rows, filter, order, after, first, page),
        page.len() < first,
    ensures
        forall|row: RowView|
            page.contains(row) <==> #[trigger] eligible(rows, filter, order, after, row),
        page.no_duplicates(),
{
    assert forall|row: RowView| page.contains(row) implies #[trigger] eligible(
        rows,
        filter,
        order,
        after,
        row,
    ) by {
        let i = choose|i: int| 0 <= i < page.len() && page[i] == row;
        assert(eligible(rows, filter, order, after, page[i]));
    }
    lemma_page_has_no_duplicates(rows, filter, order, after, first, page);
}

/// No row appears twice on a page.
pub proof fn lemma_page_has_no_duplicates(
    rows: Seq<RowView>,
    filter: Seq<PredicateView>,
    order: CompiledOrder,
    after: Option<OrderKey>,
    first: nat,
    page: Seq<RowView>,
)
    requires
        is_page(rows, filter, order, after, first, page),
    ensures
        page.no_duplicates(),
{
    assert forall|i: int, j: int| 0 <= i < page.len() && 0 <= j < page.len() && i != j implies page[i]
        != page[j] by {
        lemma_key_order(
            order.direction,
            position(order, page[i]),
            position(order, page[i]),
            position(order, page[i]),
        );
        if i < j {
            assert(before(order, page[i], page[j]));
        } else {
            assert(before(order, page[j], page[i]));
        }
    }
}

/// The count of a connection does not depend on the page asked for: two
/// answers to the same filter on the same snapshot count the same, whatever
/// their orders, cursors and page sizes.
pub proof fn lemma_count_ignores_page(
    rows: Seq<RowView>,
    filter: Seq<PredicateView>,
    order_a: CompiledOrder,
    mark_a: Fingerprint,
    after_a: Option<OrderKey>,
    first_a: nat,
    a: ConnectionView,
    order_b: CompiledOrder,
    mark_b: Fingerprint,
    after_b: Option<OrderKey>,
    first_b: nat,
    b: ConnectionView,
)
    requires
        answers(rows, filter, order_a, mark_a, after_a, first_a, a),
        answers(rows, filter, order_b, mark_b, after_b, first_b, b),
    ensures
        a.total_count == b.total_count,
        a.total_count == matching(rows, filter).len(),
{
}

/// Filtering rows that are all different leaves rows that are all different.
proof fn lemma_filter_keeps_distinct(rows: Seq<RowView>, wanted: spec_fn(RowView) -> bool)
    requires
        rows.no_duplicates(),
    ensures
        rows.filter(wanted).no_duplicates(),
    decreases rows.len(),
{
    reveal(Seq::filter);
    if rows.len() > 0 {
        let rest = rows.drop_last();
        lemma_filter_keeps_distinct(rest, wanted);
        if rest.filter(wanted).contains(rows.last()) {
            rest.lemma_filter_contains_rev(wanted, rows.last());
            let k = choose|k: int| 0 <= k < rest.len() && rest[k] == rows.last();
            assert(rows[k] == rows[rows.len() - 1]);
        }
    }
}

/// A walk from the start to a short page sees every matching row once, and
/// so as many rows as the connection counts.
pub proof fn lemma_whole_result_counts(
    rows: Seq<RowView>,
    filter: Seq<PredicateView>,
    order: CompiledOrder,
    first: nat,
    page: Seq<RowView>,
)
    requires
        ascending_ids(rows),
        is_page(rows, filter, order, None, first, page),
        page.len() < first,
    ensures
        forall|row: RowView| page.contains(row) <==> matching(rows, filter).contains(row),
        page.len() == matching(rows, filter).len(),
{
    let wanted = |row: RowView| passes(filter, row);
    let all = matching(rows, filter);
    lemma_short_page_is_rest(rows, filter, order, None, first, page);
    assert forall|row: RowView| page.contains(row) <==> all.contains(row) by {
        if page.contains(row) {
            assert(eligible(rows, filter, order, None, row));
            let k = choose|k: int| 0 <= k < rows.len() && rows[k] == row;
            rows.lemma_filter_contains(wanted, k);
        }
        if all.contains(row) {
            rows.lemma_filter_contains_rev(wanted, row);
            let k = choose|k: int| 0 <= k < all.len() && all[k] == row;
            rows.lemma_filter_pred(wanted, k);
            assert(eligible(rows, filter, order, None, row));
        }
    }
    assert(rows.no_duplicates()) by {
        assert forall|i: int, j: int| 0 <= i < rows.len() && 0 <= j < rows.len() && i != j implies rows[i]
            != rows[j] by {
            if i < j {
                assert(rows[i].id < rows[j].id);
            } else {
                assert(rows[j].id < rows[i].id);
            }
        }
    }
    lemma_filter_keeps_distinct(rows, wanted);
    page.unique_seq_to_set();
    all.unique_seq_to_set();
    assert(page.to_set() =~= all.to_set());
}

/// What a row counts for when rows are ordered by the field at `column`.
pub open spec fn field_rank(row: RowView, column: int) -> int {
    weight_of(row.values[column]).rank()
}

/// Whether a row of rank `x` and identity `a` may stand right before a row of
/// rank `y` and identity `b`: ranks grow in an ascending order and fall in a
/// descending one, and where they tie the identities do so in their place.
pub open spec fn in_sequence(direction: Direction, x: int, a: u64, y: int, b: u64) -> bool {
    match direction {
        Direction::Asc => x < y || (x == y && a < b),
        Direction::Desc => x > y || (x == y && a > b),
    }
}

/// Neighbours on a page stand in the relation that the order asks for. Where
/// rows are ordered by a field, the field's rank strictly grows, or falls,
/// from one edge to the next, with ties broken by identity; where they are
/// not, identities alone decide.
pub proof fn lemma_neighbours_ordered(
    rows: Seq<RowView>,
    filter: Seq<PredicateView>,
    order: CompiledOrder,
    after: Option<OrderKey>,
    first: nat,
    page: Seq<RowView>,
    i: int,
)
    requires
        is_page(rows, filter, order, after, first, page),
        0 <= i,
        i + 1 < page.len(),
    ensures
        match order.column {
            Some(c) => c < page[i].values.len() && c < page[i + 1].values.len() ==> in_sequence(
                order.direction,
                field_rank(page[i], c as int),
                page[i].id,
                field_rank(page[i + 1], c as int),
                page[i + 1].id,
            ),
            None => in_sequence(order.direction, 0, page[i].id, 0, page[i + 1].id),
        },
{
    assert(before(order, page[i], page[i + 1]));
}

} // verus!
