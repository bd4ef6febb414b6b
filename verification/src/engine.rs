//! The engine's front: a request is planned against the registry, without a
//! look at any row, and the plan is then run on a snapshot of the model's table.

use vstd::prelude::*;
use vstd::string::*;
use crate::cursor::{accept, decode_for};
use crate::error::{ErrorView, QueryError, SchemaIssue, schema_error};
use crate::executor::{Connection, answers, execute};
use crate::filter::{
    Predicate,
    PredicateView,
    WhereEntry,
    WhereEntryView,
    compile_filter,
    compile_where,
    entry_views,
    predicate_views,
};
use crate::fingerprint::{Fingerprint, fingerprint, fingerprint_of};
use crate::order::{
    CompiledOrder,
    OrderInput,
    OrderInputView,
    OrderKey,
    compile_order,
    compile_ordering,
};
use crate::row::{Row, is_snapshot, row_views};
use crate::schema::{ModelSchema, Registry, SchemaView};
use crate::statement::{Statement, count_query, count_statement, page_query, page_statement};

verus! {

/// What a client asks of one model: a filter, an order, a page size and the
/// cursor to resume after. All but the model's name may be left out.
#[derive(Clone, Debug, PartialEq, Eq)]
pub struct Request {
    pub model: String,
    pub filter: Vec<WhereEntry>,
    pub order: Option<OrderInput>,
    pub first: Option<usize>,
    pub after: Option<String>,
}

/// The mathematical content of a [`Request`].
pub struct RequestView {
    pub model: Seq<char>,
    pub filter: Seq<WhereEntryView>,
    pub order: Option<OrderInputView>,
    pub first: Option<usize>,
    pub after: Option<Seq<char>>,
}

impl View for Request {
    type V = RequestView;

    open spec fn view(&self) -> RequestView {
        RequestView {
            model: self.model@,
            filter: entry_views(self.filter@),
            order: match self.order {
                Some(o) => Some(o@),
                None => None,
            },
            first: self.first,
            after: match self.after {
                Some(text) => Some(text@),
                None => None,
            },
        }
    }
}

impl Request {
    /// A request for every row of the model, in ascending identity.
    pub fn new(model: &str) -> (r: Request)
        ensures
            r@ == (RequestView {
                model: model@,
                filter: Seq::empty(),
                order: None,
                first: None,
                after: None,
            }),
    {
        let r = Request {
            model: model.to_owned(),
            filter: Vec::new(),
            order: None,
            first: None,
            after: None,
        };
        assert(r@.filter =~= Seq::<WhereEntryView>::empty());
        r
    }

    /// The request with one more argument in its where input.
    pub fn filtered(self, entry: WhereEntry) -> (r: Request)
        ensures
            r@ == (RequestView { filter: self@.filter.push(entry@), ..self@ }),
    {
        let mut r = self;
        r.filter.push(entry);
        assert(r@.filter =~= self@.filter.push(entry@));
        r
    }

    /// The request with the given order input.
    pub fn ordered(self, order: OrderInput) -> (r: Request)
        ensures
            r@ == (RequestView { order: Some(order@), ..self@ }),
    {
        let mut r = self;
        r.order = Some(order);
        r
    }

    /// The request for pages of at most `first` rows.
    pub fn limited(self, first: usize) -> (r: Request)
        ensures
            r@ == (RequestView { first: Some(first), ..self@ }),
    {
        let mut r = self;
        r.first = Some(first);
        r
    }

    /// The request for what follows the cursor.
    pub fn resumed(self, after: &str) -> (r: Request)
        ensures
            r@ == (RequestView { after: Some(after@), ..self@ }),
    {
        let mut r = self;
        r.after = Some(after.to_owned());
        r
    }
}

/// A validated request, ready to be run on a snapshot.
#[derive(Clone, Debug, PartialEq, Eq)]
pub struct QueryPlan {
    pub schema: ModelSchema,
    pub filter: Vec<Predicate>,
    pub order: CompiledOrder,
    pub mark: Fingerprint,
    pub after: Option<OrderKey>,
    pub first: Option<usize>,
}

/// The mathematical content of a [`QueryPlan`].
pub struct PlanView {
    pub schema: SchemaView,
    pub filter: Seq<PredicateView>,
    pub order: CompiledOrder,
    pub mark: Fingerprint,
    pub after: Option<OrderKey>,
    pub first: Option<usize>,
}

impl View for QueryPlan {
    type V = PlanView;

    open spec fn view(&self) -> PlanView {
        PlanView {
            schema: self.schema@,
            filter: predicate_views(self.filter@),
            order: self.order,
            mark: self.mark,
            after: self.after,
            first: self.first,
        }
    }
}

/// What a request is planned as.
///
/// The model must be registered; then the filter must compile, then the
/// order; and last the cursor, if there is one, must be one that was issued
/// under this very filter and order. The first fault found in that sequence
/// is the error.
pub open spec fn plan_for(registry: Map<Seq<char>, SchemaView>, request: RequestView) -> Result<
    PlanView,
    ErrorView,
> {
    if !registry.contains_key(request.model) {
        Err(schema_error(SchemaIssue::UnknownModel, request.model))
    } else {
        let schema = registry[request.model];
        match compile_where(schema, request.filter) {
            Err(e) => Err(e),
            Ok(filter) => match compile_ordering(schema, request.order) {
                Err(e) => Err(e),
                Ok(order) => {
                    let mark = fingerprint_of(request.model, filter, order);
                    let plan = PlanView {
                        schema,
                        filter,
                        order,
                        mark,
                        after: None,
                        first: request.first,
                    };
                    match request.after {
                        None => Ok(plan),
                        Some(text) => match accept(text, mark) {
                            Ok(key) => Ok(PlanView { after: Some(key), ..plan }),
                            Err(issue) => Err(ErrorView::Cursor(issue)),
                        },
                    }
                },
            },
        }
    }
}

/// A request fails in planning only with a schema violation or a refused
/// cursor; it never fails there with a store error.
pub proof fn lemma_planning_faults(registry: Map<Seq<char>, SchemaView>, request: RequestView)
    ensures
        plan_for(registry, request) matches Err(e) ==> e is SchemaValidation || e is Cursor,
{
}

/// The most rows that a page may hold: the size asked for, or, where none was
/// asked for, as many as the table has.
pub open spec fn page_bound(first: Option<usize>, table_len: nat) -> nat {
    match first {
        Some(n) => n as nat,
        None => table_len,
    }
}

/// Plans a request. No row is looked at: whatever is wrong with the request
/// itself is found here, before the store is asked for anything.
pub fn plan(registry: &Registry, request: &Request) -> (r: Result<QueryPlan, QueryError>)
    ensures
        match r {
            Ok(p) => plan_for(registry@, request@) == Ok::<PlanView, ErrorView>(p@),
            Err(e) => plan_for(registry@, request@) == Err::<PlanView, ErrorView>(e@),
        },
{
    let schema = match registry.get(request.model.as_str()) {
        Ok(schema) => schema,
        Err(_) => {
            return Err(QueryError::schema(SchemaIssue::UnknownModel, request.model.as_str()));
        },
    };
    let filter = compile_filter(schema, &request.filter)?;
    let order_input: Option<&OrderInput> = match &request.order {
        Some(o) => Some(o),
        None => None,
    };
    let order = compile_order(schema, order_input)?;
    let mark = fingerprint(request.model.as_str(), &filter, &order);
    let after = match &request.after {
        Some(text) => Some(decode_for(text.as_str(), &mark)?),
        None => None,
    };
    Ok(QueryPlan { schema: schema.duplicate(), filter, order, mark, after, first: request.first })
}

/// The two statements that a plan asks of a relational store: the count of
/// the matching rows, and the page. A caller that keeps the table in such a
/// store runs both within one snapshot.
pub fn statements(plan: &QueryPlan) -> (pair: (Statement, Statement))
    ensures
        pair.0@ == count_query(plan@.schema, plan@.filter),
        pair.1@ == page_query(plan@.schema, plan@.filter, plan@.order, plan@.after, plan@.first),
{
    (
        count_statement(&plan.schema, &plan.filter),
        page_statement(&plan.schema, &plan.filter, &plan.order, plan.after, plan.first),
    )
}

/// Runs a plan on a snapshot of the model's table.
///
/// The count and the page come from the same rows, so they cannot disagree.
/// Rows that are no snapshot of the plan's model are a store error, and then
/// nothing is returned, neither a count nor a part of a page.
pub fn run(plan: &QueryPlan, rows: &Vec<Row>) -> (r: Result<Connection, QueryError>)
    ensures
        match r {
            Ok(connection) => {
                &&& is_snapshot(plan@.schema, row_views(rows@))
                &&& answers(
                    row_views(rows@),
                    plan@.filter,
                    plan@.order,
                    plan@.mark,
                    plan@.after,
                    page_bound(plan@.first, rows@.len()),
                    connection@,
                )
            },
            Err(e) => !is_snapshot(plan@.schema, row_views(rows@)) && e@ == ErrorView::Store,
        },
{
    let first = match plan.first {
        Some(n) => n,
        None => rows.len(),
    };
    execute(&plan.schema, rows, &plan.filter, &plan.order, &plan.mark, plan.after, first)
}

/// Resolves a request on a snapshot of the model's table: plans it, and runs
/// the plan. A fault of the request is reported whatever the rows are.
pub fn resolve_connection(registry: &Registry, request: &Request, rows: &Vec<Row>) -> (r: Result<
    Connection,
    QueryError,
>)
    ensures
        match plan_for(registry@, request@) {
            Err(fault) => r matches Err(e) && e@ == fault,
            Ok(p) => match r {
                Ok(connection) => {
                    &&& is_snapshot(p.schema, row_views(rows@))
                    &&& answers(
                        row_views(rows@),
                        p.filter,
                        p.order,
                        p.mark,
                        p.after,
                        page_bound(p.first, rows@.len()),
                        connection@,
                    )
                },
                Err(e) => !is_snapshot(p.schema, row_views(rows@)) && e@ == ErrorView::Store,
            },
        },
{
    let planned = plan(registry, request)?;
    run(&planned, rows)
}

} // verus!
