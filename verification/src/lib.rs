//! A query engine for models whose schemas are registered at run time.
//!
//! A request names a model and may carry a where input, an order input, a
//! page size and a cursor. The engine validates it against the registered
//! schema, compiles it, and answers it with a connection: the exact count of
//! the matching rows and one page of them, each row with the cursor that
//! resumes after it.
//!
//! The modules, from the leaves to the root:
//!
//! - [`value`], [`row`]: typed values and the rows of a model's table;
//! - [`schema`]: model schemas and the registry that holds them by name;
//! - [`shape`]: the operator table by scalar kind, and what each model
//!   advertises: its fields, its where arguments and its order choices;
//! - [`filter`], [`order`]: validation and compilation of where and order inputs;
//! - [`fingerprint`], [`hex`], [`cursor`]: cursors bound to the filter and
//!   order they were issued under;
//! - [`executor`]: count and page of a compiled query on a snapshot;
//! - [`statement`]: the same query as parameterized statements for a
//!   relational store;
//! - [`resolver`]: from a row to the entity that owns it;
//! - [`engine`]: planning a request and running the plan;
//! - [`paging`]: what the contracts imply for a client that walks page by page;
//! - [`error`]: the errors of all of the above.
//!
//! Beside the engine stands [`artifact`]: what the declaration of a contract
//! needs of its artifact, for callers that deploy the models they then query.
//!
//! Every function states what it returns in terms of the mathematical content
//! of its arguments, and is proved to keep that promise. The two calls into
//! the Starknet class types, in [`artifact`], are the exception: what they
//! return is given a name, and their contracts are taken as stated.

pub mod artifact;
pub mod cursor;
pub mod engine;
pub mod error;
pub mod executor;
pub mod filter;
pub mod fingerprint;
pub mod hex;
pub mod order;
pub mod paging;
pub mod resolver;
pub mod row;
pub mod schema;
pub mod shape;
pub mod statement;
pub mod value;
