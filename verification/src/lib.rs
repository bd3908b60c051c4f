//! A request router: route templates are compiled into typed patterns, collected in an
//! immutable registry, and each request is answered by the first route, in rank order,
//! whose shape matches the path and whose typed parameters all decode.
//!
//! Before any request is served, `pattern` compiles the path templates and `form` the
//! declared fields of the routes, and `registry` collects the routes.
//!
//! The way of a request through the modules: `matcher` cuts its path into tokens and finds
//! what a pattern captures from them, `registry` ranks the routes that match, `binder` and
//! `query` decode the captures and the fields of the query string, `dispatch` tries the
//! ranked candidates in order, and `site` calls the handler of the route that answers.
//! `value` and `route` hold what the routes are made of; `text` and `number` are the tools
//! for characters and digits.

pub mod binder;
pub mod cookies;
pub mod decode;
pub mod dispatch;
pub mod error;
pub mod form;
pub mod handlers;
pub mod matcher;
pub mod number;
pub mod pattern;
pub mod query;
pub mod registry;
pub mod reply;
pub mod route;
pub mod site;
pub mod text;
pub mod value;
