//! Directory queries written in a small SQL dialect.
//!
//! A script of statements is cut into statements ([`script`]). Each
//! statement is parsed ([`sql`]; a text in which the parser would meet an
//! operator that it cannot take is refused first, see [`tokens`]) and
//! classified ([`query`]): its location is resolved against the configured
//! aliases ([`config`]; in which order, does not matter where no alias name
//! begins another, see [`substitution`]) and its condition is compiled into
//! a search filter ([`filter`]). A selection is then a directory search
//! whose results are laid out as tables ([`render`]); an update is a search
//! whose results are turned into a plan of changes ([`update`]) that is
//! reported and never applied; a `SHOW` is a report on the configuration
//! ([`report`]).
//!
//! The directory itself is not talked to from here. [`plan`] says which
//! search a query calls for, and the caller hands back what was found.

pub mod balance;
pub mod config;
pub mod error;
pub mod filter;
pub mod order;
pub mod parsed;
pub mod plan;
pub mod query;
pub mod render;
pub mod report;
pub mod script;
pub mod sql;
pub mod substitution;
pub mod text;
pub mod tokens;
pub mod update;
