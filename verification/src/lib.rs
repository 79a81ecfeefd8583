//! Decision core of a rule-based DNS query router.
//!
//! The crate has two halves. The matcher composition engine builds boolean
//! predicates ("matchers") over a query context and evaluates an ordered
//! rule table with first-match-wins semantics. The upstream resolution
//! engine keeps a tag-indexed registry of upstream resolvers, validates a
//! configuration before any query is served (duplicate tags, missing tags,
//! empty hybrids, hybrid recursion, unused upstreams), and drives the
//! decision side of pooled clients and hybrid races; the network exchanges
//! themselves are performed by the caller.

pub mod builder;
pub mod matchers;
pub mod pool;
pub mod race;
pub mod state;
pub mod table;
pub mod upstreams;
