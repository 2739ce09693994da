//! Syntax-tree passes for JavaScript and TypeScript.

pub mod ast;
pub mod consistent_this;
pub mod env;
pub mod fx;
pub mod lint;
pub mod member_ordering;
pub mod places;
pub mod prefresh;
pub mod require_atomic_updates;
pub mod semantic;
pub mod signals;
pub mod sites;
pub mod text;
pub mod transform;
pub mod traverse;
pub mod uid;
