//! Validation of JSON and CBOR instances against CDDL schemas.
//!
//! `ast` holds a parsed schema and `value` the instance. `semantics` states
//! what it means for an instance to conform; `validator` decides it, with
//! each step proved to agree with that statement, and reports the failures.
//! `laws` proves properties that hold of every schema and instance. The
//! remaining modules are the lookups over a schema's rules (`rules`,
//! `lookup`), the prelude (`prelude`), exact number comparison (`numeric`),
//! array occurrence counts (`occurrence`), the `.cat` and `.regexp` controls
//! (`cat`, `pattern`), and the calls into other crates (`foreign`, `text`).
pub mod ast;
pub mod cat;
pub mod error;
pub mod foreign;
pub mod laws;
pub mod lookup;
pub mod numeric;
pub mod occurrence;
pub mod pattern;
pub mod prelude;
pub mod rules;
pub mod semantics;
pub mod text;
pub mod validator;
pub mod value;
