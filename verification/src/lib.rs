//! Core of the Molten compiler: the type and syntax model, scoped symbol
//! tables with name binding, the C back end and the declaration exporter.

pub mod assoc;
pub mod ast;
pub mod compiler_c;
pub mod compiler_laws;
pub mod export;
pub mod scope;
pub mod scope_laws;
pub mod text;
pub mod types;
