//! Translates a schema description of declared types (records and tagged
//! unions over primitive and composite fields) into two synchronized textual
//! artifacts for a dynamically-typed target runtime: one class declaration
//! per type, and a schema table that a generic binary reader/writer walks to
//! reproduce the exact on-wire byte layout.

pub mod model;
pub mod render;
pub mod resolve;

pub use model::Field;
pub use model::Layout;
pub use model::LayoutKind;
pub use model::SchemaContainer;
pub use model::SchemaError;
pub use model::TypeDecl;
pub use model::TypeDescriptor;
