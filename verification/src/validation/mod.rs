//! Validation of documents: schemas, named types, integrity constraints, the
//! schema registry and the error reporter.

pub mod conformance;
pub mod errors;
pub mod integrity;
pub mod registry;
pub mod schema;
pub mod schema_laws;
pub mod types;

pub use errors::{ValidationError, ValidationErrorType, ValidationSuggestion};
pub use integrity::{DataIntegrityChecker, IntegrityResult, IntegrityViolation};
pub use registry::{SchemaMetadata, SchemaRegistry, SchemaRegistryError};
pub use schema::{SchemaError, SchemaValidationResult, SchemaValidator};
pub use types::{TypeConstraint, TypeValidationResult, TypeValidator};
