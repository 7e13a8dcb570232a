pub mod dcql;
pub mod sparql;

pub use dcql::{DcqlValidate, ErrorCode, Severity, ValidationError, ValidationResult};
pub use sparql::{SparqlValidate, SparqlValidationError};
