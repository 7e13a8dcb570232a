//! DCQL+ queries: their model, their validation, and their translation into
//! SPARQL 1.1 SELECT queries.
pub mod error;
pub mod model;
pub mod sparql;
pub mod text;
pub mod validation;

pub use error::DcqlError;
pub use model::dcql::{
    ClaimFilter, ClaimQuery, ClaimValue, CredentialFormat, CredentialQuery, CredentialSetQuery,
    DcqlQuery, FilterOp, FilterValue, PathElement,
};
pub use model::extended::{
    AggregateFunction, AggregateHaving, AggregateQuery, CredentialLink, ExtendedDcqlQuery,
    LinkRelation,
};
pub use sparql::translator::{SparqlTranslator, TranslationOptions};
pub use validation::dcql::{DcqlValidate, ErrorCode, Severity, ValidationError, ValidationResult};
pub use validation::sparql::{SparqlValidate, SparqlValidationError};
