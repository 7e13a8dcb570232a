//! The library's error type and the text of each error.
use vstd::prelude::*;

use crate::text::{push_str, text};

verus! {

/// Errors from checking or translating a query.
#[derive(Debug)]
pub enum DcqlError {
    /// The query text is not a well-formed query; holds the parser's message.
    Parse(String),
    Validation(String),
    Translation(String),
    UnknownCredentialId(String),
    UnknownClaimId(String, String),
    MissingClaimId,
    EmptyPath,
}

/// An error with its texts as character sequences.
pub enum DcqlErrorView {
    Parse(Seq<char>),
    Validation(Seq<char>),
    Translation(Seq<char>),
    UnknownCredentialId(Seq<char>),
    UnknownClaimId(Seq<char>, Seq<char>),
    MissingClaimId,
    EmptyPath,
}

impl View for DcqlError {
    type V = DcqlErrorView;

    open spec fn view(&self) -> DcqlErrorView {
        match self {
            DcqlError::Parse(m) => DcqlErrorView::Parse(m@),
            DcqlError::Validation(m) => DcqlErrorView::Validation(m@),
            DcqlError::Translation(m) => DcqlErrorView::Translation(m@),
            DcqlError::UnknownCredentialId(id) => DcqlErrorView::UnknownCredentialId(id@),
            DcqlError::UnknownClaimId(claim, cred) => DcqlErrorView::UnknownClaimId(
                claim@,
                cred@,
            ),
            DcqlError::MissingClaimId => DcqlErrorView::MissingClaimId,
            DcqlError::EmptyPath => DcqlErrorView::EmptyPath,
        }
    }
}

/// The human-readable text of an error.
pub open spec fn error_message(e: DcqlErrorView) -> Seq<char> {
    match e {
        DcqlErrorView::Parse(m) => "parse error: "@ + m,
        DcqlErrorView::Validation(m) => "validation error: "@ + m,
        DcqlErrorView::Translation(m) => "translation error: "@ + m,
        DcqlErrorView::UnknownCredentialId(id) => "unknown credential id '"@ + id
            + "' referenced in credential_links"@,
        DcqlErrorView::UnknownClaimId(claim, cred) => "unknown claim id '"@ + claim
            + "' in credential '"@ + cred + "'"@,
        DcqlErrorView::MissingClaimId =>
            "claim has no id but is referenced by credential_links or claim_sets"@,
        DcqlErrorView::EmptyPath => "empty path is not allowed"@,
    }
}

impl DcqlError {
    /// The human-readable text of the error.
    pub fn to_string(&self) -> (r: String)
        ensures
            r@ == error_message(self@),
    {
        match self {
            DcqlError::Parse(m) => {
                let mut s = text("parse error: ");
                push_str(&mut s, m.as_str());
                s
            },
            DcqlError::Validation(m) => {
                let mut s = text("validation error: ");
                push_str(&mut s, m.as_str());
                s
            },
            DcqlError::Translation(m) => {
                let mut s = text("translation error: ");
                push_str(&mut s, m.as_str());
                s
            },
            DcqlError::UnknownCredentialId(id) => {
                let mut s = text("unknown credential id '");
                push_str(&mut s, id.as_str());
                push_str(&mut s, "' referenced in credential_links");
                s
            },
            DcqlError::UnknownClaimId(claim, cred) => {
                let mut s = text("unknown claim id '");
                push_str(&mut s, claim.as_str());
                push_str(&mut s, "' in credential '");
                push_str(&mut s, cred.as_str());
                push_str(&mut s, "'");
                s
            },
            DcqlError::MissingClaimId => text(
                "claim has no id but is referenced by credential_links or claim_sets",
            ),
            DcqlError::EmptyPath => text("empty path is not allowed"),
        }
    }
}

} // verus!
