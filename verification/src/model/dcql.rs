//! Standard DCQL types, with the claim `filter` extension.
use vstd::prelude::*;

use crate::error::{DcqlError, DcqlErrorView};
use crate::text::{is_alphanumeric, push_char, push_str, text, unicode_alphanumeric};

verus! {

#[verifier::external_type_specification]
#[verifier::external_body]
pub struct ExJsonValue(serde_json::Value);

// ---------------------------------------------------------------------------
// CredentialFormat
// ---------------------------------------------------------------------------

#[derive(Debug, Clone, Copy, PartialEq, Eq, Structural)]
pub enum CredentialFormat {
    SdJwtVc,
    JwtVcJson,
    LdpVc,
    MsoMdoc,
}

// ---------------------------------------------------------------------------
// PathElement
// ---------------------------------------------------------------------------

/// A single element of a claim path.
/// - `Key(String)` → JSON string
/// - `Wildcard`    → JSON null
/// - `Index(u64)`  → JSON number
#[derive(Debug, Clone, PartialEq)]
pub enum PathElement {
    Key(String),
    Wildcard,
    Index(u64),
}

// ---------------------------------------------------------------------------
// ClaimValue
// ---------------------------------------------------------------------------

#[derive(Debug, Clone, PartialEq)]
pub enum ClaimValue {
    Text(String),
    Integer(i64),
    Bool(bool),
}

// ---------------------------------------------------------------------------
// FilterOp / FilterValue / ClaimFilter
// ---------------------------------------------------------------------------

#[derive(Debug, Clone, Copy, PartialEq, Eq, Structural)]
pub enum FilterOp {
    Eq,
    Ne,
    Lt,
    Le,
    Gt,
    Ge,
    Regex,
    LangMatches,
}

/// The operand of a filter. A floating-point operand is held as the decimal
/// text that its number prints as, which is all that translation reads of it.
#[derive(Debug, Clone, PartialEq)]
pub enum FilterValue {
    Text(String),
    Integer(i64),
    Float(String),
    Bool(bool),
}

#[derive(Debug, Clone)]
pub struct ClaimFilter {
    pub op: FilterOp,
    pub value: FilterValue,
}

// ---------------------------------------------------------------------------
// ClaimQuery
// ---------------------------------------------------------------------------

#[derive(Debug, Clone)]
pub struct ClaimQuery {
    pub id: Option<String>,
    pub path: Vec<PathElement>,
    pub values: Option<Vec<ClaimValue>>,
    /// Extension field: structured filter predicate.
    pub filter: Option<ClaimFilter>,
}

// ---------------------------------------------------------------------------
// CredentialSetQuery
// ---------------------------------------------------------------------------

#[derive(Debug, Clone)]
pub struct CredentialSetQuery {
    pub options: Vec<Vec<String>>,
    pub required: Option<bool>,
    pub purpose: Option<serde_json::Value>,
}

// ---------------------------------------------------------------------------
// CredentialQuery
// ---------------------------------------------------------------------------

#[derive(Debug, Clone)]
pub struct CredentialQuery {
    pub id: String,
    pub format: CredentialFormat,
    pub meta: Option<serde_json::Value>,
    pub claims: Option<Vec<ClaimQuery>>,
    pub claim_sets: Option<Vec<Vec<String>>>,
    pub trusted_authorities: Option<Vec<serde_json::Value>>,
    pub multiple: Option<bool>,
}

// ---------------------------------------------------------------------------
// DcqlQuery
// ---------------------------------------------------------------------------

#[derive(Debug, Clone)]
pub struct DcqlQuery {
    pub credentials: Vec<CredentialQuery>,
    pub credential_sets: Option<Vec<CredentialSetQuery>>,
}

/// The characters allowed in a credential id.
pub open spec fn is_id_char(c: char) -> bool {
    unicode_alphanumeric(c) || c == '_' || c == '-'
}

/// The first position at or after `from` that holds a character not allowed in
/// a credential id.
pub open spec fn first_invalid_from(id: Seq<char>, from: int) -> Option<int>
    decreases id.len() - from,
{
    if from < 0 || from >= id.len() {
        None
    } else if !is_id_char(id[from]) {
        Some(from)
    } else {
        first_invalid_from(id, from + 1)
    }
}

/// The message with which a credential id is rejected, if it is.
pub open spec fn id_error(id: Seq<char>) -> Option<Seq<char>> {
    if id.len() == 0 {
        Some("credential id must not be empty"@)
    } else {
        match first_invalid_from(id, 0) {
            Some(k) => Some(
                "credential id '"@ + id + "' contains invalid character '"@ + seq![id[k]]
                    + "'"@,
            ),
            None => None,
        }
    }
}

/// Why a standard DCQL query is refused, if it is.
pub open spec fn dcql_query_error(credentials: Seq<CredentialQuery>) -> Option<Seq<char>> {
    if credentials.len() == 0 {
        Some("credentials must not be empty"@)
    } else {
        first_id_error(credentials, 0)
    }
}

/// The first credential id at or after index `from` that is refused.
pub open spec fn first_id_error(credentials: Seq<CredentialQuery>, from: int) -> Option<
    Seq<char>,
>
    decreases credentials.len() - from,
{
    if from < 0 || from >= credentials.len() {
        None
    } else {
        match id_error(credentials[from].id@) {
            Some(m) => Some(m),
            None => first_id_error(credentials, from + 1),
        }
    }
}

proof fn lemma_first_invalid_skip(id: Seq<char>, from: int)
    requires
        0 <= from <= id.len(),
        forall|j: int| 0 <= j < from ==> is_id_char(#[trigger] id[j]),
    ensures
        first_invalid_from(id, 0) == first_invalid_from(id, from),
    decreases from,
{
    if from > 0 {
        lemma_first_invalid_skip(id, from - 1);
    }
}

proof fn lemma_first_id_error_skip(credentials: Seq<CredentialQuery>, from: int)
    requires
        0 <= from <= credentials.len(),
        forall|j: int| 0 <= j < from ==> id_error(#[trigger] credentials[j].id@).is_none(),
    ensures
        first_id_error(credentials, 0) == first_id_error(credentials, from),
    decreases from,
{
    if from > 0 {
        lemma_first_id_error_skip(credentials, from - 1);
    }
}

/// Checks that a credential id is non-empty and uses only letters, digits,
/// `_` and `-`; the error names the first offending character.
fn validate_id(id: &str) -> (r: Result<(), DcqlError>)
    ensures
        match id_error(id@) {
            Some(m) => r matches Err(e) && e@ == DcqlErrorView::Validation(m),
            None => r is Ok,
        },
{
    if id.is_empty() {
        return Err(DcqlError::Validation(text("credential id must not be empty")));
    }
    for ch in it: id.chars()
        invariant
            it.seq() == id@,
            id@.len() > 0,
            forall|j: int| 0 <= j < it.index() ==> is_id_char(#[trigger] id@[j]),
    {
        if !is_alphanumeric(ch) && ch != '_' && ch != '-' {
            proof {
                lemma_first_invalid_skip(id@, it.index() as int);
            }
            let mut m = text("credential id '");
            push_str(&mut m, id);
            push_str(&mut m, "' contains invalid character '");
            push_char(&mut m, ch);
            push_str(&mut m, "'");
            assert(m@ =~= "credential id '"@ + id@ + "' contains invalid character '"@ + seq![
                id@[it.index() as int],
            ] + "'"@);
            return Err(DcqlError::Validation(m));
        }
    }
    proof {
        lemma_first_invalid_skip(id@, id@.len() as int);
    }
    Ok(())
}

impl DcqlQuery {
    /// The checks that `from_json` applies after parsing: the query must have
    /// at least one credential, and every credential id must be well formed.
    /// Returns the query unchanged when it passes.
    pub fn checked(self) -> (r: Result<Self, DcqlError>)
        ensures
            match dcql_query_error(self.credentials@) {
                Some(m) => r matches Err(e) && e@ == DcqlErrorView::Validation(m),
                None => r matches Ok(q) && q == self,
            },
    {
        match self.validate() {
            Ok(()) => Ok(self),
            Err(e) => Err(e),
        }
    }

    fn validate(&self) -> (r: Result<(), DcqlError>)
        ensures
            match dcql_query_error(self.credentials@) {
                Some(m) => r matches Err(e) && e@ == DcqlErrorView::Validation(m),
                None => r is Ok,
            },
    {
        if self.credentials.len() == 0 {
            return Err(DcqlError::Validation(text("credentials must not be empty")));
        }
        let n = self.credentials.len();
        let mut i: usize = 0;
        while i < n
            invariant
                i <= n,
                n == self.credentials@.len(),
                forall|j: int| 0 <= j < i ==> id_error(#[trigger] self.credentials@[j].id@).is_none(),
            decreases n - i,
        {
            proof {
                lemma_first_id_error_skip(self.credentials@, i as int);
            }
            match validate_id(self.credentials[i].id.as_str()) {
                Ok(()) => {},
                Err(e) => {
                    return Err(e);
                },
            }
            i = i + 1;
        }
        proof {
            lemma_first_id_error_skip(self.credentials@, n as int);
        }
        Ok(())
    }
}

/// The characters a credential id may hold: letters and digits (as
/// `char::is_alphanumeric` counts them), `_` and `-`.
pub open spec fn allowed_in_id(c: char) -> bool {
    c == '_' || c == '-' || unicode_alphanumeric(c)
}

proof fn lemma_first_invalid_none(id: Seq<char>, from: int)
    requires
        0 <= from,
        first_invalid_from(id, from).is_none(),
    ensures
        forall|k: int| from <= k < id.len() ==> allowed_in_id(#[trigger] id[k]),
    decreases id.len() - from,
{
    if from < id.len() {
        lemma_first_invalid_none(id, from + 1);
    }
}

proof fn lemma_first_id_error_none(credentials: Seq<CredentialQuery>, from: int)
    requires
        0 <= from,
        first_id_error(credentials, from).is_none(),
    ensures
        forall|k: int|
            from <= k < credentials.len() ==> id_error(#[trigger] credentials[k].id@).is_none(),
    decreases credentials.len() - from,
{
    if from < credentials.len() {
        lemma_first_id_error_none(credentials, from + 1);
    }
}

/// The checks of a standard query accept it exactly when it has a credential
/// and every credential id is non-empty and made only of letters, digits, `_`
/// and `-`; any other character in any id makes them refuse it.
pub proof fn lemma_accepted_ids_are_well_formed(credentials: Seq<CredentialQuery>)
    ensures
        dcql_query_error(credentials).is_none() <==> (credentials.len() > 0 && forall|i: int|
            #![trigger credentials[i]]
            0 <= i < credentials.len() ==> credentials[i].id@.len() > 0 && forall|k: int|
                0 <= k < credentials[i].id@.len() ==> allowed_in_id(
                    #[trigger] credentials[i].id@[k],
                )),
{
    if dcql_query_error(credentials).is_none() {
        lemma_first_id_error_none(credentials, 0);
        assert forall|i: int| 0 <= i < credentials.len() implies credentials[i].id@.len() > 0
            && forall|k: int|
            0 <= k < credentials[i].id@.len() ==> allowed_in_id(
                #[trigger] credentials[i].id@[k],
            ) by {
            assert(id_error(credentials[i].id@).is_none());
            lemma_first_invalid_none(credentials[i].id@, 0);
        }
    }
    if credentials.len() > 0 && forall|i: int|
        #![trigger credentials[i]]
        0 <= i < credentials.len() ==> credentials[i].id@.len() > 0 && forall|k: int|
            0 <= k < credentials[i].id@.len() ==> allowed_in_id(#[trigger] credentials[i].id@[k]) {
        assert forall|i: int| 0 <= i < credentials.len() implies id_error(
            #[trigger] credentials[i].id@,
        ).is_none() by {
            let id = credentials[i].id@;
            assert forall|j: int| 0 <= j < id.len() implies is_id_char(#[trigger] id[j]) by {
                assert(allowed_in_id(credentials[i].id@[j]));
            }
            lemma_first_invalid_skip(id, id.len() as int);
        }
        lemma_first_id_error_skip(credentials, credentials.len() as int);
    }
}

} // verus!
