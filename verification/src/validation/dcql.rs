//! One-pass validation of DCQL and DCQL+ queries, collecting every finding.
use vstd::prelude::*;

use crate::model::dcql::{allowed_in_id, is_id_char, ClaimQuery, CredentialQuery, CredentialSetQuery, DcqlQuery};
use crate::model::extended::{
    claim_has_id, credential_has_claim_id, extended_of, extended_query_error, first_duplicate_from,
    first_link_error, has_claim_id, has_credential, has_self_link, link_reference_error,
    AggregateQuery,
    CredentialLink, ExtendedDcqlQuery,
};
use crate::sparql::translator::{
    agg_translation_error, aggs_of, claim_key, claims_of, cred_has_empty_path,
    first_agg_translation_error, first_link_translation_error, has_claim_key, has_empty_path,
    link_translation_error, links_of, translation_error,
};
use crate::text::{
    debug_quoted, debug_str, decimal, decimal_text, is_alphanumeric, join, lemma_join_push,
    lemma_texts_push, push_char, push_str, str_eq, text, texts,
};

verus! {

// ─── error types ────────────────────────────────────────────────────────────

#[derive(Debug, Clone, Copy, PartialEq, Eq, Structural)]
pub enum Severity {
    Error,
    Warning,
}

/// Machine-readable classification of a validation finding.
#[derive(Debug, Clone, Copy, PartialEq, Eq, Structural)]
pub enum ErrorCode {
    // ── structural ──────────────────────────────────────────────────────────
    /// `credentials` array is absent or empty.
    EmptyCredentials,
    /// A `claims` array is present but contains zero elements.
    EmptyClaimsArray,
    /// A claim's `path` array is empty.
    EmptyPath,
    /// A `credential_sets.options` array or one of its inner arrays is empty.
    EmptyOptions,
    // ── identity ────────────────────────────────────────────────────────────
    /// Two credentials share the same `id`.
    DuplicateCredentialId,
    /// Two claims within the same credential share the same `id`.
    DuplicateClaimId,
    /// A credential `id` contains characters outside `[a-zA-Z0-9_-]`.
    InvalidCredentialId,
    /// A claim referenced by `credential_links`, `claim_sets`, or `aggregates`
    /// has no `id` field.
    MissingClaimId,
    // ── cross-reference ─────────────────────────────────────────────────────
    /// A referenced credential `id` does not exist in `credentials`.
    UnknownCredentialId,
    /// A referenced claim `id` does not exist in the credential's `claims`.
    UnknownClaimId,
    /// `claim_sets` is present but `claims` is absent.
    ClaimSetsWithoutClaims,
    // ── logic warnings ──────────────────────────────────────────────────────
    /// A credential specifies no `claims` (all claims will be requested).
    NoClaimsSpecified,
    /// An aggregate references a credential without `multiple: true`.
    AggregateWithoutMultiple,
    /// A claim has both `filter` and `values` (the semantics may be surprising).
    FilterAndValuesBothPresent,
    /// A `credential_link` references the same claim on both sides.
    SelfLinkDetected,
}

/// A single validation finding (error or warning).
#[derive(Debug, Clone)]
pub struct ValidationError {
    pub code: ErrorCode,
    pub severity: Severity,
    /// Human-readable description of what is wrong.
    pub message: String,
    /// Dot-notation path to the offending field, e.g. `credentials[0].claims[1].path`.
    pub location: String,
    /// Actionable suggestion for fixing the problem.
    pub hint: Option<String>,
}

/// A finding with its texts as character sequences.
pub struct FindingView {
    pub code: ErrorCode,
    pub severity: Severity,
    pub message: Seq<char>,
    pub location: Seq<char>,
    pub hint: Option<Seq<char>>,
}

impl View for ValidationError {
    type V = FindingView;

    open spec fn view(&self) -> FindingView {
        FindingView {
            code: self.code,
            severity: self.severity,
            message: self.message@,
            location: self.location@,
            hint: match self.hint {
                Some(h) => Some(h@),
                None => None,
            },
        }
    }
}

/// The full result of validating a DCQL+ query.
///
/// A result is **valid** when `errors` is empty. Warnings do not block translation.
#[derive(Debug)]
pub struct ValidationResult {
    pub errors: Vec<ValidationError>,
    pub warnings: Vec<ValidationError>,
}

/// The views of a sequence of findings.
pub open spec fn findings(v: Seq<ValidationError>) -> Seq<FindingView> {
    v.map_values(|e: ValidationError| e@)
}

pub open spec fn error_finding(
    code: ErrorCode,
    message: Seq<char>,
    location: Seq<char>,
    hint: Seq<char>,
) -> FindingView {
    FindingView { code, severity: Severity::Error, message, location, hint: Some(hint) }
}

pub open spec fn warning_finding(
    code: ErrorCode,
    message: Seq<char>,
    location: Seq<char>,
    hint: Seq<char>,
) -> FindingView {
    FindingView { code, severity: Severity::Warning, message, location, hint: Some(hint) }
}

// ─── texts of findings ──────────────────────────────────────────────────────

pub open spec fn severity_text(s: Severity) -> Seq<char> {
    match s {
        Severity::Error => "ERROR"@,
        Severity::Warning => "WARN"@,
    }
}

pub open spec fn code_text(c: ErrorCode) -> Seq<char> {
    match c {
        ErrorCode::EmptyCredentials => "EmptyCredentials"@,
        ErrorCode::EmptyClaimsArray => "EmptyClaimsArray"@,
        ErrorCode::EmptyPath => "EmptyPath"@,
        ErrorCode::EmptyOptions => "EmptyOptions"@,
        ErrorCode::DuplicateCredentialId => "DuplicateCredentialId"@,
        ErrorCode::DuplicateClaimId => "DuplicateClaimId"@,
        ErrorCode::InvalidCredentialId => "InvalidCredentialId"@,
        ErrorCode::MissingClaimId => "MissingClaimId"@,
        ErrorCode::UnknownCredentialId => "UnknownCredentialId"@,
        ErrorCode::UnknownClaimId => "UnknownClaimId"@,
        ErrorCode::ClaimSetsWithoutClaims => "ClaimSetsWithoutClaims"@,
        ErrorCode::NoClaimsSpecified => "NoClaimsSpecified"@,
        ErrorCode::AggregateWithoutMultiple => "AggregateWithoutMultiple"@,
        ErrorCode::FilterAndValuesBothPresent => "FilterAndValuesBothPresent"@,
        ErrorCode::SelfLinkDetected => "SelfLinkDetected"@,
    }
}

/// `[SEVERITY] Code at 'location': message`, then the hint on its own line.
pub open spec fn finding_text(f: FindingView) -> Seq<char> {
    "["@ + severity_text(f.severity) + "] "@ + code_text(f.code) + " at '"@ + f.location + "': "@
        + f.message + match f.hint {
        Some(h) => "\n  hint: "@ + h,
        None => Seq::<char>::empty(),
    }
}

/// Every finding on a line of its own, then the summary.
pub open spec fn result_text(errors: Seq<FindingView>, warnings: Seq<FindingView>) -> Seq<char> {
    findings_lines(errors + warnings, (errors + warnings).len() as int) + if errors.len() == 0 {
        "valid ("@ + decimal(warnings.len()) + " warning(s))"@
    } else {
        "invalid: "@ + decimal(errors.len()) + " error(s), "@ + decimal(warnings.len())
            + " warning(s)"@
    }
}

pub open spec fn findings_lines(all: Seq<FindingView>, n: int) -> Seq<char>
    decreases n,
{
    if n <= 0 {
        seq![]
    } else {
        findings_lines(all, n - 1) + finding_text(all[n - 1]) + "\n"@
    }
}

// ─── the findings of a query ────────────────────────────────────────────────

/// `head[i]`
pub open spec fn indexed(head: Seq<char>, i: int) -> Seq<char> {
    head + "["@ + decimal(i as nat) + "]"@
}

/// `["a", "b"]`: what `{:?}` prints for a list of strings.
pub open spec fn debug_list(xs: Seq<Seq<char>>) -> Seq<char> {
    "["@ + join(xs.map_values(|x: Seq<char>| debug_quoted(x)), ", "@) + "]"@
}

/// The non-empty credential ids among the first `n` credentials, each once,
/// in order of first appearance.
pub open spec fn known_ids(creds: Seq<CredentialQuery>, n: int) -> Seq<Seq<char>>
    decreases n,
{
    if n <= 0 {
        seq![]
    } else {
        let k = known_ids(creds, n - 1);
        let id = creds[n - 1].id@;
        if id.len() > 0 && !k.contains(id) {
            k.push(id)
        } else {
            k
        }
    }
}

/// The claim ids among the first `n` claims, each once, in order of first
/// appearance.
pub open spec fn claim_ids(claims: Seq<ClaimQuery>, n: int) -> Seq<Seq<char>>
    decreases n,
{
    if n <= 0 {
        seq![]
    } else {
        let k = claim_ids(claims, n - 1);
        match claims[n - 1].id {
            Some(id) => if !k.contains(id@) {
                k.push(id@)
            } else {
                k
            },
            None => k,
        }
    }
}

/// The characters of an id that a credential id may not hold.
pub open spec fn invalid_chars(id: Seq<char>) -> Seq<char>
    decreases id.len(),
{
    if id.len() == 0 {
        seq![]
    } else if is_id_char(id.last()) {
        invalid_chars(id.drop_last())
    } else {
        invalid_chars(id.drop_last()).push(id.last())
    }
}

pub open spec fn quoted_char(c: char) -> Seq<char> {
    seq!['\'', c, '\'']
}

/// The findings on a credential's id; `ci` is its index.
pub open spec fn id_findings(creds: Seq<CredentialQuery>, ci: int) -> Seq<FindingView> {
    let id = creds[ci].id@;
    let loc = indexed("credentials"@, ci) + ".id"@;
    if id.len() == 0 {
        seq![
            error_finding(
                ErrorCode::InvalidCredentialId,
                "Credential 'id' must not be empty"@,
                loc,
                "Use alphanumeric characters, hyphens, or underscores (e.g. \"identity\")"@,
            ),
        ]
    } else {
        let bad = invalid_chars(id);
        (if bad.len() > 0 {
            seq![
                error_finding(
                    ErrorCode::InvalidCredentialId,
                    "Credential id '"@ + id + "' contains invalid character(s): "@ + join(
                        bad.map_values(|c: char| quoted_char(c)),
                        ", "@,
                    ),
                    loc,
                    "Credential IDs must match [a-zA-Z0-9_-]+"@,
                ),
            ]
        } else {
            seq![]
        }) + if known_ids(creds, ci).contains(id) {
            seq![
                error_finding(
                    ErrorCode::DuplicateCredentialId,
                    "Credential id '"@ + id + "' is defined more than once"@,
                    loc,
                    "Each credential must have a unique 'id' within the query"@,
                ),
            ]
        } else {
            seq![]
        }
    }
}

/// The error findings of claim `qi` of credential `ci`.
pub open spec fn claim_errors(cred: CredentialQuery, ci: int, claims: Seq<ClaimQuery>, qi: int) -> Seq<
    FindingView,
> {
    let claim_loc = indexed("credentials"@, ci) + indexed(".claims"@, qi);
    let c = claims[qi];
    (if c.path@.len() == 0 {
        seq![
            error_finding(
                ErrorCode::EmptyPath,
                "Claim 'path' must contain at least one element"@,
                claim_loc + ".path"@,
                "Example: [\"credentialSubject\", \"name\"] selects the name field"@,
            ),
        ]
    } else {
        seq![]
    }) + match c.id {
        Some(id) => if claim_ids(claims, qi).contains(id@) {
            seq![
                error_finding(
                    ErrorCode::DuplicateClaimId,
                    "Claim id '"@ + id@ + "' appears more than once in credential '"@ + cred.id@
                        + "'"@,
                    claim_loc + ".id"@,
                    "Each claim within a credential must have a unique 'id'"@,
                ),
            ]
        } else {
            seq![]
        },
        None => seq![],
    }
}

/// The warning findings of claim `qi` of credential `ci`.
pub open spec fn claim_warnings(ci: int, claims: Seq<ClaimQuery>, qi: int) -> Seq<FindingView> {
    let claim_loc = indexed("credentials"@, ci) + indexed(".claims"@, qi);
    let c = claims[qi];
    if c.filter.is_some() && c.values.is_some() {
        seq![
            warning_finding(
                ErrorCode::FilterAndValuesBothPresent,
                "Claim at "@ + claim_loc
                    + " has both 'filter' (SPARQL predicate) and 'values' (wallet pre-filter hint). 'values' will be passed to the wallet for pre-filtering while 'filter' generates the SPARQL FILTER."@,
                claim_loc,
                "This is allowed but may cause confusion. Use 'filter' for verifier-enforced predicates and 'values' for wallet UI hints."@,
            ),
        ]
    } else {
        seq![]
    }
}

pub open spec fn claims_errors_upto(
    cred: CredentialQuery,
    ci: int,
    claims: Seq<ClaimQuery>,
    n: int,
) -> Seq<FindingView>
    decreases n,
{
    if n <= 0 {
        seq![]
    } else {
        claims_errors_upto(cred, ci, claims, n - 1) + claim_errors(cred, ci, claims, n - 1)
    }
}

pub open spec fn claims_warnings_upto(ci: int, claims: Seq<ClaimQuery>, n: int) -> Seq<
    FindingView,
>
    decreases n,
{
    if n <= 0 {
        seq![]
    } else {
        claims_warnings_upto(ci, claims, n - 1) + claim_warnings(ci, claims, n - 1)
    }
}

/// The findings on the references of one claim set.
pub open spec fn claim_set_errors(
    cred: CredentialQuery,
    ci: int,
    ids: Seq<Seq<char>>,
    set: Seq<String>,
    si: int,
    n: int,
) -> Seq<FindingView>
    decreases n,
{
    if n <= 0 {
        seq![]
    } else {
        let ri = n - 1;
        let r = set[ri]@;
        claim_set_errors(cred, ci, ids, set, si, n - 1) + if ids.contains(r) {
            seq![]
        } else {
            seq![
                error_finding(
                    ErrorCode::UnknownClaimId,
                    indexed(indexed("claim_sets"@, si), ri) + " references claim id '"@ + r
                        + "' which does not exist in credential '"@ + cred.id@ + "'"@,
                    indexed("credentials"@, ci) + indexed(indexed(".claim_sets"@, si), ri),
                    "Available claim ids with 'id' set: "@ + debug_list(ids),
                ),
            ]
        }
    }
}

pub open spec fn claim_sets_errors_upto(
    cred: CredentialQuery,
    ci: int,
    ids: Seq<Seq<char>>,
    sets: Seq<Vec<String>>,
    n: int,
) -> Seq<FindingView>
    decreases n,
{
    if n <= 0 {
        seq![]
    } else {
        claim_sets_errors_upto(cred, ci, ids, sets, n - 1) + claim_set_errors(
            cred,
            ci,
            ids,
            sets[n - 1]@,
            n - 1,
            sets[n - 1]@.len() as int,
        )
    }
}

/// The findings on the claims list of credential `ci`.
pub open spec fn claims_part_errors(cred: CredentialQuery, ci: int) -> Seq<FindingView> {
    match cred.claims {
        Some(cs) => if cs@.len() == 0 {
            seq![
                error_finding(
                    ErrorCode::EmptyClaimsArray,
                    "Credential '"@ + cred.id@ + "' has an empty 'claims' array"@,
                    indexed("credentials"@, ci) + ".claims"@,
                    "Either omit 'claims' to request all, or add at least one ClaimQuery"@,
                ),
            ]
        } else {
            claims_errors_upto(cred, ci, cs@, cs@.len() as int)
        },
        None => seq![],
    }
}

/// The findings on the claim sets of credential `ci`.
pub open spec fn claim_sets_part_errors(cred: CredentialQuery, ci: int) -> Seq<FindingView> {
    match cred.claim_sets {
        Some(sets) => match cred.claims {
            None => seq![
                error_finding(
                    ErrorCode::ClaimSetsWithoutClaims,
                    "Credential '"@ + cred.id@ + "' has 'claim_sets' but no 'claims'"@,
                    indexed("credentials"@, ci) + ".claim_sets"@,
                    "'claim_sets' selects subsets of 'claims'; both must be present together"@,
                ),
            ],
            Some(cs) => claim_sets_errors_upto(
                cred,
                ci,
                claim_ids(cs@, cs@.len() as int),
                sets@,
                sets@.len() as int,
            ),
        },
        None => seq![],
    }
}

/// The error findings of credential `ci`: its id, its claims, its claim sets.
pub open spec fn cred_errors(creds: Seq<CredentialQuery>, ci: int) -> Seq<FindingView> {
    id_findings(creds, ci) + claims_part_errors(creds[ci], ci) + claim_sets_part_errors(
        creds[ci],
        ci,
    )
}

/// The warning findings of credential `ci`.
pub open spec fn cred_warnings(cred: CredentialQuery, ci: int) -> Seq<FindingView> {
    match cred.claims {
        None => seq![
            warning_finding(
                ErrorCode::NoClaimsSpecified,
                "Credential '"@ + cred.id@
                    + "' has no 'claims' — all claims will be requested from the wallet"@,
                indexed("credentials"@, ci) + ".claims"@,
                "Add a 'claims' array to request only the fields your verifier needs"@,
            ),
        ],
        Some(cs) => if cs@.len() == 0 {
            seq![]
        } else {
            claims_warnings_upto(ci, cs@, cs@.len() as int)
        },
    }
}

pub open spec fn creds_errors_upto(creds: Seq<CredentialQuery>, n: int) -> Seq<FindingView>
    decreases n,
{
    if n <= 0 {
        seq![]
    } else {
        creds_errors_upto(creds, n - 1) + cred_errors(creds, n - 1)
    }
}

pub open spec fn creds_warnings_upto(creds: Seq<CredentialQuery>, n: int) -> Seq<FindingView>
    decreases n,
{
    if n <= 0 {
        seq![]
    } else {
        creds_warnings_upto(creds, n - 1) + cred_warnings(creds[n - 1], n - 1)
    }
}

/// The findings on option `oi` of credential set `si`.
pub open spec fn option_errors(
    known: Seq<Seq<char>>,
    si: int,
    oi: int,
    option: Seq<String>,
    n: int,
) -> Seq<FindingView>
    decreases n,
{
    if n <= 0 {
        if option.len() == 0 {
            seq![
                error_finding(
                    ErrorCode::EmptyOptions,
                    indexed(indexed("credential_sets"@, si) + ".options"@, oi)
                        + " must not be empty"@,
                    indexed(indexed("credential_sets"@, si) + ".options"@, oi),
                    "An option must list at least one credential id"@,
                ),
            ]
        } else {
            seq![]
        }
    } else {
        let ri = n - 1;
        let r = option[ri]@;
        let loc = indexed(indexed(indexed("credential_sets"@, si) + ".options"@, oi), ri);
        option_errors(known, si, oi, option, n - 1) + if known.contains(r) {
            seq![]
        } else {
            seq![
                error_finding(
                    ErrorCode::UnknownCredentialId,
                    loc + " references unknown credential id '"@ + r + "'"@,
                    loc,
                    "Known credential ids: "@ + debug_list(known),
                ),
            ]
        }
    }
}

pub open spec fn options_errors_upto(
    known: Seq<Seq<char>>,
    si: int,
    options: Seq<Vec<String>>,
    n: int,
) -> Seq<FindingView>
    decreases n,
{
    if n <= 0 {
        seq![]
    } else {
        options_errors_upto(known, si, options, n - 1) + option_errors(
            known,
            si,
            n - 1,
            options[n - 1]@,
            options[n - 1]@.len() as int,
        )
    }
}

/// The findings on credential set `si`.
pub open spec fn set_errors(known: Seq<Seq<char>>, si: int, set: CredentialSetQuery) -> Seq<
    FindingView,
> {
    let set_loc = indexed("credential_sets"@, si);
    if set.options@.len() == 0 {
        seq![
            error_finding(
                ErrorCode::EmptyOptions,
                set_loc + ".options must not be empty"@,
                set_loc + ".options"@,
                "Each CredentialSetQuery must have at least one option array"@,
            ),
        ]
    } else {
        options_errors_upto(known, si, set.options@, set.options@.len() as int)
    }
}

pub open spec fn sets_errors_upto(
    known: Seq<Seq<char>>,
    sets: Seq<CredentialSetQuery>,
    n: int,
) -> Seq<FindingView>
    decreases n,
{
    if n <= 0 {
        seq![]
    } else {
        sets_errors_upto(known, sets, n - 1) + set_errors(known, n - 1, sets[n - 1])
    }
}

/// The index of the last of the first `n` credentials that has this id and
/// a non-empty claims list: the one whose claim ids references are checked
/// against.
pub open spec fn claims_holder(creds: Seq<CredentialQuery>, id: Seq<char>, n: int) -> Option<int>
    decreases n,
{
    if n <= 0 {
        None
    } else {
        let c = creds[n - 1];
        if c.id@ == id && (c.claims matches Some(cs) && cs@.len() > 0) {
            Some(n - 1)
        } else {
            claims_holder(creds, id, n - 1)
        }
    }
}

/// The claim ids against which references into credential `id` are checked,
/// if some credential with that id has claims.
pub open spec fn claim_ids_for(creds: Seq<CredentialQuery>, id: Seq<char>) -> Option<
    Seq<Seq<char>>,
> {
    match claims_holder(creds, id, creds.len() as int) {
        Some(i) => match creds[i].claims {
            Some(cs) => Some(claim_ids(cs@, cs@.len() as int)),
            None => None,
        },
        None => None,
    }
}

/// The findings on one side (`left` or `right`) of link `li`.
pub open spec fn link_side_errors(
    creds: Seq<CredentialQuery>,
    li: int,
    side: Seq<char>,
    cred_id: Seq<char>,
    claim_id: Seq<char>,
) -> Seq<FindingView> {
    let known = known_ids(creds, creds.len() as int);
    let link_loc = indexed("credential_links"@, li);
    if !known.contains(cred_id) {
        seq![
            error_finding(
                ErrorCode::UnknownCredentialId,
                link_loc + "."@ + side + "_credential '"@ + cred_id
                    + "' does not match any credential id"@,
                link_loc + "."@ + side + "_credential"@,
                "Known credential ids: "@ + debug_list(known),
            ),
        ]
    } else {
        let missing = error_finding(
            ErrorCode::MissingClaimId,
            link_loc + ": credential '"@ + cred_id + "' has no claims with 'id' fields"@,
            link_loc + "."@ + side + "_claim"@,
            "Claims used in credential_links must have an 'id' field"@,
        );
        match claim_ids_for(creds, cred_id) {
            None => seq![missing],
            Some(ids) => if ids.len() == 0 {
                seq![missing]
            } else if !ids.contains(claim_id) {
                seq![
                    error_finding(
                        ErrorCode::UnknownClaimId,
                        link_loc + "."@ + side + "_claim '"@ + claim_id
                            + "' does not exist in credential '"@ + cred_id + "'"@,
                        link_loc + "."@ + side + "_claim"@,
                        "Available claim ids in '"@ + cred_id + "': "@ + debug_list(ids),
                    ),
                ]
            } else {
                seq![]
            },
        }
    }
}

pub open spec fn link_errors(creds: Seq<CredentialQuery>, li: int, l: CredentialLink) -> Seq<
    FindingView,
> {
    link_side_errors(creds, li, "left"@, l.left_credential@, l.left_claim@) + link_side_errors(
        creds,
        li,
        "right"@,
        l.right_credential@,
        l.right_claim@,
    )
}

pub open spec fn link_warnings(li: int, l: CredentialLink) -> Seq<FindingView> {
    let link_loc = indexed("credential_links"@, li);
    if l.left_credential@ == l.right_credential@ && l.left_claim@ == l.right_claim@ {
        seq![
            warning_finding(
                ErrorCode::SelfLinkDetected,
                link_loc + ": both sides reference the same claim '"@ + l.left_claim@
                    + "' in credential '"@ + l.left_credential@
                    + "' — this condition is always true"@,
                link_loc,
                "A self-link with relation 'equal' is a tautology. Did you mean to join two different credentials?"@,
            ),
        ]
    } else {
        seq![]
    }
}

pub open spec fn links_errors_upto(
    creds: Seq<CredentialQuery>,
    links: Seq<CredentialLink>,
    n: int,
) -> Seq<FindingView>
    decreases n,
{
    if n <= 0 {
        seq![]
    } else {
        links_errors_upto(creds, links, n - 1) + link_errors(creds, n - 1, links[n - 1])
    }
}

pub open spec fn links_warnings_upto(links: Seq<CredentialLink>, n: int) -> Seq<FindingView>
    decreases n,
{
    if n <= 0 {
        seq![]
    } else {
        links_warnings_upto(links, n - 1) + link_warnings(n - 1, links[n - 1])
    }
}

/// The index of the first credential with this id.
pub open spec fn first_with_id(creds: Seq<CredentialQuery>, id: Seq<char>, n: int) -> Option<int>
    decreases n,
{
    if n <= 0 {
        None
    } else {
        match first_with_id(creds, id, n - 1) {
            Some(i) => Some(i),
            None => if creds[n - 1].id@ == id {
                Some(n - 1)
            } else {
                None
            },
        }
    }
}

pub open spec fn agg_errors(creds: Seq<CredentialQuery>, ai: int, a: AggregateQuery) -> Seq<
    FindingView,
> {
    let known = known_ids(creds, creds.len() as int);
    let agg_loc = indexed("aggregates"@, ai);
    let cid = a.credential_id@;
    if !known.contains(cid) {
        seq![
            error_finding(
                ErrorCode::UnknownCredentialId,
                agg_loc + ".credential_id '"@ + cid + "' does not match any credential id"@,
                agg_loc + ".credential_id"@,
                "Known credential ids: "@ + debug_list(known),
            ),
        ]
    } else {
        match claim_ids_for(creds, cid) {
            None => seq![
                error_finding(
                    ErrorCode::MissingClaimId,
                    agg_loc + ": credential '"@ + cid + "' has no claims with 'id' fields"@,
                    agg_loc + ".claim_id"@,
                    "Claims used in aggregates must have an 'id' field"@,
                ),
            ],
            Some(ids) => if !ids.contains(a.claim_id@) {
                seq![
                    error_finding(
                        ErrorCode::UnknownClaimId,
                        agg_loc + ".claim_id '"@ + a.claim_id@ + "' does not exist in credential '"@
                            + cid + "'"@,
                        agg_loc + ".claim_id"@,
                        "Available claim ids in '"@ + cid + "': "@ + debug_list(ids),
                    ),
                ]
            } else {
                seq![]
            },
        }
    }
}

pub open spec fn agg_warnings(creds: Seq<CredentialQuery>, ai: int, a: AggregateQuery) -> Seq<
    FindingView,
> {
    let known = known_ids(creds, creds.len() as int);
    let agg_loc = indexed("aggregates"@, ai);
    let cid = a.credential_id@;
    if !known.contains(cid) {
        seq![]
    } else {
        match first_with_id(creds, cid, creds.len() as int) {
            Some(i) => if creds[i].multiple != Some(true) {
                seq![
                    warning_finding(
                        ErrorCode::AggregateWithoutMultiple,
                        agg_loc + ": credential '"@ + cid
                            + "' is used in an aggregate but does not have 'multiple: true' — the aggregate will operate on at most one instance"@,
                        agg_loc + ".credential_id"@,
                        "Set '\"multiple\": true' on credential '"@ + cid
                            + "' to collect values across all matching credential instances"@,
                    ),
                ]
            } else {
                seq![]
            },
            None => seq![],
        }
    }
}

pub open spec fn aggs_errors_upto(creds: Seq<CredentialQuery>, aggs: Seq<AggregateQuery>, n: int) -> Seq<
    FindingView,
>
    decreases n,
{
    if n <= 0 {
        seq![]
    } else {
        aggs_errors_upto(creds, aggs, n - 1) + agg_errors(creds, n - 1, aggs[n - 1])
    }
}

pub open spec fn aggs_warnings_upto(creds: Seq<CredentialQuery>, aggs: Seq<AggregateQuery>, n: int) -> Seq<
    FindingView,
>
    decreases n,
{
    if n <= 0 {
        seq![]
    } else {
        aggs_warnings_upto(creds, aggs, n - 1) + agg_warnings(creds, n - 1, aggs[n - 1])
    }
}

pub open spec fn opt_seq<T>(o: Option<Vec<T>>) -> Seq<T> {
    match o {
        Some(v) => v@,
        None => seq![],
    }
}

/// The errors that validation reports for a query with these parts, in
/// order: credentials, credential sets, links, aggregates.
pub open spec fn validation_errors(
    creds: Seq<CredentialQuery>,
    sets: Seq<CredentialSetQuery>,
    links: Seq<CredentialLink>,
    aggs: Seq<AggregateQuery>,
) -> Seq<FindingView> {
    if creds.len() == 0 {
        seq![
            error_finding(
                ErrorCode::EmptyCredentials,
                "The 'credentials' array must contain at least one CredentialQuery"@,
                "credentials"@,
                "Add at least one credential entry with a unique 'id' and 'format'"@,
            ),
        ]
    } else {
        let n = creds.len() as int;
        creds_errors_upto(creds, n) + sets_errors_upto(known_ids(creds, n), sets, sets.len() as int)
            + links_errors_upto(creds, links, links.len() as int) + aggs_errors_upto(
            creds,
            aggs,
            aggs.len() as int,
        )
    }
}

/// The warnings that validation reports for a query with these parts.
pub open spec fn validation_warnings(
    creds: Seq<CredentialQuery>,
    links: Seq<CredentialLink>,
    aggs: Seq<AggregateQuery>,
) -> Seq<FindingView> {
    if creds.len() == 0 {
        seq![]
    } else {
        creds_warnings_upto(creds, creds.len() as int) + links_warnings_upto(
            links,
            links.len() as int,
        ) + aggs_warnings_upto(creds, aggs, aggs.len() as int)
    }
}


// ─── building findings ──────────────────────────────────────────────────────

pub open spec fn hint_view(hint: Option<String>) -> Option<Seq<char>> {
    match hint {
        Some(h) => Some(h@),
        None => None,
    }
}

fn err(code: ErrorCode, message: String, location: String, hint: Option<String>) -> (r:
    ValidationError)
    ensures
        r@ == (FindingView {
            code,
            severity: Severity::Error,
            message: message@,
            location: location@,
            hint: hint_view(hint),
        }),
{
    ValidationError { code, severity: Severity::Error, message, location, hint }
}

fn warn(code: ErrorCode, message: String, location: String, hint: Option<String>) -> (r:
    ValidationError)
    ensures
        r@ == (FindingView {
            code,
            severity: Severity::Warning,
            message: message@,
            location: location@,
            hint: hint_view(hint),
        }),
{
    ValidationError { code, severity: Severity::Warning, message, location, hint }
}

proof fn lemma_findings_push(v: Seq<ValidationError>, e: ValidationError)
    ensures
        findings(v.push(e)) == findings(v).push(e@),
{
    assert(findings(v.push(e)) =~= findings(v).push(e@));
}

fn push_finding(v: &mut Vec<ValidationError>, e: ValidationError)
    ensures
        findings(final(v)@) == findings(old(v)@).push(e@),
{
    proof {
        lemma_findings_push(v@, e);
    }
    v.push(e);
}

fn append_findings(v: &mut Vec<ValidationError>, more: Vec<ValidationError>)
    ensures
        findings(final(v)@) == findings(old(v)@) + findings(more@),
{
    let ghost start = v@;
    let mut more = more;
    let ghost added = more@;
    v.append(&mut more);
    assert(findings(v@) =~= findings(start) + findings(added));
}

/// `head[i]`
fn indexed_text(head: &str, i: usize) -> (r: String)
    ensures
        r@ == indexed(head@, i as int),
{
    let mut out = text(head);
    push_str(&mut out, "[");
    let digits = decimal_text(i as u64);
    push_str(&mut out, digits.as_str());
    push_str(&mut out, "]");
    out
}

/// Two texts one after the other.
fn cat(a: &str, b: &str) -> (r: String)
    ensures
        r@ == a@ + b@,
{
    let mut out = text(a);
    push_str(&mut out, b);
    out
}

/// `["a", "b"]`
fn debug_list_text(xs: &Vec<String>) -> (r: String)
    ensures
        r@ == debug_list(texts(xs@)),
{
    let ghost parts = texts(xs@).map_values(|x: Seq<char>| debug_quoted(x));
    let mut out = text("[");
    let n = xs.len();
    let mut i: usize = 0;
    while i < n
        invariant
            i <= n,
            n == xs@.len(),
            parts == texts(xs@).map_values(|x: Seq<char>| debug_quoted(x)),
            out@ == "["@ + join(parts.take(i as int), ", "@),
        decreases n - i,
    {
        let q = debug_str(xs[i].as_str());
        proof {
            lemma_join_push(parts.take(i as int), ", "@, q@);
            assert(parts.take(i + 1) =~= parts.take(i as int).push(q@));
        }
        if i > 0 {
            push_str(&mut out, ", ");
        }
        push_str(&mut out, q.as_str());
        i = i + 1;
    }
    assert(parts.take(n as int) =~= parts);
    push_str(&mut out, "]");
    out
}

/// Whether one of the strings equals `s`.
fn contains_text(xs: &Vec<String>, s: &str) -> (r: bool)
    ensures
        r == texts(xs@).contains(s@),
{
    let n = xs.len();
    let mut i: usize = 0;
    while i < n
        invariant
            i <= n,
            n == xs@.len(),
            forall|k: int| 0 <= k < i ==> xs@[k]@ != s@,
        decreases n - i,
    {
        if str_eq(xs[i].as_str(), s) {
            assert(texts(xs@)[i as int] == s@);
            return true;
        }
        i = i + 1;
    }
    assert forall|k: int| 0 <= k < texts(xs@).len() implies texts(
        xs@,
    )[k] != s@ by {
        assert(texts(xs@)[k] == xs@[k]@);
    }
    false
}

/// The distinct claim ids of a claims list, in order of first appearance.
fn claim_ids_text(claims: &Vec<ClaimQuery>) -> (r: Vec<String>)
    ensures
        texts(r@) == claim_ids(claims@, claims@.len() as int),
{
    let mut out: Vec<String> = Vec::new();
    let n = claims.len();
    let mut j: usize = 0;
    assert(texts(out@) =~= claim_ids(claims@, 0));
    while j < n
        invariant
            j <= n,
            n == claims@.len(),
            texts(out@) == claim_ids(claims@, j as int),
        decreases n - j,
    {
        match &claims[j].id {
            Some(id) => {
                if !contains_text(&out, id.as_str()) {
                    let t = id.clone();
                    proof {
                        lemma_texts_push(out@, t);
                    }
                    out.push(t);
                }
            },
            None => {},
        }
        j = j + 1;
    }
    out
}


// ─── credentials ────────────────────────────────────────────────────────────

proof fn lemma_invalid_chars_step(id: Seq<char>, i: int)
    requires
        0 <= i < id.len(),
    ensures
        invalid_chars(id.take(i + 1)) == if is_id_char(id[i]) {
            invalid_chars(id.take(i))
        } else {
            invalid_chars(id.take(i)).push(id[i])
        },
{
    assert(id.take(i + 1).drop_last() =~= id.take(i));
    assert(id.take(i + 1).last() == id[i]);
}

/// `'a', 'b'`
fn quoted_chars_text(bad: &Vec<char>) -> (r: String)
    ensures
        r@ == join(bad@.map_values(|c: char| quoted_char(c)), ", "@),
{
    let ghost parts = bad@.map_values(|c: char| quoted_char(c));
    let mut out = String::new();
    let n = bad.len();
    let mut i: usize = 0;
    while i < n
        invariant
            i <= n,
            n == bad@.len(),
            parts == bad@.map_values(|c: char| quoted_char(c)),
            out@ == join(parts.take(i as int), ", "@),
        decreases n - i,
    {
        let ghost before = out@;
        let mut q = String::new();
        push_char(&mut q, '\'');
        push_char(&mut q, bad[i]);
        push_char(&mut q, '\'');
        assert(q@ =~= quoted_char(bad@[i as int]));
        proof {
            lemma_join_push(parts.take(i as int), ", "@, q@);
            assert(parts.take(i + 1) =~= parts.take(i as int).push(q@));
        }
        if i > 0 {
            push_str(&mut out, ", ");
        }
        push_str(&mut out, q.as_str());
        i = i + 1;
    }
    assert(parts.take(n as int) =~= parts);
    out
}

/// The findings on the id of credential `ci`.
fn id_findings_text(creds: &Vec<CredentialQuery>, ci: usize, known: &Vec<String>) -> (r: Vec<
    ValidationError,
>)
    requires
        ci < creds@.len(),
        texts(known@) == known_ids(creds@, ci as int),
    ensures
        findings(r@) == id_findings(creds@, ci as int),
{
    let id = creds[ci].id.as_str();
    let cred_loc = indexed_text("credentials", ci);
    let mut out: Vec<ValidationError> = Vec::new();
    if id.is_empty() {
        let e = err(
            ErrorCode::InvalidCredentialId,
            text("Credential 'id' must not be empty"),
            cat(cred_loc.as_str(), ".id"),
            Some(text("Use alphanumeric characters, hyphens, or underscores (e.g. \"identity\")")),
        );
        push_finding(&mut out, e);
        assert(findings(out@) =~= id_findings(creds@, ci as int));
        return out;
    }
    let mut bad: Vec<char> = Vec::new();
    for c in it: id.chars()
        invariant
            it.seq() == id@,
            bad@ == invalid_chars(id@.take(it.index() as int)),
    {
        proof {
            lemma_invalid_chars_step(id@, it.index() as int);
        }
        if !is_alphanumeric(c) && c != '_' && c != '-' {
            bad.push(c);
        }
    }
    assert(id@.take(id@.len() as int) =~= id@);
    let ghost first = findings(out@);
    if bad.len() > 0 {
        let mut m = text("Credential id '");
        push_str(&mut m, id);
        push_str(&mut m, "' contains invalid character(s): ");
        let listed = quoted_chars_text(&bad);
        push_str(&mut m, listed.as_str());
        let e = err(
            ErrorCode::InvalidCredentialId,
            m,
            cat(cred_loc.as_str(), ".id"),
            Some(text("Credential IDs must match [a-zA-Z0-9_-]+")),
        );
        push_finding(&mut out, e);
    }
    let ghost second = findings(out@);
    if contains_text(known, id) {
        let mut m = text("Credential id '");
        push_str(&mut m, id);
        push_str(&mut m, "' is defined more than once");
        let e = err(
            ErrorCode::DuplicateCredentialId,
            m,
            cat(cred_loc.as_str(), ".id"),
            Some(text("Each credential must have a unique 'id' within the query")),
        );
        push_finding(&mut out, e);
    }
    assert(findings(out@) =~= id_findings(creds@, ci as int));
    out
}

/// The error and warning findings of claim `qi`, given the claim ids of the
/// claims before it.
fn claim_findings_text(
    cred: &CredentialQuery,
    ci: usize,
    claims: &Vec<ClaimQuery>,
    qi: usize,
    seen: &Vec<String>,
    errors: &mut Vec<ValidationError>,
    warnings: &mut Vec<ValidationError>,
)
    requires
        qi < claims@.len(),
        texts(seen@) == claim_ids(claims@, qi as int),
    ensures
        findings(final(errors)@) == findings(old(errors)@) + claim_errors(
            *cred,
            ci as int,
            claims@,
            qi as int,
        ),
        findings(final(warnings)@) == findings(old(warnings)@) + claim_warnings(
            ci as int,
            claims@,
            qi as int,
        ),
{
    let ghost e0 = findings(errors@);
    let ghost w0 = findings(warnings@);
    let claim = &claims[qi];
    let cred_loc = indexed_text("credentials", ci);
    let tail = indexed_text(".claims", qi);
    let claim_loc = cat(cred_loc.as_str(), tail.as_str());
    if claim.path.len() == 0 {
        let e = err(
            ErrorCode::EmptyPath,
            text("Claim 'path' must contain at least one element"),
            cat(claim_loc.as_str(), ".path"),
            Some(text("Example: [\"credentialSubject\", \"name\"] selects the name field")),
        );
        push_finding(errors, e);
    }
    let ghost e1 = findings(errors@);
    match &claim.id {
        Some(id) => {
            if contains_text(seen, id.as_str()) {
                let mut m = text("Claim id '");
                push_str(&mut m, id.as_str());
                push_str(&mut m, "' appears more than once in credential '");
                push_str(&mut m, cred.id.as_str());
                push_str(&mut m, "'");
                let e = err(
                    ErrorCode::DuplicateClaimId,
                    m,
                    cat(claim_loc.as_str(), ".id"),
                    Some(text("Each claim within a credential must have a unique 'id'")),
                );
                push_finding(errors, e);
            }
        },
        None => {},
    }
    assert(findings(errors@) =~= e0 + claim_errors(*cred, ci as int, claims@, qi as int));
    if claim.filter.is_some() && claim.values.is_some() {
        let mut m = text("Claim at ");
        push_str(&mut m, claim_loc.as_str());
        push_str(
            &mut m,
            " has both 'filter' (SPARQL predicate) and 'values' (wallet pre-filter hint). 'values' will be passed to the wallet for pre-filtering while 'filter' generates the SPARQL FILTER.",
        );
        let w = warn(
            ErrorCode::FilterAndValuesBothPresent,
            m,
            claim_loc,
            Some(
                text(
                    "This is allowed but may cause confusion. Use 'filter' for verifier-enforced predicates and 'values' for wallet UI hints.",
                ),
            ),
        );
        push_finding(warnings, w);
    }
    assert(findings(warnings@) =~= w0 + claim_warnings(ci as int, claims@, qi as int));
}

/// The findings on the claims list of credential `ci`.
fn claims_part_text(
    cred: &CredentialQuery,
    ci: usize,
    errors: &mut Vec<ValidationError>,
    warnings: &mut Vec<ValidationError>,
)
    ensures
        findings(final(errors)@) == findings(old(errors)@) + claims_part_errors(*cred, ci as int),
        findings(final(warnings)@) == findings(old(warnings)@) + cred_warnings(*cred, ci as int),
{
    let ghost e0 = findings(errors@);
    let ghost w0 = findings(warnings@);
    match &cred.claims {
        None => {
            let mut m = text("Credential '");
            push_str(&mut m, cred.id.as_str());
            push_str(&mut m, "' has no 'claims' — all claims will be requested from the wallet");
            let loc = indexed_text("credentials", ci);
            let w = warn(
                ErrorCode::NoClaimsSpecified,
                m,
                cat(loc.as_str(), ".claims"),
                Some(text("Add a 'claims' array to request only the fields your verifier needs")),
            );
            push_finding(warnings, w);
            assert(findings(errors@) =~= e0 + claims_part_errors(*cred, ci as int));
        },
        Some(claims) => {
            if claims.len() == 0 {
                let mut m = text("Credential '");
                push_str(&mut m, cred.id.as_str());
                push_str(&mut m, "' has an empty 'claims' array");
                let loc = indexed_text("credentials", ci);
                let e = err(
                    ErrorCode::EmptyClaimsArray,
                    m,
                    cat(loc.as_str(), ".claims"),
                    Some(
                        text("Either omit 'claims' to request all, or add at least one ClaimQuery"),
                    ),
                );
                push_finding(errors, e);
                assert(findings(warnings@) =~= w0 + cred_warnings(*cred, ci as int));
                return ;
            }
            let mut seen: Vec<String> = Vec::new();
            let n = claims.len();
            let mut qi: usize = 0;
            assert(texts(seen@) =~= claim_ids(claims@, 0));
            assert(findings(errors@) =~= e0 + claims_errors_upto(*cred, ci as int, claims@, 0));
            assert(findings(warnings@) =~= w0 + claims_warnings_upto(ci as int, claims@, 0));
            while qi < n
                invariant
                    qi <= n,
                    n == claims@.len(),
                    texts(seen@) == claim_ids(claims@, qi as int),
                    findings(errors@) == e0 + claims_errors_upto(
                        *cred,
                        ci as int,
                        claims@,
                        qi as int,
                    ),
                    findings(warnings@) == w0 + claims_warnings_upto(ci as int, claims@, qi as int),
                decreases n - qi,
            {
                claim_findings_text(cred, ci, claims, qi, &seen, errors, warnings);
                match &claims[qi].id {
                    Some(id) => {
                        if !contains_text(&seen, id.as_str()) {
                            let t = id.clone();
                            proof {
                                lemma_texts_push(seen@, t);
                            }
                            seen.push(t);
                        }
                    },
                    None => {},
                }
                qi = qi + 1;
            }
        },
    }
}

/// The findings on the claim sets of credential `ci`.
fn claim_sets_part_text(cred: &CredentialQuery, ci: usize, errors: &mut Vec<ValidationError>)
    ensures
        findings(final(errors)@) == findings(old(errors)@) + claim_sets_part_errors(
            *cred,
            ci as int,
        ),
{
    let ghost e0 = findings(errors@);
    let sets = match &cred.claim_sets {
        None => {
            assert(findings(errors@) =~= e0 + claim_sets_part_errors(*cred, ci as int));
            return ;
        },
        Some(sets) => sets,
    };
    let claims = match &cred.claims {
        None => {
            let mut m = text("Credential '");
            push_str(&mut m, cred.id.as_str());
            push_str(&mut m, "' has 'claim_sets' but no 'claims'");
            let loc = indexed_text("credentials", ci);
            let e = err(
                ErrorCode::ClaimSetsWithoutClaims,
                m,
                cat(loc.as_str(), ".claim_sets"),
                Some(
                    text(
                        "'claim_sets' selects subsets of 'claims'; both must be present together",
                    ),
                ),
            );
            push_finding(errors, e);
            return ;
        },
        Some(claims) => claims,
    };
    let ids = claim_ids_text(claims);
    let ghost idv = texts(ids@);
    let cred_loc = indexed_text("credentials", ci);
    let ns = sets.len();
    let mut si: usize = 0;
    assert(findings(errors@) =~= e0 + claim_sets_errors_upto(*cred, ci as int, idv, sets@, 0));
    while si < ns
        invariant
            si <= ns,
            ns == sets@.len(),
            idv == texts(ids@),
            cred_loc@ == indexed("credentials"@, ci as int),
            findings(errors@) == e0 + claim_sets_errors_upto(*cred, ci as int, idv, sets@, si as int),
        decreases ns - si,
    {
        let set = &sets[si];
        let ghost s0 = findings(errors@);
        let nr = set.len();
        let mut ri: usize = 0;
        assert(findings(errors@) =~= s0 + claim_set_errors(*cred, ci as int, idv, set@, si as int, 0));
        while ri < nr
            invariant
                ri <= nr,
                nr == set@.len(),
                idv == texts(ids@),
                cred_loc@ == indexed("credentials"@, ci as int),
                findings(errors@) == s0 + claim_set_errors(
                    *cred,
                    ci as int,
                    idv,
                    set@,
                    si as int,
                    ri as int,
                ),
            decreases nr - ri,
        {
            let ghost r0 = findings(errors@);
            let r = set[ri].as_str();
            if !contains_text(&ids, r) {
                let head = indexed_text("claim_sets", si);
                let sr = indexed_text(head.as_str(), ri);
                let mut m = sr.clone();
                push_str(&mut m, " references claim id '");
                push_str(&mut m, r);
                push_str(&mut m, "' which does not exist in credential '");
                push_str(&mut m, cred.id.as_str());
                push_str(&mut m, "'");
                let dot_head = indexed_text(".claim_sets", si);
                let dot_sr = indexed_text(dot_head.as_str(), ri);
                let loc = cat(cred_loc.as_str(), dot_sr.as_str());
                let listed = debug_list_text(&ids);
                let hint = cat("Available claim ids with 'id' set: ", listed.as_str());
                let e = err(ErrorCode::UnknownClaimId, m, loc, Some(hint));
                push_finding(errors, e);
            }
            assert(findings(errors@) =~= s0 + claim_set_errors(
                *cred,
                ci as int,
                idv,
                set@,
                si as int,
                ri + 1,
            ));
            ri = ri + 1;
        }
        si = si + 1;
    }
}


// ─── credential sets ────────────────────────────────────────────────────────

fn option_text(
    known: &Vec<String>,
    si: usize,
    oi: usize,
    option: &Vec<String>,
    errors: &mut Vec<ValidationError>,
)
    ensures
        findings(final(errors)@) == findings(old(errors)@) + option_errors(
            texts(known@),
            si as int,
            oi as int,
            option@,
            option@.len() as int,
        ),
{
    let ghost e0 = findings(errors@);
    let ghost kv = texts(known@);
    let set_loc = indexed_text("credential_sets", si);
    let opts = cat(set_loc.as_str(), ".options");
    let opt_loc = indexed_text(opts.as_str(), oi);
    if option.len() == 0 {
        let e = err(
            ErrorCode::EmptyOptions,
            cat(opt_loc.as_str(), " must not be empty"),
            opt_loc.clone(),
            Some(text("An option must list at least one credential id")),
        );
        push_finding(errors, e);
    }
    assert(findings(errors@) =~= e0 + option_errors(kv, si as int, oi as int, option@, 0));
    let n = option.len();
    let mut ri: usize = 0;
    while ri < n
        invariant
            ri <= n,
            n == option@.len(),
            kv == texts(known@),
            opt_loc@ == indexed(indexed("credential_sets"@, si as int) + ".options"@, oi as int),
            findings(errors@) == e0 + option_errors(kv, si as int, oi as int, option@, ri as int),
        decreases n - ri,
    {
        let r = option[ri].as_str();
        if !contains_text(known, r) {
            let loc = indexed_text(opt_loc.as_str(), ri);
            let mut m = loc.clone();
            push_str(&mut m, " references unknown credential id '");
            push_str(&mut m, r);
            push_str(&mut m, "'");
            let listed = debug_list_text(known);
            let e = err(
                ErrorCode::UnknownCredentialId,
                m,
                loc,
                Some(cat("Known credential ids: ", listed.as_str())),
            );
            push_finding(errors, e);
        }
        ri = ri + 1;
    }
}

fn sets_text(known: &Vec<String>, sets: &Vec<CredentialSetQuery>, errors: &mut Vec<ValidationError>)
    ensures
        findings(final(errors)@) == findings(old(errors)@) + sets_errors_upto(
            texts(known@),
            sets@,
            sets@.len() as int,
        ),
{
    let ghost e0 = findings(errors@);
    let ghost kv = texts(known@);
    let n = sets.len();
    let mut si: usize = 0;
    assert(findings(errors@) =~= e0 + sets_errors_upto(kv, sets@, 0));
    while si < n
        invariant
            si <= n,
            n == sets@.len(),
            kv == texts(known@),
            findings(errors@) == e0 + sets_errors_upto(kv, sets@, si as int),
        decreases n - si,
    {
        let set = &sets[si];
        let ghost s0 = findings(errors@);
        if set.options.len() == 0 {
            let set_loc = indexed_text("credential_sets", si);
            let e = err(
                ErrorCode::EmptyOptions,
                cat(set_loc.as_str(), ".options must not be empty"),
                cat(set_loc.as_str(), ".options"),
                Some(text("Each CredentialSetQuery must have at least one option array")),
            );
            push_finding(errors, e);
        } else {
            let no = set.options.len();
            let mut oi: usize = 0;
            assert(findings(errors@) =~= s0 + options_errors_upto(kv, si as int, set.options@, 0));
            while oi < no
                invariant
                    oi <= no,
                    no == set.options@.len(),
                    kv == texts(known@),
                    findings(errors@) == s0 + options_errors_upto(
                        kv,
                        si as int,
                        set.options@,
                        oi as int,
                    ),
                decreases no - oi,
            {
                option_text(known, si, oi, &set.options[oi], errors);
                oi = oi + 1;
            }
        }
        si = si + 1;
    }
}

// ─── links and aggregates ───────────────────────────────────────────────────

proof fn lemma_claims_holder_bounds(creds: Seq<CredentialQuery>, id: Seq<char>, n: int)
    ensures
        claims_holder(creds, id, n) matches Some(i) ==> 0 <= i < n,
    decreases n,
{
    if n > 0 {
        lemma_claims_holder_bounds(creds, id, n - 1);
    }
}

proof fn lemma_first_with_id_bounds(creds: Seq<CredentialQuery>, id: Seq<char>, n: int)
    ensures
        first_with_id(creds, id, n) matches Some(i) ==> 0 <= i < n && creds[i].id@ == id,
    decreases n,
{
    if n > 0 {
        lemma_first_with_id_bounds(creds, id, n - 1);
    }
}

/// The last credential with this id that has a non-empty claims list.
fn claims_holder_exec(creds: &Vec<CredentialQuery>, id: &str) -> (r: Option<usize>)
    ensures
        r matches Some(i) ==> i < creds@.len() && claims_holder(creds@, id@, creds@.len() as int)
            == Some(i as int),
        r is None ==> claims_holder(creds@, id@, creds@.len() as int) is None,
{
    proof {
        lemma_claims_holder_bounds(creds@, id@, creds@.len() as int);
    }
    let mut k: usize = creds.len();
    while k > 0
        invariant
            k <= creds@.len(),
            claims_holder(creds@, id@, creds@.len() as int) == claims_holder(creds@, id@, k as int),
        decreases k,
    {
        let c = &creds[k - 1];
        if str_eq(c.id.as_str(), id) {
            match &c.claims {
                Some(cs) => {
                    if cs.len() > 0 {
                        return Some(k - 1);
                    }
                },
                None => {},
            }
        }
        k = k - 1;
    }
    None
}

/// The claim ids that references into credential `id` are checked against.
fn claim_ids_for_exec(creds: &Vec<CredentialQuery>, id: &str) -> (r: Option<Vec<String>>)
    ensures
        match claim_ids_for(creds@, id@) {
            Some(ids) => r matches Some(v) && texts(v@) == ids,
            None => r is None,
        },
{
    proof {
        lemma_claims_holder_bounds(creds@, id@, creds@.len() as int);
    }
    match claims_holder_exec(creds, id) {
        None => None,
        Some(i) => {
            let ghost spec_i = i as int;
            match &creds[i].claims {
                Some(cs) => {
                    let v = claim_ids_text(cs);
                    assert(creds@[spec_i].claims == Some(*cs));
                    Some(v)
                },
                None => None,
            }
        },
    }
}

fn link_side_text(
    creds: &Vec<CredentialQuery>,
    known: &Vec<String>,
    li: usize,
    side: &str,
    cred_id: &str,
    claim_id: &str,
    errors: &mut Vec<ValidationError>,
)
    requires
        texts(known@) == known_ids(creds@, creds@.len() as int),
    ensures
        findings(final(errors)@) == findings(old(errors)@) + link_side_errors(
            creds@,
            li as int,
            side@,
            cred_id@,
            claim_id@,
        ),
{
    let ghost e0 = findings(errors@);
    let link_loc = indexed_text("credential_links", li);
    let mut side_loc = cat(link_loc.as_str(), ".");
    push_str(&mut side_loc, side);
    if !contains_text(known, cred_id) {
        let mut m = side_loc.clone();
        push_str(&mut m, "_credential '");
        push_str(&mut m, cred_id);
        push_str(&mut m, "' does not match any credential id");
        let listed = debug_list_text(known);
        let e = err(
            ErrorCode::UnknownCredentialId,
            m,
            cat(side_loc.as_str(), "_credential"),
            Some(cat("Known credential ids: ", listed.as_str())),
        );
        push_finding(errors, e);
        return ;
    }
    let ids = claim_ids_for_exec(creds, cred_id);
    let missing = match &ids {
        None => true,
        Some(v) => v.len() == 0,
    };
    if missing {
        let mut m = link_loc.clone();
        push_str(&mut m, ": credential '");
        push_str(&mut m, cred_id);
        push_str(&mut m, "' has no claims with 'id' fields");
        let e = err(
            ErrorCode::MissingClaimId,
            m,
            cat(side_loc.as_str(), "_claim"),
            Some(text("Claims used in credential_links must have an 'id' field")),
        );
        push_finding(errors, e);
        return ;
    }
    match &ids {
        None => {},
        Some(v) => {
            if !contains_text(v, claim_id) {
                let mut m = side_loc.clone();
                push_str(&mut m, "_claim '");
                push_str(&mut m, claim_id);
                push_str(&mut m, "' does not exist in credential '");
                push_str(&mut m, cred_id);
                push_str(&mut m, "'");
                let mut hint = text("Available claim ids in '");
                push_str(&mut hint, cred_id);
                push_str(&mut hint, "': ");
                let listed = debug_list_text(v);
                push_str(&mut hint, listed.as_str());
                let e = err(ErrorCode::UnknownClaimId, m, cat(side_loc.as_str(), "_claim"), Some(hint));
                push_finding(errors, e);
            }
        },
    }
}

fn links_text(
    creds: &Vec<CredentialQuery>,
    known: &Vec<String>,
    links: &Vec<CredentialLink>,
    errors: &mut Vec<ValidationError>,
    warnings: &mut Vec<ValidationError>,
)
    requires
        texts(known@) == known_ids(creds@, creds@.len() as int),
    ensures
        findings(final(errors)@) == findings(old(errors)@) + links_errors_upto(
            creds@,
            links@,
            links@.len() as int,
        ),
        findings(final(warnings)@) == findings(old(warnings)@) + links_warnings_upto(
            links@,
            links@.len() as int,
        ),
{
    let ghost e0 = findings(errors@);
    let ghost w0 = findings(warnings@);
    let n = links.len();
    let mut li: usize = 0;
    assert(findings(errors@) =~= e0 + links_errors_upto(creds@, links@, 0));
    assert(findings(warnings@) =~= w0 + links_warnings_upto(links@, 0));
    while li < n
        invariant
            li <= n,
            n == links@.len(),
            texts(known@) == known_ids(creds@, creds@.len() as int),
            findings(errors@) == e0 + links_errors_upto(creds@, links@, li as int),
            findings(warnings@) == w0 + links_warnings_upto(links@, li as int),
        decreases n - li,
    {
        let link = &links[li];
        link_side_text(
            creds,
            known,
            li,
            "left",
            link.left_credential.as_str(),
            link.left_claim.as_str(),
            errors,
        );
        link_side_text(
            creds,
            known,
            li,
            "right",
            link.right_credential.as_str(),
            link.right_claim.as_str(),
            errors,
        );
        let ghost w1 = findings(warnings@);
        if str_eq(link.left_credential.as_str(), link.right_credential.as_str()) && str_eq(
            link.left_claim.as_str(),
            link.right_claim.as_str(),
        ) {
            let link_loc = indexed_text("credential_links", li);
            let mut m = link_loc.clone();
            push_str(&mut m, ": both sides reference the same claim '");
            push_str(&mut m, link.left_claim.as_str());
            push_str(&mut m, "' in credential '");
            push_str(&mut m, link.left_credential.as_str());
            push_str(&mut m, "' — this condition is always true");
            let w = warn(
                ErrorCode::SelfLinkDetected,
                m,
                link_loc,
                Some(
                    text(
                        "A self-link with relation 'equal' is a tautology. Did you mean to join two different credentials?",
                    ),
                ),
            );
            push_finding(warnings, w);
        }
        assert(findings(warnings@) =~= w1 + link_warnings(li as int, links@[li as int]));
        li = li + 1;
    }
}

proof fn lemma_first_with_id_stays(creds: Seq<CredentialQuery>, id: Seq<char>, i: int, n: int)
    requires
        0 <= i < n <= creds.len(),
        first_with_id(creds, id, i + 1) == Some(i),
    ensures
        first_with_id(creds, id, n) == Some(i),
    decreases n,
{
    if n > i + 1 {
        lemma_first_with_id_stays(creds, id, i, n - 1);
    }
}

/// The index of the first credential with this id.
fn first_with_id_exec(creds: &Vec<CredentialQuery>, id: &str) -> (r: Option<usize>)
    ensures
        r matches Some(i) ==> i < creds@.len() && first_with_id(creds@, id@, creds@.len() as int)
            == Some(i as int),
        r is None ==> first_with_id(creds@, id@, creds@.len() as int) is None,
{
    proof {
        lemma_first_with_id_bounds(creds@, id@, creds@.len() as int);
    }
    let n = creds.len();
    let mut i: usize = 0;
    while i < n
        invariant
            i <= n,
            n == creds@.len(),
            first_with_id(creds@, id@, i as int) is None,
        decreases n - i,
    {
        if str_eq(creds[i].id.as_str(), id) {
            proof {
                lemma_first_with_id_stays(creds@, id@, i as int, n as int);
            }
            return Some(i);
        }
        i = i + 1;
    }
    None
}

fn aggs_text(
    creds: &Vec<CredentialQuery>,
    known: &Vec<String>,
    aggs: &Vec<AggregateQuery>,
    errors: &mut Vec<ValidationError>,
    warnings: &mut Vec<ValidationError>,
)
    requires
        texts(known@) == known_ids(creds@, creds@.len() as int),
    ensures
        findings(final(errors)@) == findings(old(errors)@) + aggs_errors_upto(
            creds@,
            aggs@,
            aggs@.len() as int,
        ),
        findings(final(warnings)@) == findings(old(warnings)@) + aggs_warnings_upto(
            creds@,
            aggs@,
            aggs@.len() as int,
        ),
{
    let ghost e0 = findings(errors@);
    let ghost w0 = findings(warnings@);
    let n = aggs.len();
    let mut ai: usize = 0;
    assert(findings(errors@) =~= e0 + aggs_errors_upto(creds@, aggs@, 0));
    assert(findings(warnings@) =~= w0 + aggs_warnings_upto(creds@, aggs@, 0));
    while ai < n
        invariant
            ai <= n,
            n == aggs@.len(),
            texts(known@) == known_ids(creds@, creds@.len() as int),
            findings(errors@) == e0 + aggs_errors_upto(creds@, aggs@, ai as int),
            findings(warnings@) == w0 + aggs_warnings_upto(creds@, aggs@, ai as int),
        decreases n - ai,
    {
        let agg = &aggs[ai];
        let cid = agg.credential_id.as_str();
        proof {
            lemma_first_with_id_bounds(creds@, cid@, creds@.len() as int);
        }
        let agg_loc = indexed_text("aggregates", ai);
        let ghost e1 = findings(errors@);
        let ghost w1 = findings(warnings@);
        if !contains_text(known, cid) {
            let mut m = agg_loc.clone();
            push_str(&mut m, ".credential_id '");
            push_str(&mut m, cid);
            push_str(&mut m, "' does not match any credential id");
            let listed = debug_list_text(known);
            let e = err(
                ErrorCode::UnknownCredentialId,
                m,
                cat(agg_loc.as_str(), ".credential_id"),
                Some(cat("Known credential ids: ", listed.as_str())),
            );
            push_finding(errors, e);
            assert(findings(warnings@) =~= w1 + agg_warnings(creds@, ai as int, aggs@[ai as int]));
        } else {
            match first_with_id_exec(creds, cid) {
                Some(i) => {
                    let multiple = match creds[i].multiple {
                        Some(b) => b,
                        None => false,
                    };
                    if !multiple {
                        let mut m = agg_loc.clone();
                        push_str(&mut m, ": credential '");
                        push_str(&mut m, cid);
                        push_str(
                            &mut m,
                            "' is used in an aggregate but does not have 'multiple: true' — the aggregate will operate on at most one instance",
                        );
                        let mut hint = text("Set '\"multiple\": true' on credential '");
                        push_str(&mut hint, cid);
                        push_str(
                            &mut hint,
                            "' to collect values across all matching credential instances",
                        );
                        let w = warn(
                            ErrorCode::AggregateWithoutMultiple,
                            m,
                            cat(agg_loc.as_str(), ".credential_id"),
                            Some(hint),
                        );
                        push_finding(warnings, w);
                    }
                },
                None => {},
            }
            assert(findings(warnings@) =~= w1 + agg_warnings(creds@, ai as int, aggs@[ai as int]));
            match claim_ids_for_exec(creds, cid) {
                None => {
                    let mut m = agg_loc.clone();
                    push_str(&mut m, ": credential '");
                    push_str(&mut m, cid);
                    push_str(&mut m, "' has no claims with 'id' fields");
                    let e = err(
                        ErrorCode::MissingClaimId,
                        m,
                        cat(agg_loc.as_str(), ".claim_id"),
                        Some(text("Claims used in aggregates must have an 'id' field")),
                    );
                    push_finding(errors, e);
                },
                Some(ids) => {
                    if !contains_text(&ids, agg.claim_id.as_str()) {
                        let mut m = agg_loc.clone();
                        push_str(&mut m, ".claim_id '");
                        push_str(&mut m, agg.claim_id.as_str());
                        push_str(&mut m, "' does not exist in credential '");
                        push_str(&mut m, cid);
                        push_str(&mut m, "'");
                        let mut hint = text("Available claim ids in '");
                        push_str(&mut hint, cid);
                        push_str(&mut hint, "': ");
                        let listed = debug_list_text(&ids);
                        push_str(&mut hint, listed.as_str());
                        let e = err(
                            ErrorCode::UnknownClaimId,
                            m,
                            cat(agg_loc.as_str(), ".claim_id"),
                            Some(hint),
                        );
                        push_finding(errors, e);
                    }
                },
            }
        }
        assert(findings(errors@) =~= e1 + agg_errors(creds@, ai as int, aggs@[ai as int]));
        ai = ai + 1;
    }
}


// ─── the whole query ────────────────────────────────────────────────────────

/// The errors reported for an extended query.
pub open spec fn query_errors(q: ExtendedDcqlQuery) -> Seq<FindingView> {
    validation_errors(
        q.credentials@,
        opt_seq(q.credential_sets),
        opt_seq(q.credential_links),
        opt_seq(q.aggregates),
    )
}

/// The warnings reported for an extended query.
pub open spec fn query_warnings(q: ExtendedDcqlQuery) -> Seq<FindingView> {
    validation_warnings(q.credentials@, opt_seq(q.credential_links), opt_seq(q.aggregates))
}

fn validate_parts(
    creds: &Vec<CredentialQuery>,
    sets: &Option<Vec<CredentialSetQuery>>,
    links: &Option<Vec<CredentialLink>>,
    aggs: &Option<Vec<AggregateQuery>>,
) -> (r: ValidationResult)
    ensures
        findings(r.errors@) == validation_errors(
            creds@,
            opt_seq(*sets),
            opt_seq(*links),
            opt_seq(*aggs),
        ),
        findings(r.warnings@) == validation_warnings(creds@, opt_seq(*links), opt_seq(*aggs)),
{
    let mut errors: Vec<ValidationError> = Vec::new();
    let mut warnings: Vec<ValidationError> = Vec::new();

    // ── 1. credentials must be non-empty ────────────────────────────────────
    if creds.len() == 0 {
        let e = err(
            ErrorCode::EmptyCredentials,
            text("The 'credentials' array must contain at least one CredentialQuery"),
            text("credentials"),
            Some(text("Add at least one credential entry with a unique 'id' and 'format'")),
        );
        push_finding(&mut errors, e);
        assert(findings(errors@) =~= seq![e@]);
        assert(findings(warnings@) =~= Seq::<FindingView>::empty());
        return ValidationResult { errors, warnings };
    }

    // ── 2. Per-credential validation ─────────────────────────────────────────
    let mut known: Vec<String> = Vec::new();
    let n = creds.len();
    let mut ci: usize = 0;
    assert(findings(errors@) =~= creds_errors_upto(creds@, 0));
    assert(findings(warnings@) =~= creds_warnings_upto(creds@, 0));
    assert(texts(known@) =~= known_ids(creds@, 0));
    while ci < n
        invariant
            ci <= n,
            n == creds@.len(),
            texts(known@) == known_ids(creds@, ci as int),
            findings(errors@) == creds_errors_upto(creds@, ci as int),
            findings(warnings@) == creds_warnings_upto(creds@, ci as int),
        decreases n - ci,
    {
        let cred = &creds[ci];
        let ids = id_findings_text(creds, ci, &known);
        append_findings(&mut errors, ids);
        claims_part_text(cred, ci, &mut errors, &mut warnings);
        claim_sets_part_text(cred, ci, &mut errors);
        if !cred.id.as_str().is_empty() && !contains_text(&known, cred.id.as_str()) {
            let t = cred.id.clone();
            proof {
                lemma_texts_push(known@, t);
            }
            known.push(t);
        }
        ci = ci + 1;
    }

    // ── 3. credential_sets ───────────────────────────────────────────────────
    match sets {
        Some(sets) => sets_text(&known, sets, &mut errors),
        None => {
            assert(findings(errors@) =~= findings(errors@) + sets_errors_upto(
                texts(known@),
                opt_seq(None::<Vec<CredentialSetQuery>>),
                0,
            ));
        },
    }

    // ── 4. credential_links ──────────────────────────────────────────────────
    match links {
        Some(links) => links_text(creds, &known, links, &mut errors, &mut warnings),
        None => {
            assert(findings(errors@) =~= findings(errors@) + links_errors_upto(
                creds@,
                Seq::<CredentialLink>::empty(),
                0,
            ));
            assert(findings(warnings@) =~= findings(warnings@) + links_warnings_upto(
                Seq::<CredentialLink>::empty(),
                0,
            ));
        },
    }

    // ── 5. aggregates ────────────────────────────────────────────────────────
    match aggs {
        Some(aggs) => aggs_text(creds, &known, aggs, &mut errors, &mut warnings),
        None => {
            assert(findings(errors@) =~= findings(errors@) + aggs_errors_upto(
                creds@,
                Seq::<AggregateQuery>::empty(),
                0,
            ));
            assert(findings(warnings@) =~= findings(warnings@) + aggs_warnings_upto(
                creds@,
                Seq::<AggregateQuery>::empty(),
                0,
            ));
        },
    }
    ValidationResult { errors, warnings }
}

fn validate_extended(query: &ExtendedDcqlQuery) -> (r: ValidationResult)
    ensures
        findings(r.errors@) == query_errors(*query),
        findings(r.warnings@) == query_warnings(*query),
{
    validate_parts(
        &query.credentials,
        &query.credential_sets,
        &query.credential_links,
        &query.aggregates,
    )
}

// ─── trait ──────────────────────────────────────────────────────────────────

/// Validates a DCQL or DCQL+ query, collecting all findings in one pass.
pub trait DcqlValidate {
    fn validate(&self) -> ValidationResult;
}

impl DcqlValidate for ExtendedDcqlQuery {
    fn validate(&self) -> (r: ValidationResult)
        ensures
            findings(r.errors@) == query_errors(*self),
            findings(r.warnings@) == query_warnings(*self),
    {
        validate_extended(self)
    }
}

impl DcqlValidate for DcqlQuery {
    /// Validates the query as the extended query it converts to.
    fn validate(&self) -> (r: ValidationResult)
        ensures
            findings(r.errors@) == validation_errors(
                self.credentials@,
                opt_seq(self.credential_sets),
                seq![],
                seq![],
            ),
            findings(r.warnings@) == validation_warnings(self.credentials@, seq![], seq![]),
    {
        let r = validate_parts(&self.credentials, &self.credential_sets, &None, &None);
        assert(opt_seq(None::<Vec<CredentialLink>>) =~= Seq::<CredentialLink>::empty());
        assert(opt_seq(None::<Vec<AggregateQuery>>) =~= Seq::<AggregateQuery>::empty());
        r
    }
}

// ─── results ────────────────────────────────────────────────────────────────

impl ValidationResult {
    pub fn is_valid(&self) -> (r: bool)
        ensures
            r == (self.errors@.len() == 0),
    {
        self.errors.len() == 0
    }

    /// All findings (errors first, then warnings).
    pub fn all(&self) -> (r: Vec<&ValidationError>)
        ensures
            r@.len() == self.errors@.len() + self.warnings@.len(),
            forall|i: int| 0 <= i < self.errors@.len() ==> *r@[i] == self.errors@[i],
            forall|i: int|
                0 <= i < self.warnings@.len() ==> *r@[self.errors@.len() + i] == self.warnings@[i],
    {
        let mut out: Vec<&ValidationError> = Vec::new();
        let ne = self.errors.len();
        let mut i: usize = 0;
        while i < ne
            invariant
                i <= ne,
                ne == self.errors@.len(),
                out@.len() == i,
                forall|k: int| 0 <= k < i ==> *out@[k] == self.errors@[k],
            decreases ne - i,
        {
            out.push(&self.errors[i]);
            i = i + 1;
        }
        let nw = self.warnings.len();
        let mut j: usize = 0;
        while j < nw
            invariant
                j <= nw,
                nw == self.warnings@.len(),
                ne == self.errors@.len(),
                out@.len() == ne + j,
                forall|k: int| 0 <= k < ne ==> *out@[k] == self.errors@[k],
                forall|k: int| 0 <= k < j ==> *out@[ne + k] == self.warnings@[k],
            decreases nw - j,
        {
            out.push(&self.warnings[j]);
            j = j + 1;
        }
        out
    }

    /// Converts to `Ok(warnings)` if valid, `Err(errors)` otherwise.
    pub fn into_result(self) -> (r: Result<Vec<ValidationError>, Vec<ValidationError>>)
        ensures
            self.errors@.len() == 0 ==> r == Ok::<Vec<ValidationError>, Vec<ValidationError>>(
                self.warnings,
            ),
            self.errors@.len() != 0 ==> r == Err::<Vec<ValidationError>, Vec<ValidationError>>(
                self.errors,
            ),
    {
        if self.errors.len() == 0 {
            Ok(self.warnings)
        } else {
            Err(self.errors)
        }
    }

    /// Every finding on a line of its own, then a summary with the counts.
    pub fn to_string(&self) -> (r: String)
        ensures
            r@ == result_text(findings(self.errors@), findings(self.warnings@)),
    {
        let ghost ev = findings(self.errors@);
        let ghost wv = findings(self.warnings@);
        let ghost allv = ev + wv;
        let items = self.all();
        assert forall|k: int| 0 <= k < items@.len() implies (*items@[k])@ == allv[k] by {
            if k < self.errors@.len() {
                assert(allv[k] == ev[k]);
            } else {
                assert(allv[k] == wv[k - self.errors@.len()]);
                assert(*items@[k] == self.warnings@[k - self.errors@.len()]);
            }
        }
        let mut out = String::new();
        let n = items.len();
        let mut i: usize = 0;
        while i < n
            invariant
                i <= n,
                n == items@.len(),
                n == allv.len(),
                forall|k: int| 0 <= k < n ==> (*items@[k])@ == allv[k],
                out@ == findings_lines(allv, i as int),
            decreases n - i,
        {
            let line = items[i].to_string();
            push_str(&mut out, line.as_str());
            push_str(&mut out, "\n");
            i = i + 1;
        }
        if self.errors.len() == 0 {
            push_str(&mut out, "valid (");
            let d = decimal_text(self.warnings.len() as u64);
            push_str(&mut out, d.as_str());
            push_str(&mut out, " warning(s))");
        } else {
            push_str(&mut out, "invalid: ");
            let d = decimal_text(self.errors.len() as u64);
            push_str(&mut out, d.as_str());
            push_str(&mut out, " error(s), ");
            let d2 = decimal_text(self.warnings.len() as u64);
            push_str(&mut out, d2.as_str());
            push_str(&mut out, " warning(s)");
        }
        out
    }
}

impl Severity {
    pub fn to_string(&self) -> (r: String)
        ensures
            r@ == severity_text(*self),
    {
        match self {
            Severity::Error => text("ERROR"),
            Severity::Warning => text("WARN"),
        }
    }
}

impl ErrorCode {
    /// The name of the code.
    pub fn to_string(&self) -> (r: String)
        ensures
            r@ == code_text(*self),
    {
        match self {
            ErrorCode::EmptyCredentials => text("EmptyCredentials"),
            ErrorCode::EmptyClaimsArray => text("EmptyClaimsArray"),
            ErrorCode::EmptyPath => text("EmptyPath"),
            ErrorCode::EmptyOptions => text("EmptyOptions"),
            ErrorCode::DuplicateCredentialId => text("DuplicateCredentialId"),
            ErrorCode::DuplicateClaimId => text("DuplicateClaimId"),
            ErrorCode::InvalidCredentialId => text("InvalidCredentialId"),
            ErrorCode::MissingClaimId => text("MissingClaimId"),
            ErrorCode::UnknownCredentialId => text("UnknownCredentialId"),
            ErrorCode::UnknownClaimId => text("UnknownClaimId"),
            ErrorCode::ClaimSetsWithoutClaims => text("ClaimSetsWithoutClaims"),
            ErrorCode::NoClaimsSpecified => text("NoClaimsSpecified"),
            ErrorCode::AggregateWithoutMultiple => text("AggregateWithoutMultiple"),
            ErrorCode::FilterAndValuesBothPresent => text("FilterAndValuesBothPresent"),
            ErrorCode::SelfLinkDetected => text("SelfLinkDetected"),
        }
    }
}

impl ValidationError {
    /// `[SEVERITY] Code at 'location': message`, then the hint on its own line.
    pub fn to_string(&self) -> (r: String)
        ensures
            r@ == finding_text(self@),
    {
        let mut out = text("[");
        let sev = self.severity.to_string();
        push_str(&mut out, sev.as_str());
        push_str(&mut out, "] ");
        let code = self.code.to_string();
        push_str(&mut out, code.as_str());
        push_str(&mut out, " at '");
        push_str(&mut out, self.location.as_str());
        push_str(&mut out, "': ");
        push_str(&mut out, self.message.as_str());
        match &self.hint {
            Some(h) => {
                push_str(&mut out, "\n  hint: ");
                push_str(&mut out, h.as_str());
            },
            None => {},
        }
        out
    }
}


// ─── validation and translation ─────────────────────────────────────────────

proof fn lemma_creds_errors_each(creds: Seq<CredentialQuery>, n: int, i: int)
    requires
        0 <= i < n,
        creds_errors_upto(creds, n).len() == 0,
    ensures
        cred_errors(creds, i).len() == 0,
    decreases n,
{
    if i < n - 1 {
        lemma_creds_errors_each(creds, n - 1, i);
    }
}

proof fn lemma_claims_errors_each(
    cred: CredentialQuery,
    ci: int,
    claims: Seq<ClaimQuery>,
    n: int,
    j: int,
)
    requires
        0 <= j < n,
        claims_errors_upto(cred, ci, claims, n).len() == 0,
    ensures
        claim_errors(cred, ci, claims, j).len() == 0,
    decreases n,
{
    if j < n - 1 {
        lemma_claims_errors_each(cred, ci, claims, n - 1, j);
    }
}

proof fn lemma_links_errors_each(
    creds: Seq<CredentialQuery>,
    links: Seq<CredentialLink>,
    n: int,
    k: int,
)
    requires
        0 <= k < n,
        links_errors_upto(creds, links, n).len() == 0,
    ensures
        link_errors(creds, k, links[k]).len() == 0,
    decreases n,
{
    if k < n - 1 {
        lemma_links_errors_each(creds, links, n - 1, k);
    }
}

proof fn lemma_aggs_errors_each(
    creds: Seq<CredentialQuery>,
    aggs: Seq<AggregateQuery>,
    n: int,
    k: int,
)
    requires
        0 <= k < n,
        aggs_errors_upto(creds, aggs, n).len() == 0,
    ensures
        agg_errors(creds, k, aggs[k]).len() == 0,
    decreases n,
{
    if k < n - 1 {
        lemma_aggs_errors_each(creds, aggs, n - 1, k);
    }
}

/// A listed claim id is the id of some claim.
proof fn lemma_claim_ids_witness(claims: Seq<ClaimQuery>, n: int, x: Seq<char>) -> (j: int)
    requires
        0 <= n <= claims.len(),
        claim_ids(claims, n).contains(x),
    ensures
        0 <= j < n,
        claims[j].id matches Some(id) && id@ == x,
    decreases n,
{
    let k = claim_ids(claims, n - 1);
    if k.contains(x) {
        lemma_claim_ids_witness(claims, n - 1, x)
    } else {
        n - 1
    }
}

proof fn lemma_claims_holder_facts(creds: Seq<CredentialQuery>, id: Seq<char>, n: int)
    requires
        n <= creds.len(),
    ensures
        claims_holder(creds, id, n) matches Some(i) ==> 0 <= i < n && creds[i].id@ == id,
    decreases n,
{
    if n > 0 {
        lemma_claims_holder_facts(creds, id, n - 1);
    }
}

/// When references into credential `id` are checked against claim ids that
/// include `x`, a credential with that id has a claim with key `x`.
proof fn lemma_claim_ids_for_key(creds: Seq<CredentialQuery>, id: Seq<char>, x: Seq<char>)
    requires
        claim_ids_for(creds, id) matches Some(ids) && ids.contains(x),
    ensures
        has_claim_key(creds, id, x),
{
    lemma_claims_holder_facts(creds, id, creds.len() as int);
    let i = claims_holder(creds, id, creds.len() as int)->0;
    let cs = creds[i].claims->0;
    let j = lemma_claim_ids_witness(cs@, cs@.len() as int, x);
    assert(claims_of(creds[i]) == cs@);
    assert(claim_key(claims_of(creds[i])[j], j) == x);
}

proof fn lemma_no_link_error_from(creds: Seq<CredentialQuery>, links: Seq<CredentialLink>, from: int)
    requires
        0 <= from,
        forall|k: int| 0 <= k < links.len() ==> link_translation_error(creds, #[trigger] links[k]).is_none(),
    ensures
        first_link_translation_error(creds, links, from).is_none(),
    decreases links.len() - from,
{
    if from < links.len() {
        lemma_no_link_error_from(creds, links, from + 1);
    }
}

proof fn lemma_no_agg_error_from(creds: Seq<CredentialQuery>, aggs: Seq<AggregateQuery>, from: int)
    requires
        0 <= from,
        forall|k: int| 0 <= k < aggs.len() ==> agg_translation_error(creds, #[trigger] aggs[k]).is_none(),
    ensures
        first_agg_translation_error(creds, aggs, from).is_none(),
    decreases aggs.len() - from,
{
    if from < aggs.len() {
        lemma_no_agg_error_from(creds, aggs, from + 1);
    }
}

/// A query that validation reports no error for translates without error:
/// warnings never block translation.
pub proof fn lemma_valid_query_translates(q: ExtendedDcqlQuery)
    requires
        query_errors(q).len() == 0,
    ensures
        translation_error(q).is_none(),
{
    let creds = q.credentials@;
    let n = creds.len() as int;
    let links = opt_seq(q.credential_links);
    let aggs = opt_seq(q.aggregates);
    assert(links == links_of(q));
    assert(aggs == aggs_of(q));
    // no claim has an empty path
    assert forall|i: int| 0 <= i < n implies !cred_has_empty_path(#[trigger] creds[i]) by {
        lemma_creds_errors_each(creds, n, i);
        let cred = creds[i];
        if cred_has_empty_path(cred) {
            let j = choose|j: int|
                0 <= j < claims_of(cred).len() && (#[trigger] claims_of(cred)[j]).path@.len()
                    == 0;
            let cs = cred.claims->0;
            assert(cs@.len() > 0);
            lemma_claims_errors_each(cred, i, cs@, cs@.len() as int, j);
        }
    }
    // every link names claims that exist
    assert forall|k: int| 0 <= k < links.len() implies link_translation_error(
        creds,
        #[trigger] links[k],
    ).is_none() by {
        lemma_links_errors_each(creds, links, links.len() as int, k);
        let l = links[k];
        lemma_claim_ids_for_key(creds, l.left_credential@, l.left_claim@);
        lemma_claim_ids_for_key(creds, l.right_credential@, l.right_claim@);
    }
    lemma_no_link_error_from(creds, links, 0);
    // every aggregate reads a claim that exists
    assert forall|k: int| 0 <= k < aggs.len() implies agg_translation_error(
        creds,
        #[trigger] aggs[k],
    ).is_none() by {
        lemma_aggs_errors_each(creds, aggs, aggs.len() as int, k);
        let a = aggs[k];
        lemma_claim_ids_for_key(creds, a.credential_id@, a.claim_id@);
    }
    lemma_no_agg_error_from(creds, aggs, 0);
}


// ─── validation and the checks of parsing ───────────────────────────────────

proof fn lemma_known_ids_sound(creds: Seq<CredentialQuery>, n: int, id: Seq<char>)
    requires
        0 <= n <= creds.len(),
        known_ids(creds, n).contains(id),
    ensures
        id.len() > 0,
        exists|j: int| 0 <= j < n && (#[trigger] creds[j]).id@ == id,
    decreases n,
{
    if n > 0 {
        let k = known_ids(creds, n - 1);
        if k.contains(id) {
            lemma_known_ids_sound(creds, n - 1, id);
        } else {
            assert(creds[n - 1].id@ == id);
        }
    }
}

proof fn lemma_known_ids_complete(creds: Seq<CredentialQuery>, n: int, j: int)
    requires
        0 <= j < n <= creds.len(),
        creds[j].id@.len() > 0,
    ensures
        known_ids(creds, n).contains(creds[j].id@),
    decreases n,
{
    let k = known_ids(creds, n - 1);
    if j < n - 1 {
        lemma_known_ids_complete(creds, n - 1, j);
        if !(creds[n - 1].id@.len() > 0 && !k.contains(creds[n - 1].id@)) {
        } else {
            assert(k.push(creds[n - 1].id@).contains(creds[j].id@)) by {
                let w = choose|w: int| 0 <= w < k.len() && k[w] == creds[j].id@;
                assert(k.push(creds[n - 1].id@)[w] == creds[j].id@);
            }
        }
    } else {
        if !k.contains(creds[j].id@) {
            assert(k.push(creds[j].id@)[k.len() as int] == creds[j].id@);
        }
    }
}

proof fn lemma_no_duplicate_from(creds: Seq<CredentialQuery>, from: int)
    requires
        0 <= from,
        forall|i: int| 0 <= i < creds.len() ==> !has_credential(creds.take(i), #[trigger] creds[i].id@),
    ensures
        first_duplicate_from(creds, from).is_none(),
    decreases creds.len() - from,
{
    if from < creds.len() {
        lemma_no_duplicate_from(creds, from + 1);
    }
}

proof fn lemma_no_link_reference_error_from(
    creds: Seq<CredentialQuery>,
    links: Seq<CredentialLink>,
    from: int,
)
    requires
        0 <= from,
        forall|k: int| 0 <= k < links.len() ==> link_reference_error(creds, #[trigger] links[k]).is_none(),
    ensures
        first_link_error(creds, links, from).is_none(),
    decreases links.len() - from,
{
    if from < links.len() {
        lemma_no_link_reference_error_from(creds, links, from + 1);
    }
}

/// A link side with no findings names a credential and a claim id that exist.
proof fn lemma_clean_link_side(
    creds: Seq<CredentialQuery>,
    li: int,
    side: Seq<char>,
    cred_id: Seq<char>,
    claim_id: Seq<char>,
)
    requires
        link_side_errors(creds, li, side, cred_id, claim_id).len() == 0,
    ensures
        has_credential(creds, cred_id),
        has_claim_id(creds, cred_id, claim_id),
{
    let known = known_ids(creds, creds.len() as int);
    assert(known.contains(cred_id));
    lemma_known_ids_sound(creds, creds.len() as int, cred_id);
    let w = choose|j: int| 0 <= j < creds.len() && (#[trigger] creds[j]).id@ == cred_id;
    assert(has_credential(creds, cred_id)) by {
        assert(creds[w].id@ == cred_id);
    }
    lemma_claims_holder_facts(creds, cred_id, creds.len() as int);
    let i = claims_holder(creds, cred_id, creds.len() as int)->0;
    let cs = creds[i].claims->0;
    let j = lemma_claim_ids_witness(cs@, cs@.len() as int, claim_id);
    assert(claim_has_id(cs@[j], claim_id));
    assert(credential_has_claim_id(creds[i], claim_id));
}

/// Every query that the checks of `from_json` refuse, validation reports as
/// invalid, unless it links a credential to itself: the checks refuse such a
/// link, while validation warns only of a link between one claim and itself.
pub proof fn lemma_refused_query_is_invalid(q: ExtendedDcqlQuery)
    requires
        extended_query_error(q).is_some(),
    ensures
        query_errors(q).len() > 0 || has_self_link(q),
{
    let creds = q.credentials@;
    let n = creds.len() as int;
    if creds.len() > 0 && query_errors(q).len() == 0 && !has_self_link(q) {
        // every credential id is non-empty and new
        assert forall|i: int| 0 <= i < n implies !has_credential(
            creds.take(i),
            #[trigger] creds[i].id@,
        ) by {
            lemma_creds_errors_each(creds, n, i);
            assert(creds[i].id@.len() > 0);
            if has_credential(creds.take(i), creds[i].id@) {
                let j = choose|j: int|
                    0 <= j < creds.take(i).len() && (#[trigger] creds.take(i)[j]).id@
                        == creds[i].id@;
                assert(creds.take(i)[j] == creds[j]);
                lemma_known_ids_complete(creds, i, j);
            }
        }
        lemma_no_duplicate_from(creds, 0);
        // every link refers to credentials and claims that exist
        let links = opt_seq(q.credential_links);
        assert forall|k: int| 0 <= k < links.len() implies link_reference_error(
            creds,
            #[trigger] links[k],
        ).is_none() by {
            lemma_links_errors_each(creds, links, links.len() as int, k);
            let l = links[k];
            lemma_clean_link_side(creds, k, "left"@, l.left_credential@, l.left_claim@);
            lemma_clean_link_side(creds, k, "right"@, l.right_credential@, l.right_claim@);
            match q.credential_links {
                Some(ls) => {
                    assert(ls@ == links);
                    assert(ls@[k] == l);
                },
                None => {},
            }
        }
        lemma_no_link_reference_error_from(creds, links, 0);
        match q.credential_links {
            Some(ls) => {
                assert(ls@ == links);
            },
            None => {},
        }
        assert(extended_query_error(q).is_none());
    }
}

/// Validating a standard DCQL query reports exactly the errors and warnings
/// that validating the extended query it converts to reports.
pub proof fn lemma_dcql_validates_as_extended(q: DcqlQuery)
    ensures
        validation_errors(q.credentials@, opt_seq(q.credential_sets), seq![], seq![]) == query_errors(
            extended_of(q),
        ),
        validation_warnings(q.credentials@, seq![], seq![]) == query_warnings(extended_of(q)),
{
    assert(opt_seq(None::<Vec<CredentialLink>>) =~= Seq::<CredentialLink>::empty());
    assert(opt_seq(None::<Vec<AggregateQuery>>) =~= Seq::<AggregateQuery>::empty());
}

// ─── errors and warnings are kept apart ─────────────────────────────────────

/// The codes that only warnings carry.
pub open spec fn is_warning_code(c: ErrorCode) -> bool {
    ||| c == ErrorCode::NoClaimsSpecified
    ||| c == ErrorCode::AggregateWithoutMultiple
    ||| c == ErrorCode::FilterAndValuesBothPresent
    ||| c == ErrorCode::SelfLinkDetected
}

/// Every finding is an error, with a code that warnings do not use.
pub open spec fn all_errors(s: Seq<FindingView>) -> bool {
    forall|i: int|
        0 <= i < s.len() ==> (#[trigger] s[i]).severity == Severity::Error && !is_warning_code(
            s[i].code,
        )
}

/// Every finding is a warning, with one of the warning codes.
pub open spec fn all_warnings(s: Seq<FindingView>) -> bool {
    forall|i: int|
        0 <= i < s.len() ==> (#[trigger] s[i]).severity == Severity::Warning && is_warning_code(
            s[i].code,
        )
}

proof fn lemma_all_errors_concat(a: Seq<FindingView>, b: Seq<FindingView>)
    requires
        all_errors(a),
        all_errors(b),
    ensures
        all_errors(a + b),
{
    assert forall|i: int| 0 <= i < (a + b).len() implies (#[trigger] (a + b)[i]).severity
        == Severity::Error && !is_warning_code((a + b)[i].code) by {
        if i < a.len() {
            assert((a + b)[i] == a[i]);
        } else {
            assert((a + b)[i] == b[i - a.len()]);
        }
    }
}

proof fn lemma_all_warnings_concat(a: Seq<FindingView>, b: Seq<FindingView>)
    requires
        all_warnings(a),
        all_warnings(b),
    ensures
        all_warnings(a + b),
{
    assert forall|i: int| 0 <= i < (a + b).len() implies (#[trigger] (a + b)[i]).severity
        == Severity::Warning && is_warning_code((a + b)[i].code) by {
        if i < a.len() {
            assert((a + b)[i] == a[i]);
        } else {
            assert((a + b)[i] == b[i - a.len()]);
        }
    }
}

proof fn lemma_id_findings_are_errors(creds: Seq<CredentialQuery>, ci: int)
    ensures
        all_errors(id_findings(creds, ci)),
{
    let id = creds[ci].id@;
    let loc = indexed("credentials"@, ci) + ".id"@;
    if id.len() > 0 {
        let bad = invalid_chars(id);
        let first: Seq<FindingView> = if bad.len() > 0 {
            seq![
                error_finding(
                    ErrorCode::InvalidCredentialId,
                    "Credential id '"@ + id + "' contains invalid character(s): "@ + join(
                        bad.map_values(|c: char| quoted_char(c)),
                        ", "@,
                    ),
                    loc,
                    "Credential IDs must match [a-zA-Z0-9_-]+"@,
                ),
            ]
        } else {
            seq![]
        };
        let second: Seq<FindingView> = if known_ids(creds, ci).contains(id) {
            seq![
                error_finding(
                    ErrorCode::DuplicateCredentialId,
                    "Credential id '"@ + id + "' is defined more than once"@,
                    loc,
                    "Each credential must have a unique 'id' within the query"@,
                ),
            ]
        } else {
            seq![]
        };
        assert(all_errors(first));
        assert(all_errors(second));
        lemma_all_errors_concat(first, second);
        assert(id_findings(creds, ci) == first + second);
    }
}

proof fn lemma_claims_errors_are_errors(
    cred: CredentialQuery,
    ci: int,
    claims: Seq<ClaimQuery>,
    n: int,
)
    ensures
        all_errors(claims_errors_upto(cred, ci, claims, n)),
    decreases n,
{
    if n > 0 {
        lemma_claims_errors_are_errors(cred, ci, claims, n - 1);
        let c = claims[n - 1];
        let claim_loc = indexed("credentials"@, ci) + indexed(".claims"@, n - 1);
        let first: Seq<FindingView> = if c.path@.len() == 0 {
            seq![
                error_finding(
                    ErrorCode::EmptyPath,
                    "Claim 'path' must contain at least one element"@,
                    claim_loc + ".path"@,
                    "Example: [\"credentialSubject\", \"name\"] selects the name field"@,
                ),
            ]
        } else {
            seq![]
        };
        let second: Seq<FindingView> = match c.id {
            Some(id) => if claim_ids(claims, n - 1).contains(id@) {
                seq![
                    error_finding(
                        ErrorCode::DuplicateClaimId,
                        "Claim id '"@ + id@ + "' appears more than once in credential '"@
                            + cred.id@ + "'"@,
                        claim_loc + ".id"@,
                        "Each claim within a credential must have a unique 'id'"@,
                    ),
                ]
            } else {
                seq![]
            },
            None => seq![],
        };
        assert(all_errors(first));
        assert(all_errors(second));
        lemma_all_errors_concat(first, second);
        assert(claim_errors(cred, ci, claims, n - 1) == first + second);
        lemma_all_errors_concat(
            claims_errors_upto(cred, ci, claims, n - 1),
            claim_errors(cred, ci, claims, n - 1),
        );
    }
}

proof fn lemma_claim_set_errors_are_errors(
    cred: CredentialQuery,
    ci: int,
    ids: Seq<Seq<char>>,
    set: Seq<String>,
    si: int,
    n: int,
)
    ensures
        all_errors(claim_set_errors(cred, ci, ids, set, si, n)),
    decreases n,
{
    if n > 0 {
        lemma_claim_set_errors_are_errors(cred, ci, ids, set, si, n - 1);
        let r = set[n - 1]@;
        let last: Seq<FindingView> = if ids.contains(r) {
            seq![]
        } else {
            seq![
                error_finding(
                    ErrorCode::UnknownClaimId,
                    indexed(indexed("claim_sets"@, si), n - 1) + " references claim id '"@ + r
                        + "' which does not exist in credential '"@ + cred.id@ + "'"@,
                    indexed("credentials"@, ci) + indexed(indexed(".claim_sets"@, si), n - 1),
                    "Available claim ids with 'id' set: "@ + debug_list(ids),
                ),
            ]
        };
        assert(all_errors(last));
        lemma_all_errors_concat(claim_set_errors(cred, ci, ids, set, si, n - 1), last);
        assert(claim_set_errors(cred, ci, ids, set, si, n) == claim_set_errors(
            cred,
            ci,
            ids,
            set,
            si,
            n - 1,
        ) + last);
    }
}

proof fn lemma_claim_sets_errors_are_errors(
    cred: CredentialQuery,
    ci: int,
    ids: Seq<Seq<char>>,
    sets: Seq<Vec<String>>,
    n: int,
)
    ensures
        all_errors(claim_sets_errors_upto(cred, ci, ids, sets, n)),
    decreases n,
{
    if n > 0 {
        lemma_claim_sets_errors_are_errors(cred, ci, ids, sets, n - 1);
        lemma_claim_set_errors_are_errors(
            cred,
            ci,
            ids,
            sets[n - 1]@,
            n - 1,
            sets[n - 1]@.len() as int,
        );
        lemma_all_errors_concat(
            claim_sets_errors_upto(cred, ci, ids, sets, n - 1),
            claim_set_errors(cred, ci, ids, sets[n - 1]@, n - 1, sets[n - 1]@.len() as int),
        );
    }
}

proof fn lemma_creds_errors_are_errors(creds: Seq<CredentialQuery>, n: int)
    ensures
        all_errors(creds_errors_upto(creds, n)),
    decreases n,
{
    if n > 0 {
        lemma_creds_errors_are_errors(creds, n - 1);
        let ci = n - 1;
        let cred = creds[ci];
        lemma_id_findings_are_errors(creds, ci);
        match cred.claims {
            Some(cs) => {
                lemma_claims_errors_are_errors(cred, ci, cs@, cs@.len() as int);
            },
            None => {},
        }
        assert(all_errors(claims_part_errors(cred, ci)));
        match cred.claim_sets {
            Some(sets) => match cred.claims {
                Some(cs) => {
                    lemma_claim_sets_errors_are_errors(
                        cred,
                        ci,
                        claim_ids(cs@, cs@.len() as int),
                        sets@,
                        sets@.len() as int,
                    );
                },
                None => {},
            },
            None => {},
        }
        assert(all_errors(claim_sets_part_errors(cred, ci)));
        lemma_all_errors_concat(id_findings(creds, ci), claims_part_errors(cred, ci));
        lemma_all_errors_concat(
            id_findings(creds, ci) + claims_part_errors(cred, ci),
            claim_sets_part_errors(cred, ci),
        );
        lemma_all_errors_concat(creds_errors_upto(creds, n - 1), cred_errors(creds, ci));
    }
}

proof fn lemma_option_errors_are_errors(
    known: Seq<Seq<char>>,
    si: int,
    oi: int,
    option: Seq<String>,
    n: int,
)
    ensures
        all_errors(option_errors(known, si, oi, option, n)),
    decreases n,
{
    if n > 0 {
        lemma_option_errors_are_errors(known, si, oi, option, n - 1);
        let r = option[n - 1]@;
        let loc = indexed(indexed(indexed("credential_sets"@, si) + ".options"@, oi), n - 1);
        let last: Seq<FindingView> = if known.contains(r) {
            seq![]
        } else {
            seq![
                error_finding(
                    ErrorCode::UnknownCredentialId,
                    loc + " references unknown credential id '"@ + r + "'"@,
                    loc,
                    "Known credential ids: "@ + debug_list(known),
                ),
            ]
        };
        assert(all_errors(last));
        lemma_all_errors_concat(option_errors(known, si, oi, option, n - 1), last);
        assert(option_errors(known, si, oi, option, n) == option_errors(
            known,
            si,
            oi,
            option,
            n - 1,
        ) + last);
    }
}

proof fn lemma_sets_errors_are_errors(
    known: Seq<Seq<char>>,
    sets: Seq<CredentialSetQuery>,
    n: int,
)
    ensures
        all_errors(sets_errors_upto(known, sets, n)),
    decreases n,
{
    if n > 0 {
        lemma_sets_errors_are_errors(known, sets, n - 1);
        let set = sets[n - 1];
        if set.options@.len() > 0 {
            lemma_options_errors_are_errors(
                known,
                n - 1,
                set.options@,
                set.options@.len() as int,
            );
        }
        assert(all_errors(set_errors(known, n - 1, set)));
        lemma_all_errors_concat(sets_errors_upto(known, sets, n - 1), set_errors(known, n - 1, set));
    }
}

proof fn lemma_options_errors_are_errors(
    known: Seq<Seq<char>>,
    si: int,
    options: Seq<Vec<String>>,
    n: int,
)
    ensures
        all_errors(options_errors_upto(known, si, options, n)),
    decreases n,
{
    if n > 0 {
        lemma_options_errors_are_errors(known, si, options, n - 1);
        lemma_option_errors_are_errors(
            known,
            si,
            n - 1,
            options[n - 1]@,
            options[n - 1]@.len() as int,
        );
        lemma_all_errors_concat(
            options_errors_upto(known, si, options, n - 1),
            option_errors(known, si, n - 1, options[n - 1]@, options[n - 1]@.len() as int),
        );
    }
}

proof fn lemma_links_errors_are_errors(
    creds: Seq<CredentialQuery>,
    links: Seq<CredentialLink>,
    n: int,
)
    ensures
        all_errors(links_errors_upto(creds, links, n)),
    decreases n,
{
    if n > 0 {
        lemma_links_errors_are_errors(creds, links, n - 1);
        let l = links[n - 1];
        let left = link_side_errors(creds, n - 1, "left"@, l.left_credential@, l.left_claim@);
        let right = link_side_errors(creds, n - 1, "right"@, l.right_credential@, l.right_claim@);
        assert(all_errors(left));
        assert(all_errors(right));
        lemma_all_errors_concat(left, right);
        lemma_all_errors_concat(links_errors_upto(creds, links, n - 1), left + right);
    }
}

proof fn lemma_aggs_errors_are_errors(
    creds: Seq<CredentialQuery>,
    aggs: Seq<AggregateQuery>,
    n: int,
)
    ensures
        all_errors(aggs_errors_upto(creds, aggs, n)),
    decreases n,
{
    if n > 0 {
        lemma_aggs_errors_are_errors(creds, aggs, n - 1);
        assert(all_errors(agg_errors(creds, n - 1, aggs[n - 1])));
        lemma_all_errors_concat(
            aggs_errors_upto(creds, aggs, n - 1),
            agg_errors(creds, n - 1, aggs[n - 1]),
        );
    }
}

proof fn lemma_claims_warnings_are_warnings(ci: int, claims: Seq<ClaimQuery>, n: int)
    ensures
        all_warnings(claims_warnings_upto(ci, claims, n)),
    decreases n,
{
    if n > 0 {
        lemma_claims_warnings_are_warnings(ci, claims, n - 1);
        assert(all_warnings(claim_warnings(ci, claims, n - 1)));
        lemma_all_warnings_concat(
            claims_warnings_upto(ci, claims, n - 1),
            claim_warnings(ci, claims, n - 1),
        );
    }
}

proof fn lemma_creds_warnings_are_warnings(creds: Seq<CredentialQuery>, n: int)
    ensures
        all_warnings(creds_warnings_upto(creds, n)),
    decreases n,
{
    if n > 0 {
        lemma_creds_warnings_are_warnings(creds, n - 1);
        let cred = creds[n - 1];
        match cred.claims {
            Some(cs) => {
                lemma_claims_warnings_are_warnings(n - 1, cs@, cs@.len() as int);
            },
            None => {},
        }
        assert(all_warnings(cred_warnings(cred, n - 1)));
        lemma_all_warnings_concat(creds_warnings_upto(creds, n - 1), cred_warnings(cred, n - 1));
    }
}

proof fn lemma_links_warnings_are_warnings(links: Seq<CredentialLink>, n: int)
    ensures
        all_warnings(links_warnings_upto(links, n)),
    decreases n,
{
    if n > 0 {
        lemma_links_warnings_are_warnings(links, n - 1);
        assert(all_warnings(link_warnings(n - 1, links[n - 1])));
        lemma_all_warnings_concat(
            links_warnings_upto(links, n - 1),
            link_warnings(n - 1, links[n - 1]),
        );
    }
}

proof fn lemma_aggs_warnings_are_warnings(
    creds: Seq<CredentialQuery>,
    aggs: Seq<AggregateQuery>,
    n: int,
)
    ensures
        all_warnings(aggs_warnings_upto(creds, aggs, n)),
    decreases n,
{
    if n > 0 {
        lemma_aggs_warnings_are_warnings(creds, aggs, n - 1);
        assert(all_warnings(agg_warnings(creds, n - 1, aggs[n - 1])));
        lemma_all_warnings_concat(
            aggs_warnings_upto(creds, aggs, n - 1),
            agg_warnings(creds, n - 1, aggs[n - 1]),
        );
    }
}

/// Errors and warnings are kept apart: every error carries the error severity
/// and none of the four warning codes, and every warning carries the warning
/// severity and one of them. So warnings never make a query invalid.
pub proof fn lemma_errors_and_warnings_apart(q: ExtendedDcqlQuery)
    ensures
        all_errors(query_errors(q)),
        all_warnings(query_warnings(q)),
{
    let creds = q.credentials@;
    let sets = opt_seq(q.credential_sets);
    let links = opt_seq(q.credential_links);
    let aggs = opt_seq(q.aggregates);
    if creds.len() > 0 {
        let n = creds.len() as int;
        lemma_creds_errors_are_errors(creds, n);
        lemma_sets_errors_are_errors(known_ids(creds, n), sets, sets.len() as int);
        lemma_links_errors_are_errors(creds, links, links.len() as int);
        lemma_aggs_errors_are_errors(creds, aggs, aggs.len() as int);
        let a = creds_errors_upto(creds, n);
        let b = sets_errors_upto(known_ids(creds, n), sets, sets.len() as int);
        let c = links_errors_upto(creds, links, links.len() as int);
        let d = aggs_errors_upto(creds, aggs, aggs.len() as int);
        lemma_all_errors_concat(a, b);
        lemma_all_errors_concat(a + b, c);
        lemma_all_errors_concat(a + b + c, d);
        lemma_creds_warnings_are_warnings(creds, n);
        lemma_links_warnings_are_warnings(links, links.len() as int);
        lemma_aggs_warnings_are_warnings(creds, aggs, aggs.len() as int);
        let w1 = creds_warnings_upto(creds, n);
        let w2 = links_warnings_upto(links, links.len() as int);
        let w3 = aggs_warnings_upto(creds, aggs, aggs.len() as int);
        lemma_all_warnings_concat(w1, w2);
        lemma_all_warnings_concat(w1 + w2, w3);
    }
}

// ─── self-link warnings ─────────────────────────────────────────────────────

/// No finding carries the code.
pub open spec fn lacks_code(s: Seq<FindingView>, c: ErrorCode) -> bool {
    forall|i: int| 0 <= i < s.len() ==> (#[trigger] s[i]).code != c
}

/// The link joins a claim to itself: same credential and same claim on both
/// sides.
pub open spec fn joins_claim_to_itself(l: CredentialLink) -> bool {
    l.left_credential@ == l.right_credential@ && l.left_claim@ == l.right_claim@
}

proof fn lemma_lacks_code_concat(a: Seq<FindingView>, b: Seq<FindingView>, c: ErrorCode)
    requires
        lacks_code(a, c),
        lacks_code(b, c),
    ensures
        lacks_code(a + b, c),
{
    assert forall|i: int| 0 <= i < (a + b).len() implies (#[trigger] (a + b)[i]).code != c by {
        if i < a.len() {
            assert((a + b)[i] == a[i]);
        } else {
            assert((a + b)[i] == b[i - a.len()]);
        }
    }
}

proof fn lemma_claims_warnings_no_self_link(ci: int, claims: Seq<ClaimQuery>, n: int)
    ensures
        lacks_code(claims_warnings_upto(ci, claims, n), ErrorCode::SelfLinkDetected),
    decreases n,
{
    if n > 0 {
        lemma_claims_warnings_no_self_link(ci, claims, n - 1);
        assert(lacks_code(claim_warnings(ci, claims, n - 1), ErrorCode::SelfLinkDetected));
        lemma_lacks_code_concat(
            claims_warnings_upto(ci, claims, n - 1),
            claim_warnings(ci, claims, n - 1),
            ErrorCode::SelfLinkDetected,
        );
    }
}

proof fn lemma_creds_warnings_no_self_link(creds: Seq<CredentialQuery>, n: int)
    ensures
        lacks_code(creds_warnings_upto(creds, n), ErrorCode::SelfLinkDetected),
    decreases n,
{
    if n > 0 {
        lemma_creds_warnings_no_self_link(creds, n - 1);
        let cred = creds[n - 1];
        match cred.claims {
            Some(cs) => {
                lemma_claims_warnings_no_self_link(n - 1, cs@, cs@.len() as int);
            },
            None => {},
        }
        assert(lacks_code(cred_warnings(cred, n - 1), ErrorCode::SelfLinkDetected));
        lemma_lacks_code_concat(
            creds_warnings_upto(creds, n - 1),
            cred_warnings(cred, n - 1),
            ErrorCode::SelfLinkDetected,
        );
    }
}

proof fn lemma_aggs_warnings_no_self_link(
    creds: Seq<CredentialQuery>,
    aggs: Seq<AggregateQuery>,
    n: int,
)
    ensures
        lacks_code(aggs_warnings_upto(creds, aggs, n), ErrorCode::SelfLinkDetected),
    decreases n,
{
    if n > 0 {
        lemma_aggs_warnings_no_self_link(creds, aggs, n - 1);
        assert(lacks_code(agg_warnings(creds, n - 1, aggs[n - 1]), ErrorCode::SelfLinkDetected));
        lemma_lacks_code_concat(
            aggs_warnings_upto(creds, aggs, n - 1),
            agg_warnings(creds, n - 1, aggs[n - 1]),
            ErrorCode::SelfLinkDetected,
        );
    }
}

proof fn lemma_link_warnings_from_self_links(links: Seq<CredentialLink>, n: int)
    requires
        n <= links.len(),
    ensures
        forall|i: int|
            0 <= i < links_warnings_upto(links, n).len() ==> exists|k: int|
                0 <= k < n && joins_claim_to_itself(#[trigger] links[k]) && (
                #[trigger] links_warnings_upto(links, n)[i]).location == indexed(
                    "credential_links"@,
                    k,
                ),
    decreases n,
{
    if n > 0 {
        lemma_link_warnings_from_self_links(links, n - 1);
        let prev = links_warnings_upto(links, n - 1);
        let last = link_warnings(n - 1, links[n - 1]);
        let all = links_warnings_upto(links, n);
        assert(all == prev + last);
        assert forall|i: int| 0 <= i < all.len() implies exists|k: int|
            0 <= k < n && joins_claim_to_itself(#[trigger] links[k]) && (
            #[trigger] all[i]).location == indexed("credential_links"@, k) by {
            if i < prev.len() {
                assert(all[i] == prev[i]);
                let k = choose|k: int|
                    0 <= k < n - 1 && joins_claim_to_itself(#[trigger] links[k]) && prev[i].location
                        == indexed("credential_links"@, k);
                assert(0 <= k < n && joins_claim_to_itself(links[k]));
            } else {
                assert(last.len() > 0);
                assert(all[i] == last[i - prev.len()]);
                assert(joins_claim_to_itself(links[n - 1]));
            }
        }
    }
}

/// A self-link warning is given only for a link that names the same credential
/// and the same claim on both sides; a link between two credentials, or
/// between two claims of one credential, is never warned about as a self-link.
pub proof fn lemma_self_link_warning_needs_same_claim(q: ExtendedDcqlQuery)
    ensures
        forall|i: int|
            0 <= i < query_warnings(q).len() && (#[trigger] query_warnings(q)[i]).code
                == ErrorCode::SelfLinkDetected ==> exists|k: int|
                0 <= k < opt_seq(q.credential_links).len() && joins_claim_to_itself(
                    #[trigger] opt_seq(q.credential_links)[k],
                ),
{
    let creds = q.credentials@;
    let links = opt_seq(q.credential_links);
    let aggs = opt_seq(q.aggregates);
    if creds.len() > 0 {
        let w1 = creds_warnings_upto(creds, creds.len() as int);
        let w2 = links_warnings_upto(links, links.len() as int);
        let w3 = aggs_warnings_upto(creds, aggs, aggs.len() as int);
        lemma_creds_warnings_no_self_link(creds, creds.len() as int);
        lemma_aggs_warnings_no_self_link(creds, aggs, aggs.len() as int);
        lemma_link_warnings_from_self_links(links, links.len() as int);
        let all = w1 + w2 + w3;
        assert(query_warnings(q) == all);
        assert forall|i: int|
            0 <= i < all.len() && (#[trigger] all[i]).code == ErrorCode::SelfLinkDetected implies exists|
            k: int,
        | 0 <= k < links.len() && joins_claim_to_itself(#[trigger] links[k]) by {
            if i < w1.len() {
                assert(all[i] == w1[i]);
            } else if i < w1.len() + w2.len() {
                assert(all[i] == w2[i - w1.len()]);
                let k = choose|k: int|
                    0 <= k < links.len() && joins_claim_to_itself(#[trigger] links[k]) && w2[i
                        - w1.len()].location == indexed("credential_links"@, k);
                assert(joins_claim_to_itself(links[k]));
            } else {
                assert(all[i] == w3[i - w1.len() - w2.len()]);
            }
        }
    }
}

// ─── refused id characters are reported ─────────────────────────────────────

proof fn lemma_invalid_chars_found(id: Seq<char>, k: int)
    requires
        0 <= k < id.len(),
        !allowed_in_id(id[k]),
    ensures
        invalid_chars(id).len() > 0,
    decreases id.len(),
{
    if k < id.len() - 1 {
        assert(id.drop_last()[k] == id[k]);
        lemma_invalid_chars_found(id.drop_last(), k);
    }
}

/// The error findings of the first `n` credentials include an
/// `InvalidCredentialId` error at credential `ci`'s id.
proof fn lemma_id_error_reported(creds: Seq<CredentialQuery>, n: int, ci: int, k: int)
    requires
        0 <= ci < n <= creds.len(),
        0 <= k < creds[ci].id@.len(),
        !allowed_in_id(creds[ci].id@[k]),
    ensures
        exists|e: int|
            0 <= e < creds_errors_upto(creds, n).len() && (#[trigger] creds_errors_upto(
                creds,
                n,
            )[e]).code == ErrorCode::InvalidCredentialId && creds_errors_upto(creds, n)[e].location
                == indexed("credentials"@, ci) + ".id"@,
    decreases n,
{
    let prev = creds_errors_upto(creds, n - 1);
    let cur = cred_errors(creds, n - 1);
    assert(creds_errors_upto(creds, n) == prev + cur);
    if ci < n - 1 {
        lemma_id_error_reported(creds, n - 1, ci, k);
        let e = choose|e: int|
            0 <= e < prev.len() && (#[trigger] prev[e]).code == ErrorCode::InvalidCredentialId
                && prev[e].location == indexed("credentials"@, ci) + ".id"@;
        assert((prev + cur)[e] == prev[e]);
    } else {
        lemma_invalid_chars_found(creds[ci].id@, k);
        let f = id_findings(creds, ci);
        assert(f.len() > 0 && f[0].code == ErrorCode::InvalidCredentialId && f[0].location
            == indexed("credentials"@, ci) + ".id"@);
        assert(cur[0] == f[0]);
        assert((prev + cur)[prev.len() as int] == cur[0]);
    }
}

/// A credential id holding a character other than a letter, digit, `_` or `-`
/// is reported: validation gives an `InvalidCredentialId` error at that id.
pub proof fn lemma_bad_id_char_is_reported(q: ExtendedDcqlQuery, ci: int, k: int)
    requires
        0 <= ci < q.credentials@.len(),
        0 <= k < q.credentials@[ci].id@.len(),
        !allowed_in_id(q.credentials@[ci].id@[k]),
    ensures
        exists|e: int|
            0 <= e < query_errors(q).len() && (#[trigger] query_errors(q)[e]).code
                == ErrorCode::InvalidCredentialId && query_errors(q)[e].severity == Severity::Error
                && query_errors(q)[e].location == indexed("credentials"@, ci) + ".id"@,
{
    let creds = q.credentials@;
    let n = creds.len() as int;
    lemma_id_error_reported(creds, n, ci, k);
    lemma_errors_and_warnings_apart(q);
    let a = creds_errors_upto(creds, n);
    let e = choose|e: int|
        0 <= e < a.len() && (#[trigger] a[e]).code == ErrorCode::InvalidCredentialId && a[e].location
            == indexed("credentials"@, ci) + ".id"@;
    let sets = opt_seq(q.credential_sets);
    let links = opt_seq(q.credential_links);
    let aggs = opt_seq(q.aggregates);
    let all = query_errors(q);
    let b = sets_errors_upto(known_ids(creds, n), sets, sets.len() as int);
    let c = links_errors_upto(creds, links, links.len() as int);
    let d = aggs_errors_upto(creds, aggs, aggs.len() as int);
    assert(all == a + b + c + d);
    assert(all[e] == a[e]);
}

} // verus!
