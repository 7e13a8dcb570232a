use dcql_plus_to_sparql_rs::{
    AggregateFunction, AggregateQuery, ClaimFilter, ClaimQuery, ClaimValue, CredentialFormat,
    CredentialLink, CredentialQuery, CredentialSetQuery, DcqlError, DcqlQuery, DcqlValidate,
    ErrorCode, ExtendedDcqlQuery, FilterOp, FilterValue, LinkRelation, PathElement, Severity,
    SparqlTranslator, SparqlValidationError, ValidationError,
};

fn key(k: &str) -> PathElement {
    PathElement::Key(k.to_string())
}

fn claim(id: Option<&str>) -> ClaimQuery {
    ClaimQuery {
        id: id.map(|s| s.to_string()),
        path: vec![key("credentialSubject"), key("name")],
        values: None,
        filter: None,
    }
}

fn cred(id: &str, claims: Option<Vec<ClaimQuery>>) -> CredentialQuery {
    CredentialQuery {
        id: id.to_string(),
        format: CredentialFormat::LdpVc,
        meta: None,
        claims,
        claim_sets: None,
        trusted_authorities: None,
        multiple: None,
    }
}

fn dcql(credentials: Vec<CredentialQuery>) -> DcqlQuery {
    DcqlQuery { credentials, credential_sets: None }
}

fn extended(credentials: Vec<CredentialQuery>) -> ExtendedDcqlQuery {
    ExtendedDcqlQuery { credentials, credential_sets: None, credential_links: None, aggregates: None }
}

fn link(lc: &str, lcl: &str, rc: &str, rcl: &str) -> CredentialLink {
    CredentialLink {
        left_credential: lc.into(),
        left_claim: lcl.into(),
        right_credential: rc.into(),
        right_claim: rcl.into(),
        relation: LinkRelation::Equal,
    }
}

fn agg(cid: &str, claim_id: &str) -> AggregateQuery {
    AggregateQuery {
        id: "total".into(),
        credential_id: cid.into(),
        claim_id: claim_id.into(),
        function: AggregateFunction::Sum,
        having: None,
    }
}

/// The one finding in `v`, as its code, severity, message, location and hint.
fn only(v: &[ValidationError]) -> &ValidationError {
    assert_eq!(v.len(), 1, "expected exactly one finding, got {}", v.len());
    &v[0]
}

fn assert_finding(
    f: &ValidationError,
    code: ErrorCode,
    severity: Severity,
    message: &str,
    location: &str,
    hint: Option<&str>,
) {
    assert_eq!(f.code, code);
    assert_eq!(f.severity, severity);
    assert_eq!(f.message, message);
    assert_eq!(f.location, location);
    assert_eq!(f.hint.as_deref(), hint);
}

// ─── the checks of parsing ───────────────────────────────────────────────────

fn validation_message(r: Result<DcqlQuery, DcqlError>) -> String {
    match r {
        Err(DcqlError::Validation(m)) => m,
        Err(e) => panic!("unexpected error: {}", e.to_string()),
        Ok(_) => panic!("expected a validation error"),
    }
}

#[test]
fn dcql_checks_report_the_first_problem() {
    assert_eq!(validation_message(dcql(vec![]).checked()), "credentials must not be empty");
    assert_eq!(
        validation_message(dcql(vec![cred("", None)]).checked()),
        "credential id must not be empty"
    );
    assert_eq!(
        validation_message(dcql(vec![cred("ok", None), cred("a b!", None)]).checked()),
        "credential id 'a b!' contains invalid character ' '"
    );
}

#[test]
fn dcql_checks_return_the_query_unchanged() {
    let q = dcql(vec![cred("Ünï-cödé_9", Some(vec![claim(Some("n"))])), cred("a", None)])
        .checked()
        .unwrap();
    assert_eq!(q.credentials.len(), 2);
    assert_eq!(q.credentials[0].id, "Ünï-cödé_9");
    assert_eq!(q.credentials[1].id, "a");
    assert!(q.credential_sets.is_none());
}

#[test]
fn extended_checks_refuse_each_kind_of_problem() {
    match extended(vec![]).checked() {
        Err(DcqlError::Validation(m)) => assert_eq!(m, "credentials must not be empty"),
        _ => panic!("expected Validation"),
    }
    match extended(vec![cred("dup", None), cred("x", None), cred("dup", None)]).checked() {
        Err(DcqlError::Validation(m)) => assert_eq!(m, "duplicate credential id: dup"),
        _ => panic!("expected Validation"),
    }
    let two = || vec![cred("a", Some(vec![claim(Some("x"))])), cred("b", Some(vec![claim(Some("y"))]))];
    let mut q = extended(two());
    q.credential_links = Some(vec![link("a", "x", "ghost", "y")]);
    match q.checked() {
        Err(DcqlError::UnknownCredentialId(id)) => assert_eq!(id, "ghost"),
        _ => panic!("expected UnknownCredentialId"),
    }
    let mut q = extended(two());
    q.credential_links = Some(vec![link("a", "x", "b", "nope")]);
    match q.checked() {
        Err(e @ DcqlError::UnknownClaimId(..)) => {
            assert_eq!(e.to_string(), "unknown claim id 'nope' in credential 'b'")
        },
        _ => panic!("expected UnknownClaimId"),
    }
    // both credentials are looked up before either claim
    let mut q = extended(two());
    q.credential_links = Some(vec![link("a", "nope", "ghost", "y")]);
    assert!(matches!(q.checked(), Err(DcqlError::UnknownCredentialId(id)) if id == "ghost"));
}

#[test]
fn extended_checks_leave_id_characters_to_validation() {
    let q = extended(vec![cred("bad id!", None)]).checked().unwrap();
    assert_eq!(q.credentials[0].id, "bad id!");
    let r = q.validate();
    assert!(!r.is_valid());
    assert_eq!(r.errors[0].code, ErrorCode::InvalidCredentialId);
}

#[test]
fn standard_query_converts_without_links_or_aggregates() {
    let mut q = dcql(vec![cred("a", Some(vec![claim(Some("x"))]))]);
    q.credential_sets =
        Some(vec![CredentialSetQuery { options: vec![vec!["a".into()]], required: Some(true), purpose: None }]);
    let e = ExtendedDcqlQuery::from(q);
    assert_eq!(e.credentials.len(), 1);
    assert_eq!(e.credentials[0].id, "a");
    assert_eq!(e.credential_sets.as_ref().unwrap()[0].options, vec![vec!["a".to_string()]]);
    assert!(e.credential_links.is_none());
    assert!(e.aggregates.is_none());
    assert!(e.checked().is_ok());
}

#[test]
fn every_error_has_its_text() {
    let cases = vec![
        (DcqlError::Parse("eof".into()), "parse error: eof"),
        (DcqlError::Validation("v".into()), "validation error: v"),
        (DcqlError::Translation("t".into()), "translation error: t"),
        (
            DcqlError::UnknownCredentialId("c".into()),
            "unknown credential id 'c' referenced in credential_links",
        ),
        (DcqlError::UnknownClaimId("x".into(), "c".into()), "unknown claim id 'x' in credential 'c'"),
        (
            DcqlError::MissingClaimId,
            "claim has no id but is referenced by credential_links or claim_sets",
        ),
        (DcqlError::EmptyPath, "empty path is not allowed"),
    ];
    for (e, text) in cases {
        assert_eq!(e.to_string(), text);
    }
}

#[test]
fn sparql_parse_outcome_becomes_the_error() {
    assert!(SparqlValidationError::from_parse_outcome(Ok(())).is_ok());
    let e = SparqlValidationError::from_parse_outcome(Err("boom".into())).unwrap_err();
    assert_eq!(e.message, "boom");
    assert_eq!(e.to_string(), "SPARQL parse error: boom");
}

// ─── findings, one kind at a time ────────────────────────────────────────────

#[test]
fn finding_empty_credentials_in_full() {
    let r = extended(vec![]).validate();
    assert_finding(
        only(&r.errors),
        ErrorCode::EmptyCredentials,
        Severity::Error,
        "The 'credentials' array must contain at least one CredentialQuery",
        "credentials",
        Some("Add at least one credential entry with a unique 'id' and 'format'"),
    );
    assert!(r.warnings.is_empty());
    assert_eq!(
        r.to_string(),
        "[ERROR] EmptyCredentials at 'credentials': The 'credentials' array must contain at least \
         one CredentialQuery\n  hint: Add at least one credential entry with a unique 'id' and \
         'format'\ninvalid: 1 error(s), 0 warning(s)"
    );
}

#[test]
fn finding_identity_problems() {
    let r = extended(vec![cred("", Some(vec![claim(Some("n"))]))]).validate();
    assert_finding(
        only(&r.errors),
        ErrorCode::InvalidCredentialId,
        Severity::Error,
        "Credential 'id' must not be empty",
        "credentials[0].id",
        Some("Use alphanumeric characters, hyphens, or underscores (e.g. \"identity\")"),
    );

    let r = extended(vec![cred("bad id!", Some(vec![claim(Some("n"))]))]).validate();
    assert_finding(
        only(&r.errors),
        ErrorCode::InvalidCredentialId,
        Severity::Error,
        "Credential id 'bad id!' contains invalid character(s): ' ', '!'",
        "credentials[0].id",
        Some("Credential IDs must match [a-zA-Z0-9_-]+"),
    );

    let r = extended(vec![
        cred("a", Some(vec![claim(Some("n"))])),
        cred("a", Some(vec![claim(Some("n"))])),
    ])
    .validate();
    assert_finding(
        only(&r.errors),
        ErrorCode::DuplicateCredentialId,
        Severity::Error,
        "Credential id 'a' is defined more than once",
        "credentials[1].id",
        Some("Each credential must have a unique 'id' within the query"),
    );
}

#[test]
fn finding_claim_problems() {
    let r = extended(vec![cred("c", None)]).validate();
    assert!(r.is_valid());
    assert_finding(
        only(&r.warnings),
        ErrorCode::NoClaimsSpecified,
        Severity::Warning,
        "Credential 'c' has no 'claims' — all claims will be requested from the wallet",
        "credentials[0].claims",
        Some("Add a 'claims' array to request only the fields your verifier needs"),
    );

    let r = extended(vec![cred("c", Some(vec![]))]).validate();
    assert_finding(
        only(&r.errors),
        ErrorCode::EmptyClaimsArray,
        Severity::Error,
        "Credential 'c' has an empty 'claims' array",
        "credentials[0].claims",
        Some("Either omit 'claims' to request all, or add at least one ClaimQuery"),
    );

    let mut empty_path = claim(Some("p"));
    empty_path.path = vec![];
    let r = extended(vec![cred("c", Some(vec![claim(Some("n")), empty_path]))]).validate();
    assert_finding(
        only(&r.errors),
        ErrorCode::EmptyPath,
        Severity::Error,
        "Claim 'path' must contain at least one element",
        "credentials[0].claims[1].path",
        Some("Example: [\"credentialSubject\", \"name\"] selects the name field"),
    );

    let r = extended(vec![cred("c", Some(vec![claim(Some("x")), claim(None), claim(Some("x"))]))])
        .validate();
    assert_finding(
        only(&r.errors),
        ErrorCode::DuplicateClaimId,
        Severity::Error,
        "Claim id 'x' appears more than once in credential 'c'",
        "credentials[0].claims[2].id",
        Some("Each claim within a credential must have a unique 'id'"),
    );

    let mut both = claim(Some("x"));
    both.values = Some(vec![ClaimValue::Bool(true)]);
    both.filter = Some(ClaimFilter { op: FilterOp::Eq, value: FilterValue::Bool(true) });
    let r = extended(vec![cred("c", Some(vec![both]))]).validate();
    assert!(r.is_valid());
    assert_finding(
        only(&r.warnings),
        ErrorCode::FilterAndValuesBothPresent,
        Severity::Warning,
        "Claim at credentials[0].claims[0] has both 'filter' (SPARQL predicate) and 'values' \
         (wallet pre-filter hint). 'values' will be passed to the wallet for pre-filtering while \
         'filter' generates the SPARQL FILTER.",
        "credentials[0].claims[0]",
        Some(
            "This is allowed but may cause confusion. Use 'filter' for verifier-enforced \
             predicates and 'values' for wallet UI hints.",
        ),
    );
}

#[test]
fn finding_claim_set_problems() {
    let mut c = cred("c", None);
    c.claim_sets = Some(vec![vec!["a".into()]]);
    let r = extended(vec![c]).validate();
    assert_finding(
        only(&r.errors),
        ErrorCode::ClaimSetsWithoutClaims,
        Severity::Error,
        "Credential 'c' has 'claim_sets' but no 'claims'",
        "credentials[0].claim_sets",
        Some("'claim_sets' selects subsets of 'claims'; both must be present together"),
    );

    let mut c = cred("c", Some(vec![claim(Some("a")), claim(None), claim(Some("a"))]));
    c.claim_sets = Some(vec![vec!["a".into(), "ghost".into()]]);
    let r = extended(vec![c]).validate();
    // the repeated claim id is one finding, the unknown reference the other
    assert_eq!(r.errors.len(), 2);
    assert_finding(
        &r.errors[1],
        ErrorCode::UnknownClaimId,
        Severity::Error,
        "claim_sets[0][1] references claim id 'ghost' which does not exist in credential 'c'",
        "credentials[0].claim_sets[0][1]",
        Some("Available claim ids with 'id' set: [\"a\"]"),
    );
}

#[test]
fn finding_credential_set_problems() {
    let mut q = extended(vec![cred("a\"b", Some(vec![claim(Some("n"))]))]);
    q.credential_sets = Some(vec![
        CredentialSetQuery { options: vec![], required: None, purpose: None },
        CredentialSetQuery { options: vec![vec![], vec!["ghost".into()]], required: None, purpose: None },
    ]);
    let r = q.validate();
    // the id with a quote is refused, and still counts as known
    assert_eq!(r.errors.len(), 4);
    assert_eq!(r.errors[0].code, ErrorCode::InvalidCredentialId);
    assert_finding(
        &r.errors[1],
        ErrorCode::EmptyOptions,
        Severity::Error,
        "credential_sets[0].options must not be empty",
        "credential_sets[0].options",
        Some("Each CredentialSetQuery must have at least one option array"),
    );
    assert_finding(
        &r.errors[2],
        ErrorCode::EmptyOptions,
        Severity::Error,
        "credential_sets[1].options[0] must not be empty",
        "credential_sets[1].options[0]",
        Some("An option must list at least one credential id"),
    );
    assert_finding(
        &r.errors[3],
        ErrorCode::UnknownCredentialId,
        Severity::Error,
        "credential_sets[1].options[1][0] references unknown credential id 'ghost'",
        "credential_sets[1].options[1][0]",
        Some("Known credential ids: [\"a\\\"b\"]"),
    );
}

#[test]
fn finding_link_problems() {
    let creds = || {
        vec![
            cred("a", Some(vec![claim(Some("x"))])),
            cred("b", None),
            cred("c", Some(vec![claim(None)])),
        ]
    };

    let mut q = extended(creds());
    q.credential_links = Some(vec![link("ghost", "x", "a", "x")]);
    let r = q.validate();
    assert_finding(
        only(&r.errors),
        ErrorCode::UnknownCredentialId,
        Severity::Error,
        "credential_links[0].left_credential 'ghost' does not match any credential id",
        "credential_links[0].left_credential",
        Some("Known credential ids: [\"a\", \"b\", \"c\"]"),
    );

    let mut q = extended(creds());
    q.credential_links = Some(vec![link("a", "x", "a", "nope")]);
    let r = q.validate();
    assert_finding(
        only(&r.errors),
        ErrorCode::UnknownClaimId,
        Severity::Error,
        "credential_links[0].right_claim 'nope' does not exist in credential 'a'",
        "credential_links[0].right_claim",
        Some("Available claim ids in 'a': [\"x\"]"),
    );

    // a credential without claims, and one whose claims have no id
    let mut q = extended(creds());
    q.credential_links = Some(vec![link("b", "x", "c", "x")]);
    let r = q.validate();
    assert_eq!(r.errors.len(), 2);
    assert_finding(
        &r.errors[0],
        ErrorCode::MissingClaimId,
        Severity::Error,
        "credential_links[0]: credential 'b' has no claims with 'id' fields",
        "credential_links[0].left_claim",
        Some("Claims used in credential_links must have an 'id' field"),
    );
    assert_finding(
        &r.errors[1],
        ErrorCode::MissingClaimId,
        Severity::Error,
        "credential_links[0]: credential 'c' has no claims with 'id' fields",
        "credential_links[0].right_claim",
        Some("Claims used in credential_links must have an 'id' field"),
    );

    let mut q = extended(creds());
    q.credential_links = Some(vec![link("a", "x", "a", "x")]);
    let r = q.validate();
    assert!(r.is_valid());
    let self_link = r
        .warnings
        .iter()
        .find(|w| w.code == ErrorCode::SelfLinkDetected)
        .expect("expected a self-link warning");
    assert_finding(
        self_link,
        ErrorCode::SelfLinkDetected,
        Severity::Warning,
        "credential_links[0]: both sides reference the same claim 'x' in credential 'a' — this \
         condition is always true",
        "credential_links[0]",
        Some(
            "A self-link with relation 'equal' is a tautology. Did you mean to join two \
             different credentials?",
        ),
    );
}

#[test]
fn finding_aggregate_problems() {
    let creds = || {
        let mut multi = cred("m", Some(vec![claim(Some("v"))]));
        multi.multiple = Some(true);
        vec![multi, cred("b", None), cred("c", Some(vec![claim(None)]))]
    };

    let mut q = extended(creds());
    q.aggregates = Some(vec![agg("ghost", "v")]);
    let r = q.validate();
    assert_finding(
        only(&r.errors),
        ErrorCode::UnknownCredentialId,
        Severity::Error,
        "aggregates[0].credential_id 'ghost' does not match any credential id",
        "aggregates[0].credential_id",
        Some("Known credential ids: [\"m\", \"b\", \"c\"]"),
    );

    let mut q = extended(creds());
    q.aggregates = Some(vec![agg("b", "v")]);
    let r = q.validate();
    assert_finding(
        only(&r.errors),
        ErrorCode::MissingClaimId,
        Severity::Error,
        "aggregates[0]: credential 'b' has no claims with 'id' fields",
        "aggregates[0].claim_id",
        Some("Claims used in aggregates must have an 'id' field"),
    );
    let without_multiple = r
        .warnings
        .iter()
        .find(|w| w.code == ErrorCode::AggregateWithoutMultiple)
        .expect("expected an aggregate warning");
    assert_finding(
        without_multiple,
        ErrorCode::AggregateWithoutMultiple,
        Severity::Warning,
        "aggregates[0]: credential 'b' is used in an aggregate but does not have 'multiple: \
         true' — the aggregate will operate on at most one instance",
        "aggregates[0].credential_id",
        Some(
            "Set '\"multiple\": true' on credential 'b' to collect values across all matching \
             credential instances",
        ),
    );

    // claims without ids: an unknown claim with nothing available, unlike a link
    let mut q = extended(creds());
    q.aggregates = Some(vec![agg("c", "v")]);
    let r = q.validate();
    assert_finding(
        only(&r.errors),
        ErrorCode::UnknownClaimId,
        Severity::Error,
        "aggregates[0].claim_id 'v' does not exist in credential 'c'",
        "aggregates[0].claim_id",
        Some("Available claim ids in 'c': []"),
    );

    let mut q = extended(creds());
    q.aggregates = Some(vec![agg("m", "v")]);
    let r = q.validate();
    assert!(r.is_valid());
    assert!(r.warnings.iter().all(|w| w.code != ErrorCode::AggregateWithoutMultiple));
}

// ─── results ─────────────────────────────────────────────────────────────────

#[test]
fn result_lists_errors_then_warnings_and_converts() {
    let mut q = extended(vec![cred("bad id", None), cred("ok", Some(vec![]))]);
    q.credential_links = Some(vec![link("ok", "x", "ok", "x")]);
    let r = q.validate();
    // an empty claims array gives the links nothing to look up, on either side
    assert_eq!(r.errors.len(), 4);
    assert_eq!(r.warnings.len(), 2);
    let all = r.all();
    assert_eq!(all.len(), 6);
    assert_eq!(all[0].code, ErrorCode::InvalidCredentialId);
    assert_eq!(all[1].code, ErrorCode::EmptyClaimsArray);
    assert_eq!(all[2].code, ErrorCode::MissingClaimId);
    assert_eq!(all[3].code, ErrorCode::MissingClaimId);
    assert_eq!(all[4].code, ErrorCode::NoClaimsSpecified);
    assert_eq!(all[5].code, ErrorCode::SelfLinkDetected);
    assert!(r.to_string().ends_with("invalid: 4 error(s), 2 warning(s)"));
    match r.into_result() {
        Err(errors) => assert_eq!(errors.len(), 4),
        Ok(_) => panic!("expected errors"),
    }

    let r = extended(vec![cred("a", None)]).validate();
    assert_eq!(
        r.to_string(),
        "[WARN] NoClaimsSpecified at 'credentials[0].claims': Credential 'a' has no 'claims' — \
         all claims will be requested from the wallet\n  hint: Add a 'claims' array to request \
         only the fields your verifier needs\nvalid (1 warning(s))"
    );
    match r.into_result() {
        Ok(warnings) => assert_eq!(warnings[0].code, ErrorCode::NoClaimsSpecified),
        Err(_) => panic!("expected warnings only"),
    }
}

#[test]
fn finding_without_hint_is_one_line() {
    let f = ValidationError {
        code: ErrorCode::EmptyPath,
        severity: Severity::Error,
        message: "m".into(),
        location: "l".into(),
        hint: None,
    };
    assert_eq!(f.to_string(), "[ERROR] EmptyPath at 'l': m");
    assert_eq!(Severity::Warning.to_string(), "WARN");
    assert_eq!(ErrorCode::AggregateWithoutMultiple.to_string(), "AggregateWithoutMultiple");
}

// ─── the laws on concrete values ─────────────────────────────────────────────

#[test]
fn standard_query_validates_as_its_extended_form() {
    let mut c = cred("x y", Some(vec![claim(Some("a")), claim(Some("a"))]));
    c.claim_sets = Some(vec![vec!["z".into()]]);
    let mut q = dcql(vec![c, cred("b", None)]);
    q.credential_sets =
        Some(vec![CredentialSetQuery { options: vec![vec!["nope".into()]], required: None, purpose: None }]);
    let direct = q.validate().to_string();
    let via_extended = ExtendedDcqlQuery::from(q).validate().to_string();
    assert_eq!(direct, via_extended);
}

#[test]
fn refused_query_is_also_invalid() {
    let mut q = extended(vec![cred("a", Some(vec![claim(Some("x"))]))]);
    q.credential_links = Some(vec![link("a", "x", "a", "y")]);
    assert!(matches!(q.checked(), Err(DcqlError::UnknownClaimId(..))));
    let mut q = extended(vec![cred("a", Some(vec![claim(Some("x"))]))]);
    q.credential_links = Some(vec![link("a", "x", "a", "y")]);
    assert!(!q.validate().is_valid());
}

#[test]
fn valid_query_translates() {
    let mut q = extended(vec![
        cred("a", Some(vec![claim(Some("x"))])),
        cred("b", Some(vec![claim(Some("y"))])),
    ]);
    q.credential_links = Some(vec![link("a", "x", "b", "y")]);
    q.aggregates = Some(vec![agg("b", "y")]);
    assert!(q.validate().is_valid());
    assert!(SparqlTranslator::new().translate(&q).is_ok());
}

#[test]
fn valid_standard_query_passes_the_extended_checks() {
    let q = dcql(vec![cred("a", Some(vec![claim(Some("x"))])), cred("b", None)]).checked().unwrap();
    assert!(ExtendedDcqlQuery::from(q).checked().is_ok());
}

#[test]
fn link_from_a_credential_to_itself_is_refused() {
    let mut q = extended(vec![cred("a", Some(vec![claim(Some("x")), claim(Some("y"))]))]);
    q.credential_links = Some(vec![link("a", "x", "a", "y")]);
    match q.checked() {
        Err(e @ DcqlError::Validation(_)) => {
            assert_eq!(e.to_string(), "validation error: credential link joins credential 'a' to itself")
        },
        _ => panic!("expected a self-link refusal"),
    }
    // unknown references are reported first
    let mut q = extended(vec![cred("a", Some(vec![claim(Some("x"))]))]);
    q.credential_links = Some(vec![link("a", "x", "a", "nope")]);
    assert!(matches!(q.checked(), Err(DcqlError::UnknownClaimId(..))));
    // validation itself still only warns about a link between one claim and itself
    let mut q = extended(vec![cred("a", Some(vec![claim(Some("x"))]))]);
    q.credential_links = Some(vec![link("a", "x", "a", "x")]);
    assert!(q.validate().is_valid());
}

#[test]
fn errors_and_warnings_are_kept_apart() {
    let mut q = extended(vec![cred("bad id", None), cred("ok", Some(vec![claim(Some("x"))]))]);
    q.credential_links = Some(vec![link("ok", "x", "ok", "x"), link("ok", "x", "ghost", "x")]);
    q.aggregates = Some(vec![agg("ok", "x")]);
    let r = q.validate();
    let warning_codes = [
        ErrorCode::NoClaimsSpecified,
        ErrorCode::AggregateWithoutMultiple,
        ErrorCode::FilterAndValuesBothPresent,
        ErrorCode::SelfLinkDetected,
    ];
    assert!(!r.errors.is_empty() && !r.warnings.is_empty());
    assert!(r.errors.iter().all(|e| e.severity == Severity::Error && !warning_codes.contains(&e.code)));
    assert!(r.warnings.iter().all(|w| w.severity == Severity::Warning && warning_codes.contains(&w.code)));
}
