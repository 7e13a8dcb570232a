use dcql_plus_to_sparql_rs::{
    AggregateFunction, AggregateHaving, AggregateQuery, ClaimQuery, CredentialFormat,
    CredentialLink, CredentialQuery, ExtendedDcqlQuery, FilterOp, FilterValue, LinkRelation,
    PathElement, SparqlTranslator,
};

fn translator() -> SparqlTranslator {
    SparqlTranslator::new()
}

fn claim(id: &str, path: Vec<PathElement>) -> ClaimQuery {
    ClaimQuery {
        id: Some(id.to_string()),
        path,
        values: None,
        filter: None,
    }
}

fn ldp_cred(id: &str, claims: Vec<ClaimQuery>) -> CredentialQuery {
    CredentialQuery {
        id: id.to_string(),
        format: CredentialFormat::LdpVc,
        meta: None,
        claims: Some(claims),
        claim_sets: None,
        trusted_authorities: None,
        multiple: None,
    }
}

fn bare_cred(id: &str) -> CredentialQuery {
    CredentialQuery {
        id: id.to_string(),
        format: CredentialFormat::LdpVc,
        meta: None,
        claims: None,
        claim_sets: None,
        trusted_authorities: None,
        multiple: None,
    }
}

fn key(k: &str) -> PathElement {
    PathElement::Key(k.to_string())
}

fn link(lc: &str, lcl: &str, rc: &str, rcl: &str, relation: LinkRelation) -> CredentialLink {
    CredentialLink {
        left_credential: lc.into(),
        left_claim: lcl.into(),
        right_credential: rc.into(),
        right_claim: rcl.into(),
        relation,
    }
}

// ─── same-subject join ───────────────────────────────────────────────────────

/// "The diploma and the passport must refer to the same person."
/// Both credentials have a credentialSubject.id field; the link equates them.
#[test]
fn same_subject_join() {
    let q = ExtendedDcqlQuery {
        credentials: vec![
            ldp_cred(
                "passport",
                vec![claim("subject_id", vec![key("credentialSubject"), key("id")])],
            ),
            ldp_cred(
                "diploma",
                vec![claim("subject_id", vec![key("credentialSubject"), key("id")])],
            ),
        ],
        credential_sets: None,
        credential_links: Some(vec![link(
            "passport",
            "subject_id",
            "diploma",
            "subject_id",
            LinkRelation::Equal,
        )]),
        aggregates: None,
    };

    let sparql = translator().translate(&q).unwrap();

    assert!(sparql.contains("GRAPH ?vc_passport"), "{sparql}");
    assert!(sparql.contains("GRAPH ?vc_diploma"), "{sparql}");
    assert!(
        sparql.contains("FILTER(?val_passport_subject_id = ?val_diploma_subject_id)"),
        "{sparql}"
    );
}

// ─── trust chain ─────────────────────────────────────────────────────────────

/// "The issuer of the employment credential must appear as the credentialSubject
/// of a root-authority credential — proving the employer is an accredited entity."
#[test]
fn trust_chain_issuer_equals_subject() {
    let q = ExtendedDcqlQuery {
        credentials: vec![
            ldp_cred(
                "root_auth",
                vec![claim("auth_subject", vec![key("credentialSubject"), key("id")])],
            ),
            ldp_cred("employment", vec![claim("emp_issuer", vec![key("issuer")])]),
        ],
        credential_sets: None,
        credential_links: Some(vec![link(
            "employment",
            "emp_issuer",
            "root_auth",
            "auth_subject",
            LinkRelation::Equal,
        )]),
        aggregates: None,
    };

    let sparql = translator().translate(&q).unwrap();

    // employment issuer must equal root_auth subject
    assert!(
        sparql.contains("FILTER(?val_employment_emp_issuer = ?val_root_auth_auth_subject)"),
        "{sparql}"
    );
    // employment issuer is a VC-level field → direct triple on ?vc_employment
    assert!(sparql.contains("?vc_employment cred:issuer ?val_employment_emp_issuer"), "{sparql}");
    // root_auth subject comes from credentialSubject.id
    assert!(sparql.contains("?subject_root_auth ex:id ?val_root_auth_auth_subject"), "{sparql}");
}

// ─── cross-credential inequality ─────────────────────────────────────────────

#[test]
fn cross_credential_not_equal() {
    let q = ExtendedDcqlQuery {
        credentials: vec![
            ldp_cred("a", vec![claim("country_a", vec![key("credentialSubject"), key("country")])]),
            ldp_cred("b", vec![claim("country_b", vec![key("credentialSubject"), key("country")])]),
        ],
        credential_sets: None,
        credential_links: Some(vec![link("a", "country_a", "b", "country_b", LinkRelation::NotEqual)]),
        aggregates: None,
    };
    let sparql = translator().translate(&q).unwrap();
    assert!(sparql.contains("FILTER(?val_a_country_a != ?val_b_country_b)"), "{sparql}");
}

// ─── range comparison across credentials ─────────────────────────────────────

/// "The credit limit on the premium card must be greater than the base card's limit."
#[test]
fn cross_credential_greater_than() {
    let q = ExtendedDcqlQuery {
        credentials: vec![
            ldp_cred(
                "base_card",
                vec![claim("limit", vec![key("credentialSubject"), key("creditLimit")])],
            ),
            ldp_cred(
                "premium_card",
                vec![claim("limit", vec![key("credentialSubject"), key("creditLimit")])],
            ),
        ],
        credential_sets: None,
        credential_links: Some(vec![link(
            "premium_card",
            "limit",
            "base_card",
            "limit",
            LinkRelation::GreaterThan,
        )]),
        aggregates: None,
    };
    let sparql = translator().translate(&q).unwrap();
    assert!(sparql.contains("FILTER(?val_premium_card_limit > ?val_base_card_limit)"), "{sparql}");
}

// ─── aggregation: sum with HAVING ────────────────────────────────────────────

/// "The total credit limit across all bank account credentials must exceed 10 000."
#[test]
fn aggregate_sum_with_having() {
    let q = ExtendedDcqlQuery {
        credentials: vec![ldp_cred(
            "bank_acct",
            vec![claim("balance", vec![key("credentialSubject"), key("balance")])],
        )],
        credential_sets: None,
        credential_links: None,
        aggregates: Some(vec![AggregateQuery {
            id: "total_balance".into(),
            credential_id: "bank_acct".into(),
            claim_id: "balance".into(),
            function: AggregateFunction::Sum,
            having: Some(AggregateHaving {
                op: FilterOp::Gt,
                value: FilterValue::Integer(10_000),
            }),
        }]),
    };

    let sparql = translator().translate(&q).unwrap();

    assert!(sparql.contains("SUM(?val_bank_acct_balance)"), "{sparql}");
    assert!(sparql.contains("?agg_total_balance"), "{sparql}");
    assert!(sparql.contains("GROUP BY"), "{sparql}");
    assert!(sparql.contains("HAVING"), "{sparql}");
    assert!(sparql.contains("10000"), "{sparql}");
}

// ─── aggregation: count ───────────────────────────────────────────────────────

#[test]
fn aggregate_count() {
    let q = ExtendedDcqlQuery {
        credentials: vec![ldp_cred(
            "email_cred",
            vec![claim("addr", vec![key("credentialSubject"), key("email")])],
        )],
        credential_sets: None,
        credential_links: None,
        aggregates: Some(vec![AggregateQuery {
            id: "email_count".into(),
            credential_id: "email_cred".into(),
            claim_id: "addr".into(),
            function: AggregateFunction::Count,
            having: None,
        }]),
    };
    let sparql = translator().translate(&q).unwrap();
    assert!(sparql.contains("COUNT(?val_email_cred_addr)"), "{sparql}");
    assert!(sparql.contains("GROUP BY"), "{sparql}");
}

// ─── validation: unknown credential id in link ───────────────────────────────

#[test]
fn validation_unknown_credential_in_link() {
    let q = ExtendedDcqlQuery {
        credentials: vec![ldp_cred("real_cred", vec![claim("c1", vec![key("issuer")])])],
        credential_sets: None,
        credential_links: Some(vec![link(
            "real_cred",
            "c1",
            "ghost_cred",
            "c2",
            LinkRelation::Equal,
        )]),
        aggregates: None,
    };
    let err = q.checked();
    assert!(err.is_err(), "expected validation error for unknown credential id");
    let msg = err.unwrap_err().to_string();
    assert!(msg.contains("ghost_cred"), "{msg}");
}

// ─── validation: unknown claim id in link ────────────────────────────────────

#[test]
fn validation_unknown_claim_in_link() {
    let q = ExtendedDcqlQuery {
        credentials: vec![
            ldp_cred("cred_a", vec![claim("real_claim", vec![key("issuer")])]),
            ldp_cred("cred_b", vec![claim("other_claim", vec![key("issuer")])]),
        ],
        credential_sets: None,
        credential_links: Some(vec![link(
            "cred_a",
            "real_claim",
            "cred_b",
            "no_such_claim",
            LinkRelation::Equal,
        )]),
        aggregates: None,
    };
    let err = q.checked();
    assert!(err.is_err(), "expected validation error for unknown claim id");
}

// ─── validation: duplicate credential id ─────────────────────────────────────

#[test]
fn validation_duplicate_credential_id() {
    let q = ExtendedDcqlQuery {
        credentials: vec![bare_cred("dup"), bare_cred("dup")],
        credential_sets: None,
        credential_links: None,
        aggregates: None,
    };
    let err = q.checked();
    assert!(err.is_err());
}

// ─── full trust-chain SPARQL ─────────────────────────────────────────────────

/// Checks a complete DCQL+ trust-chain query and verifies the SPARQL output
/// has the correct structure.
#[test]
fn full_trust_chain_from_json() {
    let q = ExtendedDcqlQuery {
        credentials: vec![
            ldp_cred(
                "root_ca",
                vec![claim("ca_subject", vec![key("credentialSubject"), key("id")])],
            ),
            ldp_cred(
                "employee_id",
                vec![
                    claim("emp_issuer", vec![key("issuer")]),
                    claim("emp_name", vec![key("credentialSubject"), key("name")]),
                ],
            ),
        ],
        credential_sets: None,
        credential_links: Some(vec![link(
            "employee_id",
            "emp_issuer",
            "root_ca",
            "ca_subject",
            LinkRelation::Equal,
        )]),
        aggregates: None,
    };

    let q = q.checked().unwrap();
    let sparql = translator().translate(&q).unwrap();

    assert!(sparql.contains("GRAPH ?vc_root_ca"), "{sparql}");
    assert!(sparql.contains("GRAPH ?vc_employee_id"), "{sparql}");
    assert!(sparql.contains("?vc_employee_id cred:issuer ?val_employee_id_emp_issuer"), "{sparql}");
    assert!(sparql.contains("FILTER(?val_employee_id_emp_issuer = ?val_root_ca_ca_subject)"), "{sparql}");
    assert!(sparql.contains("?subject_employee_id ex:name ?val_employee_id_emp_name"), "{sparql}");
}
