use dcql_plus_to_sparql_rs::sparql::builder::SparqlQueryBuilder;
use dcql_plus_to_sparql_rs::sparql::translator::TranslationOptions;
use dcql_plus_to_sparql_rs::{
    AggregateFunction, AggregateHaving, AggregateQuery, ClaimFilter, ClaimQuery, ClaimValue,
    CredentialFormat, CredentialLink, CredentialQuery, DcqlError, ExtendedDcqlQuery, FilterOp,
    FilterValue, LinkRelation, PathElement, SparqlTranslator, SparqlValidate,
};

const PREFIXES: &str = "PREFIX cred: <https://www.w3.org/2018/credentials#>\n\
PREFIX rdf: <http://www.w3.org/1999/02/22-rdf-syntax-ns#>\n\
PREFIX rdfs: <http://www.w3.org/2000/01/rdf-schema#>\n\
PREFIX xsd: <http://www.w3.org/2001/XMLSchema#>\n\
PREFIX ex: <https://example.org/vocab#>\n\n";

fn key(k: &str) -> PathElement {
    PathElement::Key(k.to_string())
}

fn claim(id: Option<&str>, path: Vec<PathElement>) -> ClaimQuery {
    ClaimQuery { id: id.map(|s| s.to_string()), path, values: None, filter: None }
}

fn cred(id: &str, claims: Vec<ClaimQuery>) -> CredentialQuery {
    CredentialQuery {
        id: id.to_string(),
        format: CredentialFormat::LdpVc,
        meta: None,
        claims: Some(claims),
        claim_sets: None,
        trusted_authorities: None,
        multiple: None,
    }
}

fn query(credentials: Vec<CredentialQuery>) -> ExtendedDcqlQuery {
    ExtendedDcqlQuery { credentials, credential_sets: None, credential_links: None, aggregates: None }
}

fn link(lc: &str, lcl: &str, rc: &str, rcl: &str, relation: LinkRelation) -> CredentialLink {
    CredentialLink {
        left_credential: lc.into(),
        left_claim: lcl.into(),
        right_credential: rc.into(),
        right_claim: rcl.into(),
        relation,
    }
}

fn translate(q: &ExtendedDcqlQuery) -> String {
    SparqlTranslator::new().translate(q).unwrap()
}

/// The query of the README's quick start, translated in full.
#[test]
fn quick_start_translation_in_full() {
    let mut age = claim(Some("age"), vec![key("credentialSubject"), key("age")]);
    age.filter = Some(ClaimFilter { op: FilterOp::Ge, value: FilterValue::Integer(18) });
    let q = query(vec![cred(
        "identity",
        vec![
            claim(Some("issuer"), vec![key("issuer")]),
            claim(Some("name"), vec![key("credentialSubject"), key("name")]),
            age,
        ],
    )]);
    let expected = format!(
        "{PREFIXES}SELECT ?vc_identity ?val_identity_issuer ?val_identity_name ?val_identity_age\n\
WHERE {{\n  GRAPH ?vc_identity {{\n    ?vc_identity a cred:VerifiableCredential .\n    \
?vc_identity cred:issuer ?val_identity_issuer .\n    \
?vc_identity cred:credentialSubject ?subject_identity .\n    \
?subject_identity ex:name ?val_identity_name .\n    \
?subject_identity ex:age ?val_identity_age .\n  }}\n  FILTER(?val_identity_age >= 18)\n}}\n"
    );
    assert_eq!(translate(&q), expected);
}

/// The aggregate use case of the README, translated in full.
#[test]
fn aggregate_balance_translation_in_full() {
    let mut bank = cred("bank_account", vec![claim(Some("balance"), vec![key("credentialSubject"), key("balance")])]);
    bank.multiple = Some(true);
    let mut q = query(vec![bank]);
    q.aggregates = Some(vec![AggregateQuery {
        id: "total_balance".into(),
        credential_id: "bank_account".into(),
        claim_id: "balance".into(),
        function: AggregateFunction::Sum,
        having: Some(AggregateHaving { op: FilterOp::Gt, value: FilterValue::Integer(10000) }),
    }]);
    let expected = format!(
        "{PREFIXES}SELECT ?vc_bank_account ?val_bank_account_balance (SUM(?val_bank_account_balance) AS ?agg_total_balance)\n\
WHERE {{\n  GRAPH ?vc_bank_account {{\n    ?vc_bank_account a cred:VerifiableCredential .\n    \
?vc_bank_account cred:credentialSubject ?subject_bank_account .\n    \
?subject_bank_account ex:balance ?val_bank_account_balance .\n  }}\n}}\n\
GROUP BY ?vc_bank_account\nHAVING (?agg_total_balance > 10000)\n"
    );
    assert_eq!(translate(&q), expected);
}

#[test]
fn claim_without_id_is_named_by_its_index() {
    let q = query(vec![cred(
        "c",
        vec![claim(Some("a"), vec![key("issuer")]), claim(None, vec![key("credentialSubject"), key("x")])],
    )]);
    let s = translate(&q);
    assert!(s.contains("SELECT ?vc_c ?val_c_a ?val_c_1\n"), "{s}");
    assert!(s.contains("?subject_c ex:x ?val_c_1 ."), "{s}");
}

#[test]
fn credential_ids_are_sanitized_in_variables() {
    let q = query(vec![cred("my-cred.v1", vec![claim(Some("a b"), vec![key("issuer")])])]);
    let s = translate(&q);
    assert!(s.contains("GRAPH ?vc_my_cred_v1 {"), "{s}");
    assert!(s.contains("?vc_my_cred_v1 cred:issuer ?val_my_cred_v1_a_b ."), "{s}");
    // sanitizing twice changes nothing: an already clean id keeps its name
    let q2 = query(vec![cred("my_cred_v1", vec![claim(Some("a_b"), vec![key("issuer")])])]);
    assert!(translate(&q2).contains("?vc_my_cred_v1 cred:issuer ?val_my_cred_v1_a_b ."));
}

#[test]
fn unicode_letters_survive_sanitizing() {
    let q = query(vec![cred("café", vec![claim(Some("n"), vec![key("issuer")])])]);
    let s = translate(&q);
    assert!(s.contains("?vc_café cred:issuer ?val_café_n ."), "{s}");
}

#[test]
fn nested_credential_level_path_uses_vc_intermediate() {
    let q = query(vec![cred(
        "c",
        vec![claim(Some("st"), vec![key("credentialStatus"), key("a"), key("b")])],
    )]);
    let s = translate(&q);
    assert!(s.contains("    ?vc_c cred:credentialStatus ?mid_c_st_0_vc .\n"), "{s}");
    assert!(s.contains("    ?mid_c_st_0_vc ex:a ?mid_c_0_1 .\n"), "{s}");
    assert!(s.contains("    ?mid_c_0_1 ex:b ?val_c_st .\n"), "{s}");
    assert!(!s.contains("cred:credentialSubject"), "{s}");
}

#[test]
fn id_paths_bind_the_credential_itself() {
    let q = query(vec![cred(
        "c",
        vec![claim(Some("i"), vec![key("id")]), claim(Some("j"), vec![key("@id")])],
    )]);
    let s = translate(&q);
    assert!(s.contains("    BIND(?vc_c AS ?val_c_i)\n"), "{s}");
    assert!(s.contains("    BIND(?vc_c AS ?val_c_j)\n"), "{s}");
}

#[test]
fn type_fields_map_to_rdf_type() {
    let q = query(vec![cred(
        "c",
        vec![claim(Some("t"), vec![key("type")]), claim(Some("u"), vec![key("@type")]), claim(Some("h"), vec![key("holder")])],
    )]);
    let s = translate(&q);
    assert!(s.contains("?vc_c rdf:type ?val_c_t ."), "{s}");
    assert!(s.contains("?vc_c rdf:type ?val_c_u ."), "{s}");
    assert!(s.contains("?vc_c cred:holder ?val_c_h ."), "{s}");
}

#[test]
fn subject_alone_binds_the_subject_node() {
    let q = query(vec![cred("c", vec![claim(Some("s"), vec![key("credentialSubject")])])]);
    let s = translate(&q);
    assert!(s.contains("    ?vc_c cred:credentialSubject ?subject_c .\n    BIND(?subject_c AS ?val_c_s)\n"), "{s}");
}

#[test]
fn unknown_top_level_key_is_a_subject_field_and_subject_is_introduced_once() {
    let q = query(vec![cred(
        "c",
        vec![
            claim(Some("n"), vec![key("name")]),
            claim(Some("m"), vec![key("credentialSubject"), key("mail")]),
        ],
    )]);
    let s = translate(&q);
    assert_eq!(s.matches("cred:credentialSubject").count(), 1, "{s}");
    assert!(s.contains("    ?subject_c ex:name ?val_c_n .\n    ?subject_c ex:mail ?val_c_m .\n"), "{s}");
}

#[test]
fn wildcard_and_index_patterns() {
    let q = query(vec![cred(
        "deg",
        vec![
            claim(Some("dtype"), vec![key("credentialSubject"), PathElement::Wildcard, key("type")]),
            claim(Some("last"), vec![key("credentialSubject"), key("list"), PathElement::Index(3)]),
            claim(Some("w"), vec![key("credentialSubject"), PathElement::Wildcard]),
        ],
    )]);
    let s = translate(&q);
    assert!(s.contains("    ?subject_deg ?apred_deg_0 ?item_deg_0_0 .\n    ?item_deg_0_0 ex:type ?val_deg_dtype .\n"), "{s}");
    assert!(s.contains("    ?subject_deg ex:list ?mid_deg_1_0 .\n    # array index 3\n    ?mid_deg_1_0 ?apred_deg_1 ?val_deg_last .\n"), "{s}");
    assert!(s.contains("    ?subject_deg ?apred_deg_2 ?val_deg_w .\n"), "{s}");
}

#[test]
fn value_lists_are_quoted_escaped_and_or_combined() {
    let mut a = claim(Some("a"), vec![key("credentialSubject"), key("a")]);
    a.values = Some(vec![ClaimValue::Text("x\"y".into())]);
    let mut b = claim(Some("b"), vec![key("credentialSubject"), key("b")]);
    b.values = Some(vec![ClaimValue::Integer(-5), ClaimValue::Bool(true), ClaimValue::Integer(7)]);
    let mut c = claim(Some("c"), vec![key("credentialSubject"), key("c")]);
    c.values = Some(vec![]);
    let q = query(vec![cred("v", vec![a, b, c])]);
    let s = translate(&q);
    assert!(s.contains("  FILTER(?val_v_a = \"x\\\"y\")\n"), "{s}");
    assert!(s.contains("  FILTER((?val_v_b = -5 || ?val_v_b = true || ?val_v_b = 7))\n"), "{s}");
    assert!(!s.contains("?val_v_c ="), "{s}");
}

#[test]
fn filter_operators_render_exactly() {
    let mk = |id: &str, op: FilterOp, value: FilterValue| {
        let mut c = claim(Some(id), vec![key("credentialSubject"), key(id)]);
        c.filter = Some(ClaimFilter { op, value });
        c
    };
    let q = query(vec![cred(
        "f",
        vec![
            mk("a", FilterOp::Ge, FilterValue::Float("18.5".into())),
            mk("b", FilterOp::LangMatches, FilterValue::Text("en".into())),
            mk("c", FilterOp::Regex, FilterValue::Integer(5)),
            mk("d", FilterOp::Regex, FilterValue::Text("ab\"".into())),
            mk("e", FilterOp::Ne, FilterValue::Bool(false)),
            mk("g", FilterOp::Le, FilterValue::Integer(-3)),
            mk("h", FilterOp::Eq, FilterValue::Text("q".into())),
            mk("i", FilterOp::Lt, FilterValue::Integer(0)),
        ],
    )]);
    let s = translate(&q);
    assert!(s.contains("  FILTER(?val_f_a >= 18.5)\n"), "{s}");
    assert!(s.contains("  FILTER(LANGMATCHES(LANG(?val_f_b), \"en\"))\n"), "{s}");
    assert!(s.contains("  FILTER(REGEX(?val_f_c, \"5\"))\n"), "{s}");
    assert!(s.contains("  FILTER(REGEX(?val_f_d, \"ab\\\"))\n"), "{s}");
    assert!(s.contains("  FILTER(?val_f_e != false)\n"), "{s}");
    assert!(s.contains("  FILTER(?val_f_g <= -3)\n"), "{s}");
    assert!(s.contains("  FILTER(?val_f_h = \"q\")\n"), "{s}");
    assert!(s.contains("  FILTER(?val_f_i < 0)\n"), "{s}");
}

#[test]
fn claim_filter_replaces_values_test() {
    let mut c = claim(Some("a"), vec![key("credentialSubject"), key("a")]);
    c.values = Some(vec![ClaimValue::Integer(1)]);
    c.filter = Some(ClaimFilter { op: FilterOp::Gt, value: FilterValue::Integer(0) });
    let s = translate(&query(vec![cred("x", vec![c])]));
    assert!(s.contains("  FILTER(?val_x_a > 0)\n"), "{s}");
    assert!(!s.contains("?val_x_a = 1"), "{s}");
}

#[test]
fn credential_schema_is_a_subject_field() {
    let c = claim(Some("s"), vec![key("credentialSchema")]);
    let s = translate(&query(vec![cred("x", vec![c])]));
    assert!(s.contains("?vc_x cred:credentialSubject ?subject_x ."), "{s}");
    assert!(s.contains("?subject_x ex:credentialSchema ?val_x_s ."), "{s}");
    assert!(!s.contains("cred:credentialSchema"), "{s}");
}

#[test]
fn builder_calls_of_different_kinds_commute() {
    let a = SparqlQueryBuilder::new()
        .filter("?a > 1".to_string())
        .where_pattern("?a ?b ?c .".to_string())
        .having("?h".to_string())
        .select("?a")
        .limit(3)
        .build();
    let b = SparqlQueryBuilder::new()
        .limit(3)
        .select("?a")
        .where_pattern("?a ?b ?c .".to_string())
        .having("?h".to_string())
        .filter("?a > 1".to_string())
        .build();
    assert_eq!(a, b);
}

#[test]
fn select_all_wins_over_any_selects() {
    let q = SparqlQueryBuilder::new().select("?x").select_all().select("?y").build();
    assert_eq!(q, "SELECT *\nWHERE {\n}\n");
    let twice = SparqlQueryBuilder::new().select_all().select_all().build();
    assert_eq!(twice, SparqlQueryBuilder::new().select_all().build());
}

#[test]
fn every_relation_has_its_operator() {
    let relations = [
        (LinkRelation::Equal, "="),
        (LinkRelation::NotEqual, "!="),
        (LinkRelation::LessThan, "<"),
        (LinkRelation::LessThanOrEqual, "<="),
        (LinkRelation::GreaterThan, ">"),
        (LinkRelation::GreaterThanOrEqual, ">="),
    ];
    for (relation, op) in relations {
        assert_eq!(relation.to_sparql_op(), op);
        let mut q = query(vec![
            cred("a", vec![claim(Some("x"), vec![key("issuer")])]),
            cred("b", vec![claim(Some("y"), vec![key("issuer")])]),
        ]);
        q.credential_links = Some(vec![link("a", "x", "b", "y", relation)]);
        let s = translate(&q);
        assert!(s.contains(&format!("  FILTER(?val_a_x {op} ?val_b_y)\n")), "{s}");
    }
    assert_eq!(LinkRelation::default(), LinkRelation::Equal);
}

#[test]
fn links_are_conjoined_filters_after_claim_filters() {
    let mut a = claim(Some("x"), vec![key("issuer")]);
    a.filter = Some(ClaimFilter { op: FilterOp::Eq, value: FilterValue::Integer(1) });
    let mut q = query(vec![cred("a", vec![a]), cred("b", vec![claim(Some("y"), vec![key("issuer")])])]);
    q.credential_links = Some(vec![
        link("a", "x", "b", "y", LinkRelation::Equal),
        link("b", "y", "a", "x", LinkRelation::LessThan),
    ]);
    let s = translate(&q);
    assert!(s.contains("  FILTER(?val_a_x = 1)\n  FILTER(?val_a_x = ?val_b_y)\n  FILTER(?val_b_y < ?val_a_x)\n}\n"), "{s}");
}

#[test]
fn link_may_name_a_claim_by_its_index() {
    let mut q = query(vec![cred("c", vec![claim(None, vec![key("issuer")])])]);
    q.credential_links = Some(vec![link("c", "0", "c", "0", LinkRelation::Equal)]);
    let s = translate(&q);
    assert!(s.contains("FILTER(?val_c_0 = ?val_c_0)"), "{s}");
}

#[test]
fn translation_errors_name_the_missing_claim() {
    let mut q = query(vec![cred("a", vec![claim(Some("x"), vec![key("issuer")])])]);
    q.credential_links = Some(vec![link("a", "x", "a", "nope", LinkRelation::Equal)]);
    match SparqlTranslator::new().translate(&q) {
        Err(DcqlError::UnknownClaimId(claim_id, cred_id)) => {
            assert_eq!(claim_id, "nope");
            assert_eq!(cred_id, "a");
        }
        other => panic!("unexpected: {:?}", other),
    }
    let mut q2 = query(vec![cred("a", vec![claim(Some("x"), vec![key("issuer")])])]);
    q2.aggregates = Some(vec![AggregateQuery {
        id: "t".into(),
        credential_id: "zz".into(),
        claim_id: "x".into(),
        function: AggregateFunction::Max,
        having: None,
    }]);
    let e = SparqlTranslator::new().translate(&q2).unwrap_err();
    assert_eq!(e.to_string(), "unknown claim id 'x' in credential 'zz'");
}

#[test]
fn empty_path_error_comes_before_link_errors() {
    let mut q = query(vec![cred("a", vec![claim(Some("x"), vec![])])]);
    q.credential_links = Some(vec![link("a", "x", "ghost", "y", LinkRelation::Equal)]);
    let e = SparqlTranslator::new().translate(&q).unwrap_err();
    assert!(matches!(e, DcqlError::EmptyPath));
    assert_eq!(e.to_string(), "empty path is not allowed");
}

#[test]
fn aggregates_group_by_credentials_then_other_claims() {
    let mut q = query(vec![
        cred("a", vec![claim(Some("x"), vec![key("issuer")]), claim(Some("y"), vec![key("validFrom")])]),
        cred("b", vec![claim(Some("z"), vec![key("issuer")])]),
    ]);
    q.aggregates = Some(vec![
        AggregateQuery {
            id: "mx".into(),
            credential_id: "a".into(),
            claim_id: "x".into(),
            function: AggregateFunction::Min,
            having: Some(AggregateHaving { op: FilterOp::Ge, value: FilterValue::Integer(1) }),
        },
        AggregateQuery {
            id: "av-g".into(),
            credential_id: "b".into(),
            claim_id: "z".into(),
            function: AggregateFunction::Avg,
            having: Some(AggregateHaving { op: FilterOp::Regex, value: FilterValue::Text("^1".into()) }),
        },
    ]);
    let s = translate(&q);
    assert!(s.contains("SELECT ?vc_a ?val_a_x ?val_a_y ?vc_b ?val_b_z (MIN(?val_a_x) AS ?agg_mx) (AVG(?val_b_z) AS ?agg_av_g)\n"), "{s}");
    assert!(s.ends_with("}\nGROUP BY ?vc_a ?vc_b ?val_a_y\nHAVING (?agg_mx >= 1 && REGEX(?agg_av_g, \"^1\"))\n"), "{s}");
}

#[test]
fn no_aggregates_means_no_grouping() {
    let mut q = query(vec![cred("a", vec![claim(Some("x"), vec![key("issuer")])])]);
    q.aggregates = Some(vec![]);
    let s = translate(&q);
    assert!(!s.contains("GROUP BY"), "{s}");
    assert!(!s.contains("HAVING"), "{s}");
    assert!(s.ends_with("}\n"), "{s}");
}

#[test]
fn aggregate_function_names() {
    assert_eq!(AggregateFunction::Sum.to_sparql(), "SUM");
    assert_eq!(AggregateFunction::Count.to_sparql(), "COUNT");
    assert_eq!(AggregateFunction::Min.to_sparql(), "MIN");
    assert_eq!(AggregateFunction::Max.to_sparql(), "MAX");
    assert_eq!(AggregateFunction::Avg.to_sparql(), "AVG");
}

#[test]
fn later_field_mapping_wins_and_custom_prefix_is_declared() {
    let opts = TranslationOptions {
        default_prefix: "v".into(),
        default_namespace: "urn:v#".into(),
        extra_prefixes: vec![("s".into(), "urn:s#".into()), ("t".into(), "urn:t#".into())],
        field_mappings: vec![
            ("givenName".into(), "s:first".into()),
            ("givenName".into(), "t:given".into()),
        ],
    };
    let q = query(vec![cred(
        "p",
        vec![
            claim(Some("g"), vec![key("credentialSubject"), key("givenName")]),
            claim(Some("f"), vec![key("credentialSubject"), key("familyName")]),
        ],
    )]);
    let s = SparqlTranslator::with_options(opts).translate(&q).unwrap();
    assert!(s.starts_with("PREFIX cred: <https://www.w3.org/2018/credentials#>\n"), "{s}");
    assert!(s.contains("PREFIX xsd: <http://www.w3.org/2001/XMLSchema#>\nPREFIX v: <urn:v#>\nPREFIX s: <urn:s#>\nPREFIX t: <urn:t#>\n\n"), "{s}");
    assert!(s.contains("?subject_p t:given ?val_p_g ."), "{s}");
    assert!(s.contains("?subject_p v:familyName ?val_p_f ."), "{s}");
}

#[test]
fn default_options_and_translator() {
    let o = TranslationOptions::default();
    assert_eq!(o.default_prefix, "ex");
    assert_eq!(o.default_namespace, "https://example.org/vocab#");
    assert!(o.extra_prefixes.is_empty());
    assert!(o.field_mappings.is_empty());
    let q = query(vec![cred("a", vec![claim(Some("x"), vec![key("issuer")])])]);
    assert_eq!(
        SparqlTranslator::default().translate(&q).unwrap(),
        SparqlTranslator::new().translate(&q).unwrap()
    );
}

#[test]
fn credential_without_claims_still_gets_a_graph() {
    let mut c = cred("bare", vec![]);
    c.claims = None;
    let s = translate(&query(vec![c]));
    assert!(s.contains("SELECT ?vc_bare\nWHERE {\n  GRAPH ?vc_bare {\n    ?vc_bare a cred:VerifiableCredential .\n  }\n}\n"), "{s}");
}

#[test]
fn empty_query_selects_everything() {
    let s = translate(&query(vec![]));
    assert_eq!(s, format!("{PREFIXES}SELECT *\nWHERE {{\n}}\n"));
}

#[test]
fn builder_renders_each_section() {
    assert_eq!(SparqlQueryBuilder::new().build(), "SELECT *\nWHERE {\n}\n");
    let s = SparqlQueryBuilder::new()
        .prefix("a", "urn:a")
        .select("?x")
        .select("?y")
        .where_pattern("?x ?p ?y .\r\nline two\n".to_string())
        .filter("?x = 1".to_string())
        .group_by("?x")
        .group_by("?y")
        .having("COUNT(?y) > 1".to_string())
        .having("?x != 2".to_string())
        .limit(10)
        .build();
    assert_eq!(
        s,
        "PREFIX a: <urn:a>\n\nSELECT ?x ?y\nWHERE {\n  ?x ?p ?y .\n  line two\n  FILTER(?x = 1)\n}\nGROUP BY ?x ?y\nHAVING (COUNT(?y) > 1 && ?x != 2)\nLIMIT 10\n"
    );
    let all = SparqlQueryBuilder::new().select("?x").select_all().build();
    assert_eq!(all, "SELECT *\nWHERE {\n}\n");
}

#[test]
fn builder_keeps_empty_lines_but_not_a_final_newline() {
    let s = SparqlQueryBuilder::new().where_pattern("a\n\nb\n".to_string()).build();
    assert_eq!(s, "SELECT *\nWHERE {\n  a\n  \n  b\n}\n");
    let t = SparqlQueryBuilder::new().where_pattern(String::new()).build();
    assert_eq!(t, "SELECT *\nWHERE {\n}\n");
}

#[test]
fn translated_aggregate_free_query_parses_as_sparql() {
    let mut q = query(vec![cred(
        "c",
        vec![
            claim(Some("i"), vec![key("id")]),
            claim(Some("w"), vec![key("credentialSubject"), PathElement::Wildcard, key("n")]),
        ],
    )]);
    q.credential_links = Some(vec![link("c", "i", "c", "w", LinkRelation::NotEqual)]);
    let s = translate(&q);
    assert!(s.validate_sparql().is_ok(), "{s}");
}
