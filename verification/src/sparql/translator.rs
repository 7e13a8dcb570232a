//! Translation of a DCQL+ query into a SPARQL 1.1 SELECT query.
use vstd::prelude::*;

use crate::error::{DcqlError, DcqlErrorView};
use crate::model::dcql::{ClaimFilter, ClaimQuery, ClaimValue, CredentialQuery, FilterOp, FilterValue, PathElement};
use crate::model::extended::{
    aggregate_name, relation_op, AggregateHaving, AggregateQuery, CredentialLink, ExtendedDcqlQuery,
};
use crate::sparql::builder::{empty_parts, render, text_pairs, QueryParts, SparqlQueryBuilder};
use crate::text::{
    concat, decimal, decimal_text, escape_quotes, escape_quotes_text, is_alphanumeric, join,
    lemma_concat_push, lemma_join_push, lemma_texts_push, push_char, push_str, signed_decimal, signed_decimal_text,
    str_eq, text, texts, trim_quotes, trim_quotes_text, unicode_alphanumeric,
};

verus! {

// ---------------------------------------------------------------------------
// TranslationOptions
// ---------------------------------------------------------------------------

/// Options controlling SPARQL output generation.
#[derive(Debug, Clone)]
pub struct TranslationOptions {
    /// Default namespace prefix name (without colon). Default: "ex".
    pub default_prefix: String,
    /// Default namespace IRI. Default: "https://example.org/vocab#".
    pub default_namespace: String,
    /// Extra prefix declarations to include (prefix, IRI pairs).
    pub extra_prefixes: Vec<(String, String)>,
    /// Custom field-name to IRI mappings for credentialSubject fields, as
    /// (field name, IRI) pairs; a later pair for the same field name
    /// overrides an earlier one.
    pub field_mappings: Vec<(String, String)>,
}

/// Translation options as texts.
pub struct OptionsView {
    pub default_prefix: Seq<char>,
    pub default_namespace: Seq<char>,
    pub extra_prefixes: Seq<(Seq<char>, Seq<char>)>,
    pub field_mappings: Seq<(Seq<char>, Seq<char>)>,
}

impl View for TranslationOptions {
    type V = OptionsView;

    open spec fn view(&self) -> OptionsView {
        OptionsView {
            default_prefix: self.default_prefix@,
            default_namespace: self.default_namespace@,
            extra_prefixes: text_pairs(self.extra_prefixes@),
            field_mappings: text_pairs(self.field_mappings@),
        }
    }
}

pub open spec fn default_options() -> OptionsView {
    OptionsView {
        default_prefix: "ex"@,
        default_namespace: "https://example.org/vocab#"@,
        extra_prefixes: seq![],
        field_mappings: seq![],
    }
}

impl Default for TranslationOptions {
    fn default() -> (r: Self)
        ensures
            r@ == default_options(),
    {
        let r = Self {
            default_prefix: text("ex"),
            default_namespace: text("https://example.org/vocab#"),
            extra_prefixes: Vec::new(),
            field_mappings: Vec::new(),
        };
        assert(r@.extra_prefixes =~= default_options().extra_prefixes);
        assert(r@.field_mappings =~= default_options().field_mappings);
        r
    }
}

// ---------------------------------------------------------------------------
// Names and predicates
// ---------------------------------------------------------------------------

/// A character of an id as it appears in a variable name: letters, digits
/// and `_` stay, anything else becomes `_`.
pub open spec fn sanitize_char(c: char) -> char {
    if unicode_alphanumeric(c) || c == '_' {
        c
    } else {
        '_'
    }
}

/// An id with every character other than a letter, digit or `_` replaced by `_`.
pub open spec fn sanitize(s: Seq<char>) -> Seq<char> {
    s.map_values(|c: char| sanitize_char(c))
}

/// The top-level path keys that name fields of the credential itself.
pub open spec fn is_vc_level(k: Seq<char>) -> bool {
    ||| k == "issuer"@
    ||| k == "validFrom"@
    ||| k == "validUntil"@
    ||| k == "type"@
    ||| k == "@type"@
    ||| k == "id"@
    ||| k == "@id"@
    ||| k == "holder"@
    ||| k == "credentialStatus"@
}

/// The standard predicate of a credential-level field, for the fields that
/// have one.
pub open spec fn vc_field_iri(k: Seq<char>) -> Option<Seq<char>> {
    if k == "issuer"@ {
        Some("cred:issuer"@)
    } else if k == "validFrom"@ {
        Some("cred:validFrom"@)
    } else if k == "validUntil"@ {
        Some("cred:validUntil"@)
    } else if k == "type"@ || k == "@type"@ {
        Some("rdf:type"@)
    } else if k == "holder"@ {
        Some("cred:holder"@)
    } else if k == "credentialStatus"@ {
        Some("cred:credentialStatus"@)
    } else {
        None
    }
}

/// The IRI of the last mapping for `name`, if any.
pub open spec fn mapping_lookup(m: Seq<(Seq<char>, Seq<char>)>, name: Seq<char>) -> Option<
    Seq<char>,
>
    decreases m.len(),
{
    if m.len() == 0 {
        None
    } else if m.last().0 == name {
        Some(m.last().1)
    } else {
        mapping_lookup(m.drop_last(), name)
    }
}

/// The predicate of a credentialSubject field: its custom mapping, or the
/// default prefix.
pub open spec fn subject_predicate(
    prefix: Seq<char>,
    mappings: Seq<(Seq<char>, Seq<char>)>,
    name: Seq<char>,
) -> Seq<char> {
    match mapping_lookup(mappings, name) {
        Some(iri) => iri,
        None => prefix + ":"@ + name,
    }
}

/// The key under which a claim's value is named: its id, or else its index.
pub open spec fn claim_key(c: ClaimQuery, idx: int) -> Seq<char> {
    match c.id {
        Some(id) => id@,
        None => decimal(idx as nat),
    }
}

pub open spec fn vc_var(cred_id: Seq<char>) -> Seq<char> {
    "?vc_"@ + sanitize(cred_id)
}

pub open spec fn subject_var(cred_id: Seq<char>) -> Seq<char> {
    "?subject_"@ + sanitize(cred_id)
}

pub open spec fn val_var(cred_id: Seq<char>, key: Seq<char>) -> Seq<char> {
    "?val_"@ + sanitize(cred_id) + "_"@ + sanitize(key)
}

pub open spec fn agg_var(agg_id: Seq<char>) -> Seq<char> {
    "?agg_"@ + sanitize(agg_id)
}

pub open spec fn triple(s: Seq<char>, p: Seq<char>, o: Seq<char>) -> Seq<char> {
    s + " "@ + p + " "@ + o + " ."@
}

pub open spec fn bind_line(from: Seq<char>, to: Seq<char>) -> Seq<char> {
    "BIND("@ + from + " AS "@ + to + ")"@
}

// ---------------------------------------------------------------------------
// Paths
// ---------------------------------------------------------------------------

/// The triple patterns that walk `path` from `current` to `final_var`.
/// Intermediate nodes are numbered from `counter` on; `cred` is the
/// sanitized credential id and `idx` the claim's index.
pub open spec fn path_lines(
    prefix: Seq<char>,
    mappings: Seq<(Seq<char>, Seq<char>)>,
    current: Seq<char>,
    path: Seq<PathElement>,
    final_var: Seq<char>,
    cred: Seq<char>,
    idx: nat,
    counter: nat,
) -> Seq<Seq<char>>
    decreases path.len(),
{
    if path.len() == 0 {
        seq![bind_line(current, final_var)]
    } else {
        match path[0] {
            PathElement::Key(k) => {
                let pred = subject_predicate(prefix, mappings, k@);
                if path.len() == 1 {
                    seq![triple(current, pred, final_var)]
                } else {
                    let mid = "?mid_"@ + cred + "_"@ + decimal(idx) + "_"@ + decimal(counter);
                    seq![triple(current, pred, mid)] + path_lines(
                        prefix,
                        mappings,
                        mid,
                        path.drop_first(),
                        final_var,
                        cred,
                        idx,
                        counter + 1,
                    )
                }
            },
            PathElement::Wildcard => {
                let apred = "?apred_"@ + cred + "_"@ + decimal(idx);
                if path.len() == 1 {
                    seq![triple(current, apred, final_var)]
                } else {
                    let item = "?item_"@ + cred + "_"@ + decimal(idx) + "_"@ + decimal(counter);
                    seq![triple(current, apred, item)] + path_lines(
                        prefix,
                        mappings,
                        item,
                        path.drop_first(),
                        final_var,
                        cred,
                        idx,
                        counter + 1,
                    )
                }
            },
            PathElement::Index(i) => {
                let apred = "?apred_"@ + cred + "_"@ + decimal(idx);
                let comment = "# array index "@ + decimal(i as nat);
                if path.len() == 1 {
                    seq![comment, triple(current, apred, final_var)]
                } else {
                    let item = "?item_"@ + cred + "_"@ + decimal(idx) + "_"@ + decimal(counter);
                    seq![comment, triple(current, apred, item)] + path_lines(
                        prefix,
                        mappings,
                        item,
                        path.drop_first(),
                        final_var,
                        cred,
                        idx,
                        counter + 1,
                    )
                }
            },
        }
    }
}

// ---------------------------------------------------------------------------
// Filters
// ---------------------------------------------------------------------------

pub open spec fn bool_text(b: bool) -> Seq<char> {
    if b {
        "true"@
    } else {
        "false"@
    }
}

/// One equality test of a `values` list.
pub open spec fn value_test(var: Seq<char>, v: ClaimValue) -> Seq<char> {
    match v {
        ClaimValue::Text(s) => var + " = \""@ + escape_quotes(s@) + "\""@,
        ClaimValue::Integer(i) => var + " = "@ + signed_decimal(i as int),
        ClaimValue::Bool(b) => var + " = "@ + bool_text(b),
    }
}

/// The filter of a non-empty `values` list: one test, or all tests joined
/// with `||` in parentheses.
pub open spec fn values_filter(var: Seq<char>, vs: Seq<ClaimValue>) -> Seq<char> {
    if vs.len() == 1 {
        value_test(var, vs[0])
    } else {
        "("@ + join(vs.map_values(|v: ClaimValue| value_test(var, v)), " || "@) + ")"@
    }
}

/// A filter operand as SPARQL text.
pub open spec fn operand_text(v: FilterValue) -> Seq<char> {
    match v {
        FilterValue::Text(s) => "\""@ + escape_quotes(s@) + "\""@,
        FilterValue::Integer(i) => signed_decimal(i as int),
        FilterValue::Float(t) => t@,
        FilterValue::Bool(b) => bool_text(b),
    }
}

/// The comparison operator of a filter operation, for the comparisons.
pub open spec fn comparison_op(op: FilterOp) -> Seq<char> {
    match op {
        FilterOp::Eq => "="@,
        FilterOp::Ne => "!="@,
        FilterOp::Lt => "<"@,
        FilterOp::Le => "<="@,
        FilterOp::Gt => ">"@,
        FilterOp::Ge => ">="@,
        FilterOp::Regex => "REGEX"@,
        FilterOp::LangMatches => "LANGMATCHES"@,
    }
}

/// The SPARQL predicate that `op` and `value` make of a variable.
pub open spec fn predicate_text(var: Seq<char>, op: FilterOp, value: FilterValue) -> Seq<char> {
    match op {
        FilterOp::Regex => "REGEX("@ + var + ", \""@ + trim_quotes(operand_text(value)) + "\")"@,
        FilterOp::LangMatches => "LANGMATCHES(LANG("@ + var + "), \""@ + trim_quotes(
            operand_text(value),
        ) + "\")"@,
        _ => var + " "@ + comparison_op(op) + " "@ + operand_text(value),
    }
}


// ---------------------------------------------------------------------------
// The translation of a query
// ---------------------------------------------------------------------------

/// The claims of a credential (none when it has no claims list).
pub open spec fn claims_of(cred: CredentialQuery) -> Seq<ClaimQuery> {
    match cred.claims {
        Some(cs) => cs@,
        None => seq![],
    }
}

/// The claim's path starts at a credential-level field.
pub open spec fn starts_at_vc_field(c: ClaimQuery) -> bool {
    c.path@.len() > 0 && match c.path@[0] {
        PathElement::Key(k) => is_vc_level(k@),
        _ => false,
    }
}

/// The triple that introduces the credential's subject node, unless it has
/// been introduced already.
pub open spec fn subject_intro(cred_id: Seq<char>, declared: bool) -> Seq<Seq<char>> {
    if declared {
        seq![]
    } else {
        seq![triple(vc_var(cred_id), "cred:credentialSubject"@, subject_var(cred_id))]
    }
}

/// The patterns of a claim whose path starts at the credential-level field `k`.
pub open spec fn vc_field_lines(
    o: OptionsView,
    cred_id: Seq<char>,
    idx: int,
    key: Seq<char>,
    k: Seq<char>,
    path: Seq<PathElement>,
) -> Seq<Seq<char>> {
    let vc = vc_var(cred_id);
    let val = val_var(cred_id, key);
    if k == "id"@ || k == "@id"@ {
        seq![bind_line(vc, val)]
    } else {
        let pred = match vc_field_iri(k) {
            Some(iri) => iri,
            None => k,
        };
        if path.len() == 1 {
            seq![triple(vc, pred, val)]
        } else {
            let mid = "?mid_"@ + sanitize(cred_id) + "_"@ + sanitize(key) + "_"@ + decimal(0) + "_vc"@;
            seq![triple(vc, pred, mid)] + path_lines(
                o.default_prefix,
                o.field_mappings,
                mid,
                path.drop_first(),
                val,
                sanitize(cred_id),
                idx as nat,
                1,
            )
        }
    }
}

/// The graph patterns of one claim; `declared` tells whether the subject
/// node has been introduced by an earlier claim of the credential.
pub open spec fn claim_lines(
    o: OptionsView,
    cred_id: Seq<char>,
    idx: int,
    c: ClaimQuery,
    declared: bool,
) -> Seq<Seq<char>> {
    let key = claim_key(c, idx);
    let val = val_var(cred_id, key);
    let subj = subject_var(cred_id);
    let path = c.path@;
    if path.len() == 0 {
        seq![]
    } else {
        match path[0] {
            PathElement::Key(k) => if is_vc_level(k@) {
                vc_field_lines(o, cred_id, idx, key, k@, path)
            } else if k@ == "credentialSubject"@ {
                subject_intro(cred_id, declared) + path_lines(
                    o.default_prefix,
                    o.field_mappings,
                    subj,
                    path.drop_first(),
                    val,
                    sanitize(cred_id),
                    idx as nat,
                    0,
                )
            } else {
                subject_intro(cred_id, declared) + path_lines(
                    o.default_prefix,
                    o.field_mappings,
                    subj,
                    path,
                    val,
                    sanitize(cred_id),
                    idx as nat,
                    0,
                )
            },
            _ => subject_intro(cred_id, declared) + path_lines(
                o.default_prefix,
                o.field_mappings,
                subj,
                path,
                val,
                sanitize(cred_id),
                idx as nat,
                0,
            ),
        }
    }
}

/// Whether one of the first `n` claims introduced the subject node.
pub open spec fn declared_upto(cred: CredentialQuery, n: int) -> bool
    decreases n,
{
    if n <= 0 {
        false
    } else {
        declared_upto(cred, n - 1) || !starts_at_vc_field(claims_of(cred)[n - 1])
    }
}

/// The graph patterns of the credential header and its first `n` claims.
pub open spec fn graph_lines(o: OptionsView, cred: CredentialQuery, n: int) -> Seq<Seq<char>>
    decreases n,
{
    if n <= 0 {
        seq![vc_var(cred.id@) + " a cred:VerifiableCredential ."@]
    } else {
        graph_lines(o, cred, n - 1) + claim_lines(
            o,
            cred.id@,
            n - 1,
            claims_of(cred)[n - 1],
            declared_upto(cred, n - 1),
        )
    }
}

pub open spec fn graph_line(l: Seq<char>) -> Seq<char> {
    "  "@ + l + "\n"@
}

/// The GRAPH block of a credential.
pub open spec fn graph_block(o: OptionsView, cred: CredentialQuery) -> Seq<char> {
    "GRAPH "@ + vc_var(cred.id@) + " {\n"@ + concat(
        graph_lines(o, cred, claims_of(cred).len() as int).map_values(|l: Seq<char>| graph_line(l)),
    ) + "}"@
}

/// The value variables of the first `n` claims of a credential.
pub open spec fn claim_vars_upto(cred: CredentialQuery, n: int) -> Seq<Seq<char>>
    decreases n,
{
    if n <= 0 {
        seq![]
    } else {
        claim_vars_upto(cred, n - 1).push(
            val_var(cred.id@, claim_key(claims_of(cred)[n - 1], n - 1)),
        )
    }
}

/// The variables a credential contributes to SELECT.
pub open spec fn cred_selects(cred: CredentialQuery) -> Seq<Seq<char>> {
    seq![vc_var(cred.id@)] + claim_vars_upto(cred, claims_of(cred).len() as int)
}

/// The filter of one claim: its `filter` predicate, which replaces the
/// equality test of its `values`; else the `values` test, if there are values.
pub open spec fn claim_filters(c: ClaimQuery, val: Seq<char>) -> Seq<Seq<char>> {
    match c.filter {
        Some(f) => seq![predicate_text(val, f.op, f.value)],
        None => match c.values {
            Some(vs) => if vs@.len() > 0 {
                seq![values_filter(val, vs@)]
            } else {
                seq![]
            },
            None => seq![],
        },
    }
}

/// The filters of the first `n` claims of a credential.
pub open spec fn cred_filters_upto(cred: CredentialQuery, n: int) -> Seq<Seq<char>>
    decreases n,
{
    if n <= 0 {
        seq![]
    } else {
        cred_filters_upto(cred, n - 1) + claim_filters(
            claims_of(cred)[n - 1],
            val_var(cred.id@, claim_key(claims_of(cred)[n - 1], n - 1)),
        )
    }
}

pub open spec fn selects_upto(creds: Seq<CredentialQuery>, n: int) -> Seq<Seq<char>>
    decreases n,
{
    if n <= 0 {
        seq![]
    } else {
        selects_upto(creds, n - 1) + cred_selects(creds[n - 1])
    }
}

pub open spec fn wheres_upto(o: OptionsView, creds: Seq<CredentialQuery>, n: int) -> Seq<
    Seq<char>,
>
    decreases n,
{
    if n <= 0 {
        seq![]
    } else {
        wheres_upto(o, creds, n - 1).push(graph_block(o, creds[n - 1]))
    }
}

pub open spec fn filters_upto(creds: Seq<CredentialQuery>, n: int) -> Seq<Seq<char>>
    decreases n,
{
    if n <= 0 {
        seq![]
    } else {
        filters_upto(creds, n - 1) + cred_filters_upto(
            creds[n - 1],
            claims_of(creds[n - 1]).len() as int,
        )
    }
}

pub open spec fn vc_vars_upto(creds: Seq<CredentialQuery>, n: int) -> Seq<Seq<char>>
    decreases n,
{
    if n <= 0 {
        seq![]
    } else {
        vc_vars_upto(creds, n - 1).push(vc_var(creds[n - 1].id@))
    }
}

pub open spec fn links_of(q: ExtendedDcqlQuery) -> Seq<CredentialLink> {
    match q.credential_links {
        Some(ls) => ls@,
        None => seq![],
    }
}

pub open spec fn aggs_of(q: ExtendedDcqlQuery) -> Seq<AggregateQuery> {
    match q.aggregates {
        Some(a) => a@,
        None => seq![],
    }
}

/// The FILTER expression of a credential link.
pub open spec fn link_filter(l: CredentialLink) -> Seq<char> {
    val_var(l.left_credential@, l.left_claim@) + " "@ + relation_op(l.relation) + " "@ + val_var(
        l.right_credential@,
        l.right_claim@,
    )
}

/// The SELECT expression of an aggregate.
pub open spec fn agg_expr(a: AggregateQuery) -> Seq<char> {
    "("@ + aggregate_name(a.function) + "("@ + val_var(a.credential_id@, a.claim_id@) + ") AS "@
        + agg_var(a.id@) + ")"@
}

/// The HAVING expressions of the first `n` aggregates.
pub open spec fn havings_upto(aggs: Seq<AggregateQuery>, n: int) -> Seq<Seq<char>>
    decreases n,
{
    if n <= 0 {
        seq![]
    } else {
        havings_upto(aggs, n - 1) + match aggs[n - 1].having {
            Some(h) => seq![predicate_text(agg_var(aggs[n - 1].id@), h.op, h.value)],
            None => seq![],
        }
    }
}

/// Some aggregate reads the claim with this key in this credential.
pub open spec fn is_agg_source(aggs: Seq<AggregateQuery>, cred_id: Seq<char>, key: Seq<char>) -> bool {
    exists|k: int|
        0 <= k < aggs.len() && (#[trigger] aggs[k]).credential_id@ == cred_id && aggs[k].claim_id@
            == key
}

/// The value variables of the first `n` claims of a credential that no
/// aggregate reads.
pub open spec fn group_claim_vars_upto(aggs: Seq<AggregateQuery>, cred: CredentialQuery, n: int) -> Seq<
    Seq<char>,
>
    decreases n,
{
    if n <= 0 {
        seq![]
    } else {
        let key = claim_key(claims_of(cred)[n - 1], n - 1);
        if is_agg_source(aggs, cred.id@, key) {
            group_claim_vars_upto(aggs, cred, n - 1)
        } else {
            group_claim_vars_upto(aggs, cred, n - 1).push(val_var(cred.id@, key))
        }
    }
}

pub open spec fn group_vars_upto(
    aggs: Seq<AggregateQuery>,
    creds: Seq<CredentialQuery>,
    n: int,
) -> Seq<Seq<char>>
    decreases n,
{
    if n <= 0 {
        seq![]
    } else {
        group_vars_upto(aggs, creds, n - 1) + group_claim_vars_upto(
            aggs,
            creds[n - 1],
            claims_of(creds[n - 1]).len() as int,
        )
    }
}

/// The standard prefixes, the default one, then the extra ones.
pub open spec fn translation_prefixes(o: OptionsView) -> Seq<(Seq<char>, Seq<char>)> {
    seq![
        ("cred"@, "<"@ + "https://www.w3.org/2018/credentials#"@ + ">"@),
        ("rdf"@, "<"@ + "http://www.w3.org/1999/02/22-rdf-syntax-ns#"@ + ">"@),
        ("rdfs"@, "<"@ + "http://www.w3.org/2000/01/rdf-schema#"@ + ">"@),
        ("xsd"@, "<"@ + "http://www.w3.org/2001/XMLSchema#"@ + ">"@),
        (o.default_prefix, "<"@ + o.default_namespace + ">"@),
    ] + o.extra_prefixes.map_values(|p: (Seq<char>, Seq<char>)| (p.0, "<"@ + p.1 + ">"@))
}

/// The parts of the SPARQL query that a DCQL+ query translates to: one GRAPH
/// block per credential, its variables in SELECT, the claim filters and one
/// FILTER per credential link, and, when there are aggregates, their
/// expressions with GROUP BY and HAVING.
pub open spec fn translation_parts(o: OptionsView, q: ExtendedDcqlQuery) -> QueryParts {
    let creds = q.credentials@;
    let n = creds.len() as int;
    let aggs = aggs_of(q);
    let has_aggs = aggs.len() > 0;
    QueryParts {
        prefixes: translation_prefixes(o),
        select_vars: selects_upto(creds, n) + if has_aggs {
            aggs.map_values(|a: AggregateQuery| agg_expr(a))
        } else {
            seq![]
        },
        where_clauses: wheres_upto(o, creds, n),
        filters: filters_upto(creds, n) + links_of(q).map_values(|l: CredentialLink| link_filter(l)),
        group_by: if has_aggs {
            vc_vars_upto(creds, n) + group_vars_upto(aggs, creds, n)
        } else {
            seq![]
        },
        having: if has_aggs {
            havings_upto(aggs, aggs.len() as int)
        } else {
            seq![]
        },
        limit: None,
        select_all: false,
    }
}

/// The SPARQL text a DCQL+ query translates to.
pub open spec fn translation(o: OptionsView, q: ExtendedDcqlQuery) -> Seq<char> {
    render(translation_parts(o, q))
}

/// A claim of the credential has an empty path.
pub open spec fn cred_has_empty_path(cred: CredentialQuery) -> bool {
    exists|j: int| 0 <= j < claims_of(cred).len() && (#[trigger] claims_of(cred)[j]).path@.len() == 0
}

pub open spec fn has_empty_path(creds: Seq<CredentialQuery>) -> bool {
    exists|i: int| 0 <= i < creds.len() && cred_has_empty_path(#[trigger] creds[i])
}

/// A credential with this id has a claim with this key (its id, or its
/// index for a claim without id).
pub open spec fn has_claim_key(creds: Seq<CredentialQuery>, cred_id: Seq<char>, key: Seq<char>) -> bool {
    exists|i: int, j: int|
        0 <= i < creds.len() && (#[trigger] creds[i]).id@ == cred_id && 0 <= j < claims_of(
            creds[i],
        ).len() && claim_key(#[trigger] claims_of(creds[i])[j], j) == key
}

/// The error of a link whose claims the query does not have.
pub open spec fn link_translation_error(creds: Seq<CredentialQuery>, l: CredentialLink) -> Option<
    DcqlErrorView,
> {
    if !has_claim_key(creds, l.left_credential@, l.left_claim@) {
        Some(DcqlErrorView::UnknownClaimId(l.left_claim@, l.left_credential@))
    } else if !has_claim_key(creds, l.right_credential@, l.right_claim@) {
        Some(DcqlErrorView::UnknownClaimId(l.right_claim@, l.right_credential@))
    } else {
        None
    }
}

pub open spec fn first_link_translation_error(
    creds: Seq<CredentialQuery>,
    links: Seq<CredentialLink>,
    from: int,
) -> Option<DcqlErrorView>
    decreases links.len() - from,
{
    if from < 0 || from >= links.len() {
        None
    } else {
        match link_translation_error(creds, links[from]) {
            Some(e) => Some(e),
            None => first_link_translation_error(creds, links, from + 1),
        }
    }
}

/// The error of an aggregate over a claim the query does not have.
pub open spec fn agg_translation_error(creds: Seq<CredentialQuery>, a: AggregateQuery) -> Option<
    DcqlErrorView,
> {
    if !has_claim_key(creds, a.credential_id@, a.claim_id@) {
        Some(DcqlErrorView::UnknownClaimId(a.claim_id@, a.credential_id@))
    } else {
        None
    }
}

pub open spec fn first_agg_translation_error(
    creds: Seq<CredentialQuery>,
    aggs: Seq<AggregateQuery>,
    from: int,
) -> Option<DcqlErrorView>
    decreases aggs.len() - from,
{
    if from < 0 || from >= aggs.len() {
        None
    } else {
        match agg_translation_error(creds, aggs[from]) {
            Some(e) => Some(e),
            None => first_agg_translation_error(creds, aggs, from + 1),
        }
    }
}

/// Why a query cannot be translated, if it cannot: a claim with an empty
/// path; else the first link, then the first aggregate, that names a claim
/// the query does not have.
pub open spec fn translation_error(q: ExtendedDcqlQuery) -> Option<DcqlErrorView> {
    if has_empty_path(q.credentials@) {
        Some(DcqlErrorView::EmptyPath)
    } else {
        match first_link_translation_error(q.credentials@, links_of(q), 0) {
            Some(e) => Some(e),
            None => first_agg_translation_error(q.credentials@, aggs_of(q), 0),
        }
    }
}

// ---------------------------------------------------------------------------
// Helper functions
// ---------------------------------------------------------------------------

fn sanitize_id(id: &str) -> (r: String)
    ensures
        r@ == sanitize(id@),
{
    let mut out = String::new();
    for c in it: id.chars()
        invariant
            it.seq() == id@,
            out@ == sanitize(id@.take(it.index() as int)),
    {
        let d = if is_alphanumeric(c) || c == '_' {
            c
        } else {
            '_'
        };
        let ghost i = it.index();
        push_char(&mut out, d);
        assert(sanitize(id@.take(i + 1)) =~= sanitize(id@.take(i as int)).push(d));
    }
    assert(id@.take(id@.len() as int) =~= id@);
    out
}

fn is_vc_level_field(field: &str) -> (r: bool)
    ensures
        r == is_vc_level(field@),
{
    str_eq(field, "issuer") || str_eq(field, "validFrom") || str_eq(field, "validUntil")
        || str_eq(field, "type") || str_eq(field, "@type") || str_eq(field, "id") || str_eq(
        field,
        "@id",
    ) || str_eq(field, "holder") || str_eq(field, "credentialStatus")
}

/// Resolves field names to predicates: credential-level fields to their
/// standard predicates, credentialSubject fields through the custom
/// mappings or the default prefix.
struct NamespaceResolver<'a> {
    custom: &'a Vec<(String, String)>,
    default_prefix: &'a str,
}

impl<'a> NamespaceResolver<'a> {
    fn new(default_prefix: &'a str, custom: &'a Vec<(String, String)>) -> (r: Self)
        ensures
            r.default_prefix@ == default_prefix@,
            text_pairs(r.custom@) == text_pairs(custom@),
    {
        NamespaceResolver { custom, default_prefix }
    }

    fn resolve_vc_field(&self, name: &str) -> (r: Option<&'static str>)
        ensures
            match vc_field_iri(name@) {
                Some(iri) => r matches Some(s) && s@ == iri,
                None => r is None,
            },
    {
        if str_eq(name, "issuer") {
            Some("cred:issuer")
        } else if str_eq(name, "validFrom") {
            Some("cred:validFrom")
        } else if str_eq(name, "validUntil") {
            Some("cred:validUntil")
        } else if str_eq(name, "type") || str_eq(name, "@type") {
            Some("rdf:type")
        } else if str_eq(name, "holder") {
            Some("cred:holder")
        } else if str_eq(name, "credentialStatus") {
            Some("cred:credentialStatus")
        } else {
            None
        }
    }

    fn resolve_subject_field(&self, name: &str) -> (r: String)
        ensures
            r@ == subject_predicate(self.default_prefix@, text_pairs(self.custom@), name@),
    {
        let ghost m = text_pairs(self.custom@);
        let mut k: usize = self.custom.len();
        assert(m.take(k as int) =~= m);
        while k > 0
            invariant
                k <= self.custom@.len(),
                m == text_pairs(self.custom@),
                mapping_lookup(m, name@) == mapping_lookup(m.take(k as int), name@),
            decreases k,
        {
            let ghost mk = m.take(k as int);
            assert(mk.last() == m[k - 1]);
            assert(mk.drop_last() =~= m.take(k - 1));
            if str_eq(self.custom[k - 1].0.as_str(), name) {
                return self.custom[k - 1].1.clone();
            }
            k = k - 1;
        }
        let mut out = text(self.default_prefix);
        push_str(&mut out, ":");
        push_str(&mut out, name);
        out
    }

    spec fn prefix(&self) -> Seq<char> {
        self.default_prefix@
    }

    spec fn mappings(&self) -> Seq<(Seq<char>, Seq<char>)> {
        text_pairs(self.custom@)
    }
}

/// `s p o .`
fn triple_text(s: &str, p: &str, o: &str) -> (r: String)
    ensures
        r@ == triple(s@, p@, o@),
{
    let mut out = text(s);
    push_str(&mut out, " ");
    push_str(&mut out, p);
    push_str(&mut out, " ");
    push_str(&mut out, o);
    push_str(&mut out, " .");
    out
}

/// `BIND(from AS to)`
fn bind_text(from: &str, to: &str) -> (r: String)
    ensures
        r@ == bind_line(from@, to@),
{
    let mut out = text("BIND(");
    push_str(&mut out, from);
    push_str(&mut out, " AS ");
    push_str(&mut out, to);
    push_str(&mut out, ")");
    out
}

/// `head` + `_` + the decimal number.
fn numbered(head: &str, n: usize) -> (r: String)
    ensures
        r@ == head@ + "_"@ + decimal(n as nat),
{
    let mut out = text(head);
    push_str(&mut out, "_");
    let digits = decimal_text(n as u64);
    push_str(&mut out, digits.as_str());
    out
}

/// Appends the texts of `more` to `lines`.
fn append_lines(lines: &mut Vec<String>, more: Vec<String>)
    ensures
        texts(final(lines)@) == texts(old(lines)@) + texts(more@),
{
    let ghost start = lines@;
    let mut more = more;
    let ghost added = more@;
    lines.append(&mut more);
    assert(texts(lines@) =~= texts(start) + texts(added));
}

fn translate_path(
    current_var: &str,
    path: &Vec<PathElement>,
    start: usize,
    final_var: &str,
    cred_id: &str,
    claim_idx: usize,
    mid_counter: &mut usize,
    resolver: &NamespaceResolver,
) -> (r: Vec<String>)
    requires
        start <= path@.len(),
        *old(mid_counter) + (path@.len() - start) <= usize::MAX,
    ensures
        texts(r@) == path_lines(
            resolver.prefix(),
            resolver.mappings(),
            current_var@,
            path@.skip(start as int),
            final_var@,
            cred_id@,
            claim_idx as nat,
            *old(mid_counter) as nat,
        ),
        start == path@.len() ==> *final(mid_counter) == *old(mid_counter),
        start < path@.len() ==> *final(mid_counter) == *old(mid_counter) + (path@.len() - start
            - 1),
    decreases path@.len() - start,
{
    let ghost rest_path = path@.skip(start as int);
    if start == path.len() {
        let mut out: Vec<String> = Vec::new();
        let line = bind_text(current_var, final_var);
        out.push(line);
        assert(texts(out@) =~= seq![line@]);
        return out;
    }
    assert(rest_path[0] == path@[start as int]);
    assert(rest_path.drop_first() =~= path@.skip(start + 1));
    let last = start + 1 == path.len();
    let counter_before = *mid_counter;
    match &path[start] {
        PathElement::Key(k) => {
            let pred = resolver.resolve_subject_field(k.as_str());
            if last {
                let mut out: Vec<String> = Vec::new();
                let line = triple_text(current_var, pred.as_str(), final_var);
                out.push(line);
                assert(texts(out@) =~= seq![line@]);
                out
            } else {
                let mid_base = {
                    let mut m = text("?mid_");
                    push_str(&mut m, cred_id);
                    m
                };
                let with_idx = numbered(mid_base.as_str(), claim_idx);
                let mid = numbered(with_idx.as_str(), counter_before);
                *mid_counter = counter_before + 1;
                let mut out: Vec<String> = Vec::new();
                let line = triple_text(current_var, pred.as_str(), mid.as_str());
                out.push(line);
                assert(texts(out@) =~= seq![line@]);
                let nested = translate_path(
                    mid.as_str(),
                    path,
                    start + 1,
                    final_var,
                    cred_id,
                    claim_idx,
                    mid_counter,
                    resolver,
                );
                append_lines(&mut out, nested);
                out
            }
        },
        PathElement::Wildcard => {
            let apred_base = {
                let mut m = text("?apred_");
                push_str(&mut m, cred_id);
                m
            };
            let apred = numbered(apred_base.as_str(), claim_idx);
            if last {
                let mut out: Vec<String> = Vec::new();
                let line = triple_text(current_var, apred.as_str(), final_var);
                out.push(line);
                assert(texts(out@) =~= seq![line@]);
                out
            } else {
                let item_base = {
                    let mut m = text("?item_");
                    push_str(&mut m, cred_id);
                    m
                };
                let with_idx = numbered(item_base.as_str(), claim_idx);
                let item = numbered(with_idx.as_str(), counter_before);
                *mid_counter = counter_before + 1;
                let mut out: Vec<String> = Vec::new();
                let line = triple_text(current_var, apred.as_str(), item.as_str());
                out.push(line);
                assert(texts(out@) =~= seq![line@]);
                let nested = translate_path(
                    item.as_str(),
                    path,
                    start + 1,
                    final_var,
                    cred_id,
                    claim_idx,
                    mid_counter,
                    resolver,
                );
                append_lines(&mut out, nested);
                out
            }
        },
        PathElement::Index(i) => {
            let apred_base = {
                let mut m = text("?apred_");
                push_str(&mut m, cred_id);
                m
            };
            let apred = numbered(apred_base.as_str(), claim_idx);
            let mut comment = text("# array index ");
            let digits = decimal_text(*i);
            push_str(&mut comment, digits.as_str());
            if last {
                let mut out: Vec<String> = Vec::new();
                let line = triple_text(current_var, apred.as_str(), final_var);
                out.push(comment);
                out.push(line);
                assert(texts(out@) =~= seq![out@[0]@, line@]);
                out
            } else {
                let item_base = {
                    let mut m = text("?item_");
                    push_str(&mut m, cred_id);
                    m
                };
                let with_idx = numbered(item_base.as_str(), claim_idx);
                let item = numbered(with_idx.as_str(), counter_before);
                *mid_counter = counter_before + 1;
                let mut out: Vec<String> = Vec::new();
                let line = triple_text(current_var, apred.as_str(), item.as_str());
                out.push(comment);
                out.push(line);
                assert(texts(out@) =~= seq![out@[0]@, line@]);
                let nested = translate_path(
                    item.as_str(),
                    path,
                    start + 1,
                    final_var,
                    cred_id,
                    claim_idx,
                    mid_counter,
                    resolver,
                );
                append_lines(&mut out, nested);
                out
            }
        },
    }
}

fn bool_word(b: bool) -> (r: String)
    ensures
        r@ == bool_text(b),
{
    if b {
        text("true")
    } else {
        text("false")
    }
}

fn value_test_text(val_var: &str, v: &ClaimValue) -> (r: String)
    ensures
        r@ == value_test(val_var@, *v),
{
    let mut out = text(val_var);
    match v {
        ClaimValue::Text(s) => {
            push_str(&mut out, " = \"");
            let escaped = escape_quotes_text(s.as_str());
            push_str(&mut out, escaped.as_str());
            push_str(&mut out, "\"");
        },
        ClaimValue::Integer(i) => {
            push_str(&mut out, " = ");
            let digits = signed_decimal_text(*i);
            push_str(&mut out, digits.as_str());
        },
        ClaimValue::Bool(b) => {
            push_str(&mut out, " = ");
            let word = bool_word(*b);
            push_str(&mut out, word.as_str());
        },
    }
    out
}

fn translate_values_filter(val_var: &str, values: &Vec<ClaimValue>) -> (r: String)
    requires
        values@.len() > 0,
    ensures
        r@ == values_filter(val_var@, values@),
{
    if values.len() == 1 {
        return value_test_text(val_var, &values[0]);
    }
    let ghost tests = values@.map_values(|v: ClaimValue| value_test(val_var@, v));
    let mut out = text("(");
    let n = values.len();
    let mut i: usize = 0;
    while i < n
        invariant
            i <= n,
            n == values@.len(),
            tests == values@.map_values(|v: ClaimValue| value_test(val_var@, v)),
            out@ == "("@ + join(tests.take(i as int), " || "@),
        decreases n - i,
    {
        let part = value_test_text(val_var, &values[i]);
        proof {
            lemma_join_push(tests.take(i as int), " || "@, part@);
            assert(tests.take(i + 1) =~= tests.take(i as int).push(part@));
        }
        if i > 0 {
            push_str(&mut out, " || ");
        }
        push_str(&mut out, part.as_str());
        i = i + 1;
    }
    assert(tests.take(n as int) =~= tests);
    push_str(&mut out, ")");
    out
}

fn operand(value: &FilterValue) -> (r: String)
    ensures
        r@ == operand_text(*value),
{
    match value {
        FilterValue::Text(s) => {
            let mut out = text("\"");
            let escaped = escape_quotes_text(s.as_str());
            push_str(&mut out, escaped.as_str());
            push_str(&mut out, "\"");
            out
        },
        FilterValue::Integer(i) => signed_decimal_text(*i),
        FilterValue::Float(t) => t.clone(),
        FilterValue::Bool(b) => bool_word(*b),
    }
}

/// The predicate that a filter operation and operand make of `var`.
fn predicate(var: &str, op: FilterOp, value: &FilterValue) -> (r: String)
    ensures
        r@ == predicate_text(var@, op, *value),
{
    let val = operand(value);
    let sym = match op {
        FilterOp::Eq => "=",
        FilterOp::Ne => "!=",
        FilterOp::Lt => "<",
        FilterOp::Le => "<=",
        FilterOp::Gt => ">",
        FilterOp::Ge => ">=",
        FilterOp::Regex => {
            let mut out = text("REGEX(");
            push_str(&mut out, var);
            push_str(&mut out, ", \"");
            let inner = trim_quotes_text(val.as_str());
            push_str(&mut out, inner.as_str());
            push_str(&mut out, "\")");
            return out;
        },
        FilterOp::LangMatches => {
            let mut out = text("LANGMATCHES(LANG(");
            push_str(&mut out, var);
            push_str(&mut out, "), \"");
            let inner = trim_quotes_text(val.as_str());
            push_str(&mut out, inner.as_str());
            push_str(&mut out, "\")");
            return out;
        },
    };
    let mut out = text(var);
    push_str(&mut out, " ");
    push_str(&mut out, sym);
    push_str(&mut out, " ");
    push_str(&mut out, val.as_str());
    out
}

fn translate_claim_filter(val_var: &str, filter: &ClaimFilter) -> (r: String)
    ensures
        r@ == predicate_text(val_var@, filter.op, filter.value),
{
    predicate(val_var, filter.op, &filter.value)
}

fn translate_having(having: &AggregateHaving, agg_var: &str) -> (r: String)
    ensures
        r@ == predicate_text(agg_var@, having.op, having.value),
{
    predicate(agg_var, having.op, &having.value)
}


// ---------------------------------------------------------------------------
// Credentials and claims
// ---------------------------------------------------------------------------

/// The resolver reads the prefix and the mappings of the options `o`.
spec fn resolves_as(resolver: &NamespaceResolver, o: OptionsView) -> bool {
    resolver.prefix() == o.default_prefix && resolver.mappings() == o.field_mappings
}

fn claim_key_text(c: &ClaimQuery, idx: usize) -> (r: String)
    ensures
        r@ == claim_key(*c, idx as int),
{
    match &c.id {
        Some(id) => id.clone(),
        None => decimal_text(idx as u64),
    }
}

fn val_var_text(cred_id: &str, key: &str) -> (r: String)
    ensures
        r@ == val_var(cred_id@, key@),
{
    let mut out = text("?val_");
    let a = sanitize_id(cred_id);
    push_str(&mut out, a.as_str());
    push_str(&mut out, "_");
    let b = sanitize_id(key);
    push_str(&mut out, b.as_str());
    out
}

fn prefixed_id(head: &str, cred_id: &str) -> (r: String)
    ensures
        r@ == head@ + sanitize(cred_id@),
{
    let mut out = text(head);
    let a = sanitize_id(cred_id);
    push_str(&mut out, a.as_str());
    out
}

/// The patterns of a claim whose path starts at a credential-level field.
fn vc_field_lines_text(
    resolver: &NamespaceResolver,
    Ghost(o): Ghost<OptionsView>,
    cred_id: &str,
    idx: usize,
    key: &str,
    k: &str,
    path: &Vec<PathElement>,
) -> (r: Vec<String>)
    requires
        resolves_as(resolver, o),
        path@.len() > 0,
    ensures
        texts(r@) == vc_field_lines(o, cred_id@, idx as int, key@, k@, path@),
{
    let vc = prefixed_id("?vc_", cred_id);
    let val = val_var_text(cred_id, key);
    let mut out: Vec<String> = Vec::new();
    if str_eq(k, "id") || str_eq(k, "@id") {
        let line = bind_text(vc.as_str(), val.as_str());
        out.push(line);
        assert(texts(out@) =~= seq![line@]);
        return out;
    }
    let pred = match resolver.resolve_vc_field(k) {
        Some(iri) => text(iri),
        None => text(k),
    };
    if path.len() == 1 {
        let line = triple_text(vc.as_str(), pred.as_str(), val.as_str());
        out.push(line);
        assert(texts(out@) =~= seq![line@]);
        return out;
    }
    let mut head = prefixed_id("?mid_", cred_id);
    push_str(&mut head, "_");
    let skey = sanitize_id(key);
    push_str(&mut head, skey.as_str());
    let mut mid = numbered(head.as_str(), 0);
    push_str(&mut mid, "_vc");
    let line = triple_text(vc.as_str(), pred.as_str(), mid.as_str());
    out.push(line);
    assert(texts(out@) =~= seq![line@]);
    let safe = sanitize_id(cred_id);
    let mut counter: usize = 1;
    let nested = translate_path(
        mid.as_str(),
        path,
        1,
        val.as_str(),
        safe.as_str(),
        idx,
        &mut counter,
        resolver,
    );
    assert(path@.skip(1) =~= path@.drop_first());
    append_lines(&mut out, nested);
    out
}

/// The patterns of a claim whose path is walked from the subject node,
/// starting at element `start` of its path.
fn subject_lines_text(
    resolver: &NamespaceResolver,
    cred_id: &str,
    idx: usize,
    key: &str,
    path: &Vec<PathElement>,
    start: usize,
    declared: bool,
) -> (r: Vec<String>)
    requires
        start <= 1,
        start <= path@.len(),
    ensures
        texts(r@) == subject_intro(cred_id@, declared) + path_lines(
            resolver.prefix(),
            resolver.mappings(),
            subject_var(cred_id@),
            path@.skip(start as int),
            val_var(cred_id@, key@),
            sanitize(cred_id@),
            idx as nat,
            0,
        ),
{
    let vc = prefixed_id("?vc_", cred_id);
    let subj = prefixed_id("?subject_", cred_id);
    let val = val_var_text(cred_id, key);
    let mut out: Vec<String> = Vec::new();
    if !declared {
        let line = triple_text(vc.as_str(), "cred:credentialSubject", subj.as_str());
        out.push(line);
        assert(texts(out@) =~= seq![line@]);
    } else {
        assert(texts(out@) =~= Seq::<Seq<char>>::empty());
    }
    let safe = sanitize_id(cred_id);
    let mut counter: usize = 0;
    let _plen = path.len();
    let nested = translate_path(
        subj.as_str(),
        path,
        start,
        val.as_str(),
        safe.as_str(),
        idx,
        &mut counter,
        resolver,
    );
    append_lines(&mut out, nested);
    out
}

/// The graph patterns of one claim.
fn claim_lines_text(
    resolver: &NamespaceResolver,
    Ghost(o): Ghost<OptionsView>,
    cred_id: &str,
    idx: usize,
    c: &ClaimQuery,
    declared: bool,
) -> (r: Vec<String>)
    requires
        resolves_as(resolver, o),
        c.path@.len() > 0,
    ensures
        texts(r@) == claim_lines(o, cred_id@, idx as int, *c, declared),
{
    let key = claim_key_text(c, idx);
    match &c.path[0] {
        PathElement::Key(k) => {
            if is_vc_level_field(k.as_str()) {
                return vc_field_lines_text(
                    resolver,
                    Ghost(o),
                    cred_id,
                    idx,
                    key.as_str(),
                    k.as_str(),
                    &c.path,
                );
            }
            if str_eq(k.as_str(), "credentialSubject") {
                let r = subject_lines_text(resolver, cred_id, idx, key.as_str(), &c.path, 1, declared);
                assert(c.path@.skip(1) =~= c.path@.drop_first());
                return r;
            }
        },
        _ => {},
    }
    let r = subject_lines_text(resolver, cred_id, idx, key.as_str(), &c.path, 0, declared);
    assert(c.path@.skip(0) =~= c.path@);
    r
}

fn starts_at_vc_field_exec(c: &ClaimQuery) -> (r: bool)
    ensures
        r == starts_at_vc_field(*c),
{
    if c.path.len() == 0 {
        return false;
    }
    match &c.path[0] {
        PathElement::Key(k) => is_vc_level_field(k.as_str()),
        _ => false,
    }
}

/// The filters of one claim.
fn claim_filters_text(c: &ClaimQuery, val: &str) -> (r: Vec<String>)
    ensures
        texts(r@) == claim_filters(*c, val@),
{
    let mut out: Vec<String> = Vec::new();
    match &c.filter {
        Some(f) => {
            let g = translate_claim_filter(val, f);
            out.push(g);
            assert(texts(out@) =~= seq![g@]);
        },
        None => match &c.values {
            Some(values) => {
                if values.len() > 0 {
                    let f = translate_values_filter(val, values);
                    out.push(f);
                    assert(texts(out@) =~= seq![f@]);
                } else {
                    assert(texts(out@) =~= Seq::<Seq<char>>::empty());
                }
            },
            None => {
                assert(texts(out@) =~= Seq::<Seq<char>>::empty());
            },
        },
    }
    out
}

/// What one credential contributes to the query: its SELECT variables, its
/// GRAPH block and its claim filters.
struct CredentialSection {
    selects: Vec<String>,
    block: String,
    filters: Vec<String>,
}

/// The GRAPH block around the given patterns.
fn graph_block_text(vc: &str, lines: &Vec<String>) -> (r: String)
    ensures
        r@ == "GRAPH "@ + vc@ + " {\n"@ + concat(texts(lines@).map_values(|l: Seq<char>| graph_line(l)))
            + "}"@,
{
    let mut out = text("GRAPH ");
    push_str(&mut out, vc);
    push_str(&mut out, " {\n");
    let ghost start = out@;
    let ghost lv = texts(lines@);
    let n = lines.len();
    let mut i: usize = 0;
    while i < n
        invariant
            i <= n,
            n == lines@.len(),
            lv == texts(lines@),
            out@ == start + concat(lv.take(i as int).map_values(|l: Seq<char>| graph_line(l))),
        decreases n - i,
    {
        let ghost before = out@;
        push_str(&mut out, "  ");
        push_str(&mut out, lines[i].as_str());
        push_str(&mut out, "\n");
        proof {
            let mapped = lv.take(i as int).map_values(|l: Seq<char>| graph_line(l));
            assert(lv.take(i + 1).map_values(|l: Seq<char>| graph_line(l)) =~= mapped.push(
                graph_line(lv[i as int]),
            ));
            lemma_concat_push(mapped, graph_line(lv[i as int]));
            assert(out@ =~= before + graph_line(lv[i as int]));
        }
        i = i + 1;
    }
    assert(lv.take(n as int) =~= lv);
    push_str(&mut out, "}");
    out
}


/// What one credential contributes: SELECT variables, GRAPH block and claim
/// filters; an empty claim path is refused.
fn credential_section(
    resolver: &NamespaceResolver,
    Ghost(o): Ghost<OptionsView>,
    cred: &CredentialQuery,
) -> (r: Result<CredentialSection, DcqlError>)
    requires
        resolves_as(resolver, o),
    ensures
        cred_has_empty_path(*cred) ==> (r matches Err(e) && e@ == DcqlErrorView::EmptyPath),
        !cred_has_empty_path(*cred) ==> (r matches Ok(sec) && texts(sec.selects@) == cred_selects(
            *cred,
        ) && sec.block@ == graph_block(o, *cred) && texts(sec.filters@) == cred_filters_upto(
            *cred,
            claims_of(*cred).len() as int,
        )),
{
    let id = cred.id.as_str();
    let vc = prefixed_id("?vc_", id);
    let mut selects: Vec<String> = Vec::new();
    selects.push(vc.clone());
    let mut header = vc.clone();
    push_str(&mut header, " a cred:VerifiableCredential .");
    let mut lines: Vec<String> = Vec::new();
    lines.push(header);
    let mut filters: Vec<String> = Vec::new();
    let mut declared = false;
    let ghost cs = claims_of(*cred);
    assert(texts(selects@) =~= seq![vc_var(cred.id@)] + claim_vars_upto(*cred, 0));
    assert(texts(lines@) =~= graph_lines(o, *cred, 0));
    assert(texts(filters@) =~= cred_filters_upto(*cred, 0));
    match &cred.claims {
        None => {},
        Some(claims) => {
            let n = claims.len();
            let mut j: usize = 0;
            while j < n
                invariant
                    j <= n,
                    n == claims@.len(),
                    cs == claims@,
                    cred.claims == Some(*claims),
                    resolves_as(resolver, o),
                    id@ == cred.id@,
                    vc@ == vc_var(cred.id@),
                    texts(selects@) == seq![vc_var(cred.id@)] + claim_vars_upto(*cred, j as int),
                    texts(lines@) == graph_lines(o, *cred, j as int),
                    declared == declared_upto(*cred, j as int),
                    texts(filters@) == cred_filters_upto(*cred, j as int),
                    forall|k: int| 0 <= k < j ==> (#[trigger] cs[k]).path@.len() > 0,
                decreases n - j,
            {
                let claim = &claims[j];
                let key = claim_key_text(claim, j);
                let val = val_var_text(id, key.as_str());
                if claim.path.len() == 0 {
                    assert(cs[j as int].path@.len() == 0);
                    return Err(DcqlError::EmptyPath);
                }
                let ghost before_selects = texts(selects@);
                let v2 = val.clone();
                proof {
                    lemma_texts_push(selects@, v2);
                }
                selects.push(v2);
                assert(texts(selects@) =~= seq![vc_var(cred.id@)] + claim_vars_upto(
                    *cred,
                    j + 1,
                ));
                let more = claim_lines_text(resolver, Ghost(o), id, j, claim, declared);
                append_lines(&mut lines, more);
                let fs = claim_filters_text(claim, val.as_str());
                append_lines(&mut filters, fs);
                let starts = starts_at_vc_field_exec(claim);
                declared = declared || !starts;
                j = j + 1;
            }
        },
    }
    assert(!cred_has_empty_path(*cred));
    let block = graph_block_text(vc.as_str(), &lines);
    Ok(CredentialSection { selects, block, filters })
}

/// Whether a credential with this id has a claim with this key.
fn has_claim_key_exec(creds: &Vec<CredentialQuery>, cred_id: &str, key: &str) -> (r: bool)
    ensures
        r == has_claim_key(creds@, cred_id@, key@),
{
    let n = creds.len();
    let mut i: usize = 0;
    while i < n
        invariant
            i <= n,
            n == creds@.len(),
            forall|a: int, b: int|
                0 <= a < i && (#[trigger] creds@[a]).id@ == cred_id@ && 0 <= b < claims_of(
                    creds@[a],
                ).len() ==> claim_key(#[trigger] claims_of(creds@[a])[b], b) != key@,
        decreases n - i,
    {
        if str_eq(creds[i].id.as_str(), cred_id) {
            match &creds[i].claims {
                None => {},
                Some(claims) => {
                    let m = claims.len();
                    let mut j: usize = 0;
                    while j < m
                        invariant
                            j <= m,
                            m == claims@.len(),
                            i < n,
                            n == creds@.len(),
                            creds@[i as int].claims == Some(*claims),
                            creds@[i as int].id@ == cred_id@,
                            forall|b: int|
                                0 <= b < j ==> claim_key(#[trigger] claims@[b], b) != key@,
                        decreases m - j,
                    {
                        let k = claim_key_text(&claims[j], j);
                        if str_eq(k.as_str(), key) {
                            assert(claims_of(creds@[i as int])[j as int] == claims@[j as int]);
                            return true;
                        }
                        j = j + 1;
                    }
                    assert forall|b: int|
                        0 <= b < claims_of(creds@[i as int]).len() implies claim_key(
                            #[trigger] claims_of(creds@[i as int])[b],
                            b,
                        ) != key@ by {
                        assert(claims_of(creds@[i as int])[b] == claims@[b]);
                    }
                },
            }
        }
        i = i + 1;
    }
    false
}

/// One FILTER per credential link; a link to an unknown claim is refused.
fn link_filters_text(query: &ExtendedDcqlQuery) -> (r: Result<Vec<String>, DcqlError>)
    ensures
        match first_link_translation_error(query.credentials@, links_of(*query), 0) {
            Some(e) => r matches Err(err) && err@ == e,
            None => r matches Ok(v) && texts(v@) == links_of(*query).map_values(
                |l: CredentialLink| link_filter(l),
            ),
        },
{
    let mut out: Vec<String> = Vec::new();
    match &query.credential_links {
        None => {
            assert(texts(out@) =~= links_of(*query).map_values(|l: CredentialLink| link_filter(l)));
            Ok(out)
        },
        Some(links) => {
            let ghost ls = links@;
            let n = links.len();
            let mut i: usize = 0;
            while i < n
                invariant
                    i <= n,
                    n == links@.len(),
                    ls == links@,
                    ls == links_of(*query),
                    texts(out@) == ls.take(i as int).map_values(|l: CredentialLink| link_filter(l)),
                    forall|k: int|
                        0 <= k < i ==> link_translation_error(
                            query.credentials@,
                            #[trigger] ls[k],
                        ).is_none(),
                decreases n - i,
            {
                proof {
                    lemma_first_link_translation_error_skip(query.credentials@, ls, i as int);
                }
                let link = &links[i];
                if !has_claim_key_exec(
                    &query.credentials,
                    link.left_credential.as_str(),
                    link.left_claim.as_str(),
                ) {
                    return Err(
                        DcqlError::UnknownClaimId(
                            link.left_claim.clone(),
                            link.left_credential.clone(),
                        ),
                    );
                }
                if !has_claim_key_exec(
                    &query.credentials,
                    link.right_credential.as_str(),
                    link.right_claim.as_str(),
                ) {
                    return Err(
                        DcqlError::UnknownClaimId(
                            link.right_claim.clone(),
                            link.right_credential.clone(),
                        ),
                    );
                }
                let left = val_var_text(link.left_credential.as_str(), link.left_claim.as_str());
                let right = val_var_text(
                    link.right_credential.as_str(),
                    link.right_claim.as_str(),
                );
                let mut f = left;
                push_str(&mut f, " ");
                push_str(&mut f, link.relation.to_sparql_op());
                push_str(&mut f, " ");
                push_str(&mut f, right.as_str());
                proof {
                    lemma_texts_push(out@, f);
                    assert(ls.take(i + 1).map_values(|l: CredentialLink| link_filter(l))
                        =~= ls.take(i as int).map_values(|l: CredentialLink| link_filter(l)).push(
                        link_filter(ls[i as int]),
                    ));
                }
                out.push(f);
                i = i + 1;
            }
            proof {
                lemma_first_link_translation_error_skip(query.credentials@, ls, n as int);
                assert(ls.take(n as int) =~= ls);
            }
            Ok(out)
        },
    }
}

proof fn lemma_first_link_translation_error_skip(
    creds: Seq<CredentialQuery>,
    links: Seq<CredentialLink>,
    from: int,
)
    requires
        0 <= from <= links.len(),
        forall|j: int|
            0 <= j < from ==> link_translation_error(creds, #[trigger] links[j]).is_none(),
    ensures
        first_link_translation_error(creds, links, 0) == first_link_translation_error(
            creds,
            links,
            from,
        ),
    decreases from,
{
    if from > 0 {
        lemma_first_link_translation_error_skip(creds, links, from - 1);
    }
}

proof fn lemma_first_agg_translation_error_skip(
    creds: Seq<CredentialQuery>,
    aggs: Seq<AggregateQuery>,
    from: int,
)
    requires
        0 <= from <= aggs.len(),
        forall|j: int| 0 <= j < from ==> agg_translation_error(creds, #[trigger] aggs[j]).is_none(),
    ensures
        first_agg_translation_error(creds, aggs, 0) == first_agg_translation_error(
            creds,
            aggs,
            from,
        ),
    decreases from,
{
    if from > 0 {
        lemma_first_agg_translation_error_skip(creds, aggs, from - 1);
    }
}


/// Whether some aggregate reads the claim with this key in this credential.
fn is_agg_source_exec(aggs: &Vec<AggregateQuery>, cred_id: &str, key: &str) -> (r: bool)
    ensures
        r == is_agg_source(aggs@, cred_id@, key@),
{
    let n = aggs.len();
    let mut k: usize = 0;
    while k < n
        invariant
            k <= n,
            n == aggs@.len(),
            forall|x: int|
                0 <= x < k ==> !((#[trigger] aggs@[x]).credential_id@ == cred_id@
                    && aggs@[x].claim_id@ == key@),
        decreases n - k,
    {
        if str_eq(aggs[k].credential_id.as_str(), cred_id) && str_eq(
            aggs[k].claim_id.as_str(),
            key,
        ) {
            return true;
        }
        k = k + 1;
    }
    false
}

/// The value variables of a credential's claims that no aggregate reads.
fn group_claim_vars_text(aggs: &Vec<AggregateQuery>, cred: &CredentialQuery) -> (r: Vec<String>)
    ensures
        texts(r@) == group_claim_vars_upto(aggs@, *cred, claims_of(*cred).len() as int),
{
    let mut out: Vec<String> = Vec::new();
    assert(texts(out@) =~= group_claim_vars_upto(aggs@, *cred, 0));
    match &cred.claims {
        None => out,
        Some(claims) => {
            let n = claims.len();
            let mut j: usize = 0;
            while j < n
                invariant
                    j <= n,
                    n == claims@.len(),
                    cred.claims == Some(*claims),
                    texts(out@) == group_claim_vars_upto(aggs@, *cred, j as int),
                decreases n - j,
            {
                let key = claim_key_text(&claims[j], j);
                if !is_agg_source_exec(aggs, cred.id.as_str(), key.as_str()) {
                    let v = val_var_text(cred.id.as_str(), key.as_str());
                    proof {
                        lemma_texts_push(out@, v);
                    }
                    out.push(v);
                }
                j = j + 1;
            }
            out
        },
    }
}

/// What the aggregates contribute: SELECT expressions, GROUP BY variables of
/// the claims they do not read, and HAVING expressions.
struct AggregateSection {
    selects: Vec<String>,
    group_vars: Vec<String>,
    having: Vec<String>,
}

fn aggregate_section(query: &ExtendedDcqlQuery, aggs: &Vec<AggregateQuery>) -> (r: Result<
    AggregateSection,
    DcqlError,
>)
    requires
        aggs@ == aggs_of(*query),
    ensures
        match first_agg_translation_error(query.credentials@, aggs@, 0) {
            Some(e) => r matches Err(err) && err@ == e,
            None => r matches Ok(a) && texts(a.selects@) == aggs@.map_values(
                |x: AggregateQuery| agg_expr(x),
            ) && texts(a.having@) == havings_upto(aggs@, aggs@.len() as int) && texts(
                a.group_vars@,
            ) == group_vars_upto(aggs@, query.credentials@, query.credentials@.len() as int),
        },
{
    let mut selects: Vec<String> = Vec::new();
    let mut having: Vec<String> = Vec::new();
    let n = aggs.len();
    let mut i: usize = 0;
    assert(texts(having@) =~= havings_upto(aggs@, 0));
    while i < n
        invariant
            i <= n,
            n == aggs@.len(),
            texts(selects@) == aggs@.take(i as int).map_values(|x: AggregateQuery| agg_expr(x)),
            texts(having@) == havings_upto(aggs@, i as int),
            forall|k: int|
                0 <= k < i ==> agg_translation_error(
                    query.credentials@,
                    #[trigger] aggs@[k],
                ).is_none(),
        decreases n - i,
    {
        proof {
            lemma_first_agg_translation_error_skip(query.credentials@, aggs@, i as int);
        }
        let agg = &aggs[i];
        if !has_claim_key_exec(&query.credentials, agg.credential_id.as_str(), agg.claim_id.as_str()) {
            return Err(DcqlError::UnknownClaimId(agg.claim_id.clone(), agg.credential_id.clone()));
        }
        let source = val_var_text(agg.credential_id.as_str(), agg.claim_id.as_str());
        let var = prefixed_id("?agg_", agg.id.as_str());
        let mut e = text("(");
        push_str(&mut e, agg.function.to_sparql());
        push_str(&mut e, "(");
        push_str(&mut e, source.as_str());
        push_str(&mut e, ") AS ");
        push_str(&mut e, var.as_str());
        push_str(&mut e, ")");
        proof {
            lemma_texts_push(selects@, e);
            assert(aggs@.take(i + 1).map_values(|x: AggregateQuery| agg_expr(x)) =~= aggs@.take(
                i as int,
            ).map_values(|x: AggregateQuery| agg_expr(x)).push(agg_expr(aggs@[i as int])));
        }
        selects.push(e);
        let ghost before_having = texts(having@);
        match &agg.having {
            Some(h) => {
                let hx = translate_having(h, var.as_str());
                proof {
                    lemma_texts_push(having@, hx);
                }
                having.push(hx);
                assert(texts(having@) =~= before_having + seq![hx@]);
            },
            None => {
                assert(texts(having@) =~= before_having + Seq::<Seq<char>>::empty());
            },
        }
        i = i + 1;
    }
    proof {
        lemma_first_agg_translation_error_skip(query.credentials@, aggs@, n as int);
        assert(aggs@.take(n as int) =~= aggs@);
    }
    let creds = &query.credentials;
    let mut group_vars: Vec<String> = Vec::new();
    let m = creds.len();
    let mut c: usize = 0;
    assert(texts(group_vars@) =~= group_vars_upto(aggs@, creds@, 0));
    while c < m
        invariant
            c <= m,
            m == creds@.len(),
            texts(group_vars@) == group_vars_upto(aggs@, creds@, c as int),
        decreases m - c,
    {
        let more = group_claim_vars_text(aggs, &creds[c]);
        append_lines(&mut group_vars, more);
        c = c + 1;
    }
    Ok(AggregateSection { selects, group_vars, having })
}

// ---------------------------------------------------------------------------
// Adding many parts to a builder
// ---------------------------------------------------------------------------

fn add_selects(b: SparqlQueryBuilder, items: &Vec<String>) -> (r: SparqlQueryBuilder)
    ensures
        r@ == (QueryParts { select_vars: b@.select_vars + texts(items@), ..b@ }),
{
    let mut b = b;
    let ghost start = b@;
    let n = items.len();
    let mut i: usize = 0;
    while i < n
        invariant
            i <= n,
            n == items@.len(),
            b@ == (QueryParts { select_vars: start.select_vars + texts(items@).take(i as int), ..start }),
        decreases n - i,
    {
        b = b.select(items[i].as_str());
        assert(start.select_vars + texts(items@).take(i + 1) =~= (start.select_vars + texts(
            items@,
        ).take(i as int)).push(items@[i as int]@));
        i = i + 1;
    }
    assert(texts(items@).take(n as int) =~= texts(items@));
    b
}

fn add_filters(b: SparqlQueryBuilder, items: &Vec<String>) -> (r: SparqlQueryBuilder)
    ensures
        r@ == (QueryParts { filters: b@.filters + texts(items@), ..b@ }),
{
    let mut b = b;
    let ghost start = b@;
    let n = items.len();
    let mut i: usize = 0;
    while i < n
        invariant
            i <= n,
            n == items@.len(),
            b@ == (QueryParts { filters: start.filters + texts(items@).take(i as int), ..start }),
        decreases n - i,
    {
        b = b.filter(items[i].clone());
        assert(start.filters + texts(items@).take(i + 1) =~= (start.filters + texts(items@).take(
            i as int,
        )).push(items@[i as int]@));
        i = i + 1;
    }
    assert(texts(items@).take(n as int) =~= texts(items@));
    b
}

fn add_group_by(b: SparqlQueryBuilder, items: &Vec<String>) -> (r: SparqlQueryBuilder)
    ensures
        r@ == (QueryParts { group_by: b@.group_by + texts(items@), ..b@ }),
{
    let mut b = b;
    let ghost start = b@;
    let n = items.len();
    let mut i: usize = 0;
    while i < n
        invariant
            i <= n,
            n == items@.len(),
            b@ == (QueryParts { group_by: start.group_by + texts(items@).take(i as int), ..start }),
        decreases n - i,
    {
        b = b.group_by(items[i].as_str());
        assert(start.group_by + texts(items@).take(i + 1) =~= (start.group_by + texts(items@).take(
            i as int,
        )).push(items@[i as int]@));
        i = i + 1;
    }
    assert(texts(items@).take(n as int) =~= texts(items@));
    b
}

fn add_having(b: SparqlQueryBuilder, items: &Vec<String>) -> (r: SparqlQueryBuilder)
    ensures
        r@ == (QueryParts { having: b@.having + texts(items@), ..b@ }),
{
    let mut b = b;
    let ghost start = b@;
    let n = items.len();
    let mut i: usize = 0;
    while i < n
        invariant
            i <= n,
            n == items@.len(),
            b@ == (QueryParts { having: start.having + texts(items@).take(i as int), ..start }),
        decreases n - i,
    {
        b = b.having(items[i].clone());
        assert(start.having + texts(items@).take(i + 1) =~= (start.having + texts(items@).take(
            i as int,
        )).push(items@[i as int]@));
        i = i + 1;
    }
    assert(texts(items@).take(n as int) =~= texts(items@));
    b
}

/// A builder with the standard prefixes, the default prefix and the extra
/// prefixes of the options.
fn prefixed_builder(options: &TranslationOptions) -> (r: SparqlQueryBuilder)
    ensures
        r@ == (QueryParts { prefixes: translation_prefixes(options@), ..empty_parts() }),
{
    let mut builder = SparqlQueryBuilder::new().prefix(
        "cred",
        "https://www.w3.org/2018/credentials#",
    ).prefix("rdf", "http://www.w3.org/1999/02/22-rdf-syntax-ns#").prefix(
        "rdfs",
        "http://www.w3.org/2000/01/rdf-schema#",
    ).prefix("xsd", "http://www.w3.org/2001/XMLSchema#").prefix(
        options.default_prefix.as_str(),
        options.default_namespace.as_str(),
    );
    let ghost base = builder@.prefixes;
    let ghost extra = options@.extra_prefixes.map_values(
        |p: (Seq<char>, Seq<char>)| (p.0, "<"@ + p.1 + ">"@),
    );
    let n = options.extra_prefixes.len();
    let mut i: usize = 0;
    while i < n
        invariant
            i <= n,
            n == options.extra_prefixes@.len(),
            extra == options@.extra_prefixes.map_values(
                |p: (Seq<char>, Seq<char>)| (p.0, "<"@ + p.1 + ">"@),
            ),
            builder@ == (QueryParts { prefixes: base + extra.take(i as int), ..empty_parts() }),
        decreases n - i,
    {
        let pair = &options.extra_prefixes[i];
        builder = builder.prefix(pair.0.as_str(), pair.1.as_str());
        assert(base + extra.take(i + 1) =~= (base + extra.take(i as int)).push(extra[i as int]));
        i = i + 1;
    }
    assert(extra.take(n as int) =~= extra);
    assert(base + extra =~= translation_prefixes(options@));
    builder
}

// ---------------------------------------------------------------------------
// SparqlTranslator
// ---------------------------------------------------------------------------

/// Translates an ExtendedDcqlQuery into a SPARQL SELECT query string.
pub struct SparqlTranslator {
    options: TranslationOptions,
}

impl View for SparqlTranslator {
    type V = OptionsView;

    closed spec fn view(&self) -> OptionsView {
        self.options@
    }
}

impl SparqlTranslator {
    pub fn new() -> (r: Self)
        ensures
            r@ == default_options(),
    {
        Self::with_options(TranslationOptions::default())
    }

    pub fn with_options(opts: TranslationOptions) -> (r: Self)
        ensures
            r@ == opts@,
    {
        Self { options: opts }
    }

    /// Translate an ExtendedDcqlQuery to a SPARQL SELECT query string.
    pub fn translate(&self, query: &ExtendedDcqlQuery) -> (r: Result<String, DcqlError>)
        ensures
            match translation_error(*query) {
                Some(e) => r matches Err(err) && err@ == e,
                None => r matches Ok(s) && s@ == translation(self@, *query),
            },
    {
        let ghost o = self.options@;
        let ghost creds = query.credentials@;
        let resolver = NamespaceResolver::new(
            self.options.default_prefix.as_str(),
            &self.options.field_mappings,
        );
        let mut builder = prefixed_builder(&self.options);
        let mut all_filters: Vec<String> = Vec::new();
        let mut vc_vars: Vec<String> = Vec::new();
        let n = query.credentials.len();
        let mut i: usize = 0;
        assert(texts(all_filters@) =~= filters_upto(creds, 0));
        assert(texts(vc_vars@) =~= vc_vars_upto(creds, 0));
        assert(builder@ =~= (QueryParts {
            prefixes: translation_prefixes(o),
            select_vars: selects_upto(creds, 0),
            where_clauses: wheres_upto(o, creds, 0),
            ..empty_parts()
        }));
        while i < n
            invariant
                i <= n,
                n == creds.len(),
                creds == query.credentials@,
                o == self.options@,
                resolves_as(&resolver, o),
                builder@ == (QueryParts {
                    prefixes: translation_prefixes(o),
                    select_vars: selects_upto(creds, i as int),
                    where_clauses: wheres_upto(o, creds, i as int),
                    ..empty_parts()
                }),
                texts(all_filters@) == filters_upto(creds, i as int),
                texts(vc_vars@) == vc_vars_upto(creds, i as int),
                forall|k: int| 0 <= k < i ==> !cred_has_empty_path(#[trigger] creds[k]),
            decreases n - i,
        {
            let cred = &query.credentials[i];
            let section = match credential_section(&resolver, Ghost(o), cred) {
                Ok(sec) => sec,
                Err(e) => {
                    assert(has_empty_path(creds) && creds[i as int] == *cred);
                    return Err(e);
                },
            };
            builder = add_selects(builder, &section.selects);
            builder = builder.where_pattern(section.block);
            append_lines(&mut all_filters, section.filters);
            let vc = prefixed_id("?vc_", cred.id.as_str());
            proof {
                lemma_texts_push(vc_vars@, vc);
            }
            vc_vars.push(vc);
            i = i + 1;
        }
        assert(!has_empty_path(creds));
        builder = add_filters(builder, &all_filters);

        // credential links
        let link_filters = match link_filters_text(query) {
            Ok(v) => v,
            Err(e) => {
                return Err(e);
            },
        };
        builder = add_filters(builder, &link_filters);

        // aggregates
        match &query.aggregates {
            None => {},
            Some(aggs) => {
                if aggs.len() > 0 {
                    let section = match aggregate_section(query, aggs) {
                        Ok(a) => a,
                        Err(e) => {
                            return Err(e);
                        },
                    };
                    builder = add_group_by(builder, &vc_vars);
                    builder = add_selects(builder, &section.selects);
                    builder = add_having(builder, &section.having);
                    builder = add_group_by(builder, &section.group_vars);
                }
            },
        }
        proof {
            let aggs = aggs_of(*query);
            if aggs.len() == 0 {
                assert(first_agg_translation_error(creds, aggs, 0).is_none());
            }
        }
        assert(builder@ =~= translation_parts(o, *query));
        Ok(builder.build())
    }
}

impl Default for SparqlTranslator {
    fn default() -> (r: Self)
        ensures
            r@ == default_options(),
    {
        Self::new()
    }
}

// ---------------------------------------------------------------------------
// Properties of the translation
// ---------------------------------------------------------------------------

/// Sanitizing keeps the length, leaves letters, digits and `_` in place,
/// turns every other character into `_`, and changes nothing the second time.
pub proof fn lemma_sanitize_properties(s: Seq<char>)
    ensures
        sanitize(s).len() == s.len(),
        forall|i: int|
            0 <= i < s.len() ==> (#[trigger] sanitize(s)[i] == s[i] && (unicode_alphanumeric(s[i])
                || s[i] == '_')) || (sanitize(s)[i] == '_' && !(unicode_alphanumeric(s[i]) || s[i]
                == '_')),
        sanitize(sanitize(s)) == sanitize(s),
{
    assert(sanitize(sanitize(s)) =~= sanitize(s));
}

proof fn lemma_wheres_upto(o: OptionsView, creds: Seq<CredentialQuery>, n: int)
    requires
        0 <= n <= creds.len(),
    ensures
        wheres_upto(o, creds, n).len() == n,
        forall|i: int| 0 <= i < n ==> #[trigger] wheres_upto(o, creds, n)[i] == graph_block(o, creds[i]),
    decreases n,
{
    if n > 0 {
        lemma_wheres_upto(o, creds, n - 1);
    }
}

/// Each credential gets a GRAPH block of its own, named by its `?vc_` variable,
/// in the order of the credentials.
pub proof fn lemma_one_graph_per_credential(o: OptionsView, q: ExtendedDcqlQuery)
    ensures
        translation_parts(o, q).where_clauses.len() == q.credentials@.len(),
        forall|i: int|
            0 <= i < q.credentials@.len() ==> #[trigger] translation_parts(o, q).where_clauses[i]
                == graph_block(o, q.credentials@[i]) && ("GRAPH "@ + vc_var(
                q.credentials@[i].id@,
            )).is_prefix_of(graph_block(o, q.credentials@[i])),
{
    lemma_wheres_upto(o, q.credentials@, q.credentials@.len() as int);
    assert forall|i: int| 0 <= i < q.credentials@.len() implies ("GRAPH "@ + vc_var(
        q.credentials@[i].id@,
    )).is_prefix_of(graph_block(o, q.credentials@[i])) by {
        let head = "GRAPH "@ + vc_var(q.credentials@[i].id@);
        let b = graph_block(o, q.credentials@[i]);
        assert(b.take(head.len() as int) =~= head);
    }
}

/// Credential links are combined with AND: after the claim filters, every
/// link becomes a FILTER of its own, in the order of the links.
pub proof fn lemma_links_become_filters(o: OptionsView, q: ExtendedDcqlQuery)
    ensures
        ({
            let parts = translation_parts(o, q);
            let base = filters_upto(q.credentials@, q.credentials@.len() as int).len();
            &&& parts.filters.len() == base + links_of(q).len()
            &&& forall|k: int|
                0 <= k < links_of(q).len() ==> #[trigger] parts.filters[base + k] == link_filter(
                    links_of(q)[k],
                )
        }),
{
}

/// A query without aggregates has no GROUP BY and no HAVING, and selects
/// only the credential and claim variables.
pub proof fn lemma_no_aggregates_no_grouping(o: OptionsView, q: ExtendedDcqlQuery)
    requires
        aggs_of(q).len() == 0,
    ensures
        translation_parts(o, q).group_by.len() == 0,
        translation_parts(o, q).having.len() == 0,
        translation_parts(o, q).select_vars == selects_upto(
            q.credentials@,
            q.credentials@.len() as int,
        ),
{
    assert(translation_parts(o, q).select_vars =~= selects_upto(
        q.credentials@,
        q.credentials@.len() as int,
    ));
}

/// The IRI a field name is mapped to is that of the last mapping for it,
/// and there is none when no mapping names it.
proof fn lemma_mapping_lookup(m: Seq<(Seq<char>, Seq<char>)>, name: Seq<char>)
    ensures
        (forall|i: int| 0 <= i < m.len() ==> (#[trigger] m[i]).0 != name) ==> mapping_lookup(
            m,
            name,
        ) is None,
        forall|i: int|
            0 <= i < m.len() && (#[trigger] m[i]).0 == name && (forall|j: int|
                i < j < m.len() ==> m[j].0 != name) ==> mapping_lookup(m, name) == Some(m[i].1),
    decreases m.len(),
{
    if m.len() > 0 {
        let d = m.drop_last();
        lemma_mapping_lookup(d, name);
        assert forall|i: int| 0 <= i < d.len() implies #[trigger] d[i] == m[i] by {}
        assert forall|i: int|
            0 <= i < m.len() && (#[trigger] m[i]).0 == name && (forall|j: int|
                i < j < m.len() ==> m[j].0 != name) implies mapping_lookup(m, name) == Some(
            m[i].1,
        ) by {
            if i < m.len() - 1 {
                assert(m[m.len() - 1].0 != name);
                assert(d[i] == m[i]);
                assert forall|j: int| i < j < d.len() implies d[j].0 != name by {
                    assert(d[j] == m[j]);
                }
            }
        }
        if forall|i: int| 0 <= i < m.len() ==> (#[trigger] m[i]).0 != name {
            assert(m[m.len() - 1].0 != name);
            assert forall|i: int| 0 <= i < d.len() implies (#[trigger] d[i]).0 != name by {
                assert(d[i] == m[i]);
            }
        }
    }
}

/// The translation declares the standard prefixes `cred`, `rdf`, `rdfs` and
/// `xsd`, then the default prefix with its namespace, then every extra prefix
/// in order; and a credentialSubject key is written as the IRI of its last
/// custom mapping, or else as `prefix:key`.
pub proof fn lemma_prefixes_and_subject_keys(
    o: OptionsView,
    q: ExtendedDcqlQuery,
    key: Seq<char>,
)
    ensures
        ({
            let ps = translation_parts(o, q).prefixes;
            &&& ps.len() == 5 + o.extra_prefixes.len()
            &&& ps[0].0 == "cred"@ && ps[1].0 == "rdf"@ && ps[2].0 == "rdfs"@ && ps[3].0 == "xsd"@
            &&& ps[4] == (o.default_prefix, "<"@ + o.default_namespace + ">"@)
            &&& forall|i: int|
                0 <= i < o.extra_prefixes.len() ==> #[trigger] ps[5 + i] == (
                    o.extra_prefixes[i].0,
                    "<"@ + o.extra_prefixes[i].1 + ">"@,
                )
        }),
        (forall|i: int| 0 <= i < o.field_mappings.len() ==> (#[trigger] o.field_mappings[i]).0 != key)
            ==> subject_predicate(o.default_prefix, o.field_mappings, key) == o.default_prefix
            + ":"@ + key,
        forall|i: int|
            0 <= i < o.field_mappings.len() && (#[trigger] o.field_mappings[i]).0 == key && (forall|
                j: int,
            | i < j < o.field_mappings.len() ==> o.field_mappings[j].0 != key) ==> subject_predicate(
                o.default_prefix,
                o.field_mappings,
                key,
            ) == o.field_mappings[i].1,
{
    lemma_mapping_lookup(o.field_mappings, key);
    let ps = translation_parts(o, q).prefixes;
    assert forall|i: int| 0 <= i < o.extra_prefixes.len() implies #[trigger] ps[5 + i] == (
        o.extra_prefixes[i].0,
        "<"@ + o.extra_prefixes[i].1 + ">"@,
    ) by {}
}

// ---------------------------------------------------------------------------
// How a path is walked
// ---------------------------------------------------------------------------

/// A line that is a graph pattern rather than a `#` comment.
pub open spec fn is_pattern(l: Seq<char>) -> bool {
    !(l.len() > 0 && l[0] == '#')
}

pub open spec fn not_comment() -> spec_fn(Seq<char>) -> bool {
    |l: Seq<char>| is_pattern(l)
}

/// The predicate of one step of a path: the field's predicate for a key, the
/// array predicate of the claim for a wildcard or an index.
pub open spec fn step_predicate(
    prefix: Seq<char>,
    mappings: Seq<(Seq<char>, Seq<char>)>,
    e: PathElement,
    cred: Seq<char>,
    idx: nat,
) -> Seq<char> {
    match e {
        PathElement::Key(k) => subject_predicate(prefix, mappings, k@),
        _ => "?apred_"@ + cred + "_"@ + decimal(idx),
    }
}

proof fn lemma_filter_one(x: Seq<char>)
    ensures
        seq![x].filter(not_comment()) == (if is_pattern(x) {
            seq![x]
        } else {
            Seq::<Seq<char>>::empty()
        }),
{
    reveal_with_fuel(Seq::filter, 2);
    assert(seq![x].drop_last() =~= Seq::<Seq<char>>::empty());
}

proof fn lemma_triple_is_pattern(s: Seq<char>, p: Seq<char>, o: Seq<char>)
    requires
        is_pattern(s),
    ensures
        is_pattern(triple(s, p, o)),
{
    reveal_strlit(" ");
    let t = triple(s, p, o);
    if s.len() > 0 {
        assert(t[0] == s[0]);
    } else {
        assert(t =~= " "@ + p + " "@ + o + " ."@);
        assert(t[0] == ' ');
    }
}

/// The comment line that an index step writes before its pattern.
spec fn step_comment(e: PathElement) -> Seq<Seq<char>> {
    match e {
        PathElement::Index(i) => seq!["# array index "@ + decimal(i as nat)],
        _ => Seq::<Seq<char>>::empty(),
    }
}

/// The node that a step which is not the last one leads to.
spec fn step_node(e: PathElement, cred: Seq<char>, idx: nat, counter: nat) -> Seq<char> {
    match e {
        PathElement::Key(_) => "?mid_"@ + cred + "_"@ + decimal(idx) + "_"@ + decimal(counter),
        _ => "?item_"@ + cred + "_"@ + decimal(idx) + "_"@ + decimal(counter),
    }
}

proof fn lemma_step_comment_dropped(e: PathElement)
    ensures
        step_comment(e).filter(not_comment()) == Seq::<Seq<char>>::empty(),
{
    reveal_strlit("# array index ");
    match e {
        PathElement::Index(i) => {
            let c = "# array index "@ + decimal(i as nat);
            assert(c[0] == '#');
            lemma_filter_one(c);
        },
        _ => {
            reveal(Seq::filter);
        },
    }
}

proof fn lemma_step_node_is_pattern(e: PathElement, cred: Seq<char>, idx: nat, counter: nat)
    ensures
        is_pattern(step_node(e, cred, idx, counter)),
{
    reveal_strlit("?mid_");
    reveal_strlit("?item_");
    let tail = cred + "_"@ + decimal(idx) + "_"@ + decimal(counter);
    match e {
        PathElement::Key(_) => {
            assert(step_node(e, cred, idx, counter) =~= "?mid_"@ + tail);
            assert(("?mid_"@ + tail)[0] == '?');
        },
        _ => {
            assert(step_node(e, cred, idx, counter) =~= "?item_"@ + tail);
            assert(("?item_"@ + tail)[0] == '?');
        },
    }
}

proof fn lemma_path_lines_shape(
    prefix: Seq<char>,
    mappings: Seq<(Seq<char>, Seq<char>)>,
    current: Seq<char>,
    path: Seq<PathElement>,
    final_var: Seq<char>,
    cred: Seq<char>,
    idx: nat,
    counter: nat,
)
    requires
        path.len() > 0,
    ensures
        path.len() == 1 ==> path_lines(prefix, mappings, current, path, final_var, cred, idx, counter)
            == step_comment(path[0]) + seq![
            triple(current, step_predicate(prefix, mappings, path[0], cred, idx), final_var),
        ],
        path.len() > 1 ==> path_lines(prefix, mappings, current, path, final_var, cred, idx, counter)
            == step_comment(path[0]) + seq![
            triple(
                current,
                step_predicate(prefix, mappings, path[0], cred, idx),
                step_node(path[0], cred, idx, counter),
            ),
        ] + path_lines(
            prefix,
            mappings,
            step_node(path[0], cred, idx, counter),
            path.drop_first(),
            final_var,
            cred,
            idx,
            counter + 1,
        ),
{
    let lines = path_lines(prefix, mappings, current, path, final_var, cred, idx, counter);
    match path[0] {
        PathElement::Key(k) => {
            assert(lines =~= step_comment(path[0]) + lines);
        },
        PathElement::Wildcard => {
            assert(lines =~= step_comment(path[0]) + lines);
        },
        PathElement::Index(i) => {
            if path.len() == 1 {
                assert(lines =~= step_comment(path[0]) + seq![
                    triple(current, step_predicate(prefix, mappings, path[0], cred, idx), final_var),
                ]);
            }
        },
    }
}

proof fn lemma_chain_cons(
    prefix: Seq<char>,
    mappings: Seq<(Seq<char>, Seq<char>)>,
    path: Seq<PathElement>,
    cred: Seq<char>,
    idx: nat,
    current: Seq<char>,
    later: Seq<Seq<char>>,
    rest_lines: Seq<Seq<char>>,
)
    requires
        path.len() > 1,
        later.len() == path.len(),
        is_pattern(current),
        rest_lines == Seq::new(
            (path.len() - 1) as nat,
            |i: int|
                triple(
                    later[i],
                    step_predicate(prefix, mappings, path.drop_first()[i], cred, idx),
                    later[i + 1],
                ),
        ),
    ensures
        ({
            let nodes = seq![current] + later;
            seq![triple(current, step_predicate(prefix, mappings, path[0], cred, idx), later[0])]
                + rest_lines == Seq::new(
                path.len(),
                |i: int|
                    triple(
                        nodes[i],
                        step_predicate(prefix, mappings, path[i], cred, idx),
                        nodes[i + 1],
                    ),
            )
        }),
{
    let nodes = seq![current] + later;
    let t = triple(current, step_predicate(prefix, mappings, path[0], cred, idx), later[0]);
    let want = Seq::new(
        path.len(),
        |i: int| triple(nodes[i], step_predicate(prefix, mappings, path[i], cred, idx), nodes[i + 1]),
    );
    assert forall|i: int| 0 <= i < path.len() implies #[trigger] (seq![t] + rest_lines)[i]
        == want[i] by {
        if i > 0 {
            assert(path.drop_first()[i - 1] == path[i]);
            assert(nodes[i] == later[i - 1]);
            assert(nodes[i + 1] == later[i]);
        }
    }
    assert(seq![t] + rest_lines =~= want);
}

proof fn lemma_path_nodes(
    prefix: Seq<char>,
    mappings: Seq<(Seq<char>, Seq<char>)>,
    current: Seq<char>,
    path: Seq<PathElement>,
    final_var: Seq<char>,
    cred: Seq<char>,
    idx: nat,
    counter: nat,
) -> (nodes: Seq<Seq<char>>)
    requires
        path.len() > 0,
        is_pattern(current),
    ensures
        nodes.len() == path.len() + 1,
        nodes[0] == current,
        nodes[path.len() as int] == final_var,
        path_lines(prefix, mappings, current, path, final_var, cred, idx, counter).filter(
            not_comment(),
        ) == Seq::new(
            path.len(),
            |i: int|
                triple(nodes[i], step_predicate(prefix, mappings, path[i], cred, idx), nodes[i + 1]),
        ),
    decreases path.len(),
{
    let pred = step_predicate(prefix, mappings, path[0], cred, idx);
    let comment = step_comment(path[0]);
    lemma_path_lines_shape(prefix, mappings, current, path, final_var, cred, idx, counter);
    lemma_step_comment_dropped(path[0]);
    if path.len() == 1 {
        let t = triple(current, pred, final_var);
        lemma_triple_is_pattern(current, pred, final_var);
        lemma_filter_one(t);
        Seq::filter_distributes_over_add(comment, seq![t], not_comment());
        let nodes = seq![current, final_var];
        assert(comment.filter(not_comment()) + seq![t] =~= seq![t]);
        assert(seq![t] =~= Seq::new(
            path.len(),
            |i: int|
                triple(nodes[i], step_predicate(prefix, mappings, path[i], cred, idx), nodes[i + 1]),
        ));
        nodes
    } else {
        let next = step_node(path[0], cred, idx, counter);
        lemma_step_node_is_pattern(path[0], cred, idx, counter);
        let rest = path.drop_first();
        let later = lemma_path_nodes(prefix, mappings, next, rest, final_var, cred, idx, counter + 1);
        let t = triple(current, pred, next);
        lemma_triple_is_pattern(current, pred, next);
        lemma_filter_one(t);
        let rest_lines = path_lines(prefix, mappings, next, rest, final_var, cred, idx, counter + 1);
        Seq::filter_distributes_over_add(comment, seq![t], not_comment());
        Seq::filter_distributes_over_add(comment + seq![t], rest_lines, not_comment());
        assert((comment + seq![t]).filter(not_comment()) =~= seq![t]);
        lemma_chain_cons(
            prefix,
            mappings,
            path,
            cred,
            idx,
            current,
            later,
            rest_lines.filter(not_comment()),
        );
        seq![current] + later
    }
}

/// Walking a path chains its steps. An empty path binds the start node to the
/// value; otherwise there are nodes `n_0 .. n_len`, the first being the start
/// node and the last the value variable, such that the graph patterns (the
/// lines other than `# array index` comments) are, in order, `n_i p_i n_i+1`
/// for each step `i`: every step starts from the node the step before it
/// reached, and `p_i` is the field's predicate for a key and the claim's array
/// predicate for a wildcard or an index.
pub proof fn lemma_path_steps_chain(
    prefix: Seq<char>,
    mappings: Seq<(Seq<char>, Seq<char>)>,
    current: Seq<char>,
    path: Seq<PathElement>,
    final_var: Seq<char>,
    cred: Seq<char>,
    idx: nat,
    counter: nat,
)
    requires
        is_pattern(current),
    ensures
        path.len() == 0 ==> path_lines(prefix, mappings, current, path, final_var, cred, idx, counter)
            == seq![bind_line(current, final_var)],
        path.len() > 0 ==> exists|nodes: Seq<Seq<char>>|
            nodes.len() == path.len() + 1 && nodes[0] == current && nodes[path.len() as int]
                == final_var && #[trigger] path_lines(
                prefix,
                mappings,
                current,
                path,
                final_var,
                cred,
                idx,
                counter,
            ).filter(not_comment()) == Seq::new(
                path.len(),
                |i: int|
                    triple(
                        nodes[i],
                        step_predicate(prefix, mappings, path[i], cred, idx),
                        nodes[i + 1],
                    ),
            ),
{
    if path.len() > 0 {
        let nodes = lemma_path_nodes(prefix, mappings, current, path, final_var, cred, idx, counter);
    }
}

// ---------------------------------------------------------------------------
// What is grouped by
// ---------------------------------------------------------------------------

proof fn lemma_contains_concat(a: Seq<Seq<char>>, b: Seq<Seq<char>>, x: Seq<char>)
    requires
        a.contains(x) || b.contains(x),
    ensures
        (a + b).contains(x),
{
    if a.contains(x) {
        let i = choose|i: int| 0 <= i < a.len() && a[i] == x;
        assert((a + b)[i] == x);
    } else {
        let i = choose|i: int| 0 <= i < b.len() && b[i] == x;
        assert((a + b)[a.len() + i] == x);
    }
}

proof fn lemma_group_claim_vars_contains(
    aggs: Seq<AggregateQuery>,
    cred: CredentialQuery,
    n: int,
    j: int,
)
    requires
        0 <= j < n,
        !is_agg_source(aggs, cred.id@, claim_key(claims_of(cred)[j], j)),
    ensures
        group_claim_vars_upto(aggs, cred, n).contains(
            val_var(cred.id@, claim_key(claims_of(cred)[j], j)),
        ),
    decreases n,
{
    let prev = group_claim_vars_upto(aggs, cred, n - 1);
    let v = val_var(cred.id@, claim_key(claims_of(cred)[j], j));
    if j < n - 1 {
        lemma_group_claim_vars_contains(aggs, cred, n - 1, j);
        let w = choose|w: int| 0 <= w < prev.len() && prev[w] == v;
        let key = claim_key(claims_of(cred)[n - 1], n - 1);
        if !is_agg_source(aggs, cred.id@, key) {
            assert(prev.push(val_var(cred.id@, key))[w] == v);
        }
    } else {
        assert(prev.push(v)[prev.len() as int] == v);
    }
}

proof fn lemma_group_vars_contains(
    aggs: Seq<AggregateQuery>,
    creds: Seq<CredentialQuery>,
    n: int,
    ci: int,
    j: int,
)
    requires
        0 <= ci < n <= creds.len(),
        0 <= j < claims_of(creds[ci]).len(),
        !is_agg_source(aggs, creds[ci].id@, claim_key(claims_of(creds[ci])[j], j)),
    ensures
        group_vars_upto(aggs, creds, n).contains(
            val_var(creds[ci].id@, claim_key(claims_of(creds[ci])[j], j)),
        ),
    decreases n,
{
    let v = val_var(creds[ci].id@, claim_key(claims_of(creds[ci])[j], j));
    let last = group_claim_vars_upto(aggs, creds[n - 1], claims_of(creds[n - 1]).len() as int);
    if ci < n - 1 {
        lemma_group_vars_contains(aggs, creds, n - 1, ci, j);
        lemma_contains_concat(group_vars_upto(aggs, creds, n - 1), last, v);
    } else {
        lemma_group_claim_vars_contains(
            aggs,
            creds[ci],
            claims_of(creds[ci]).len() as int,
            j,
        );
        lemma_contains_concat(group_vars_upto(aggs, creds, n - 1), last, v);
    }
}

proof fn lemma_vc_vars_contains(creds: Seq<CredentialQuery>, n: int, ci: int)
    requires
        0 <= ci < n <= creds.len(),
    ensures
        vc_vars_upto(creds, n).contains(vc_var(creds[ci].id@)),
    decreases n,
{
    let prev = vc_vars_upto(creds, n - 1);
    if ci < n - 1 {
        lemma_vc_vars_contains(creds, n - 1, ci);
        let w = choose|w: int| 0 <= w < prev.len() && prev[w] == vc_var(creds[ci].id@);
        assert(prev.push(vc_var(creds[n - 1].id@))[w] == vc_var(creds[ci].id@));
    } else {
        assert(prev.push(vc_var(creds[ci].id@))[prev.len() as int] == vc_var(creds[ci].id@));
    }
}

/// A query with aggregates groups by every credential variable, and by the
/// value variable of every claim except those an aggregate reads: a claim is
/// left out only when some aggregate names both its credential's id and its
/// key (its id, or its index when it has none).
pub proof fn lemma_grouped_unless_aggregated(
    o: OptionsView,
    q: ExtendedDcqlQuery,
    ci: int,
    j: int,
)
    requires
        aggs_of(q).len() > 0,
        0 <= ci < q.credentials@.len(),
    ensures
        translation_parts(o, q).group_by.contains(vc_var(q.credentials@[ci].id@)),
        0 <= j < claims_of(q.credentials@[ci]).len() && !(exists|k: int|
            0 <= k < aggs_of(q).len() && (#[trigger] aggs_of(q)[k]).credential_id@
                == q.credentials@[ci].id@ && aggs_of(q)[k].claim_id@ == claim_key(
                claims_of(q.credentials@[ci])[j],
                j,
            )) ==> translation_parts(o, q).group_by.contains(
            val_var(q.credentials@[ci].id@, claim_key(claims_of(q.credentials@[ci])[j], j)),
        ),
{
    let creds = q.credentials@;
    let n = creds.len() as int;
    let aggs = aggs_of(q);
    lemma_vc_vars_contains(creds, n, ci);
    lemma_contains_concat(
        vc_vars_upto(creds, n),
        group_vars_upto(aggs, creds, n),
        vc_var(creds[ci].id@),
    );
    if 0 <= j < claims_of(creds[ci]).len() && !(exists|k: int|
        0 <= k < aggs.len() && (#[trigger] aggs[k]).credential_id@ == creds[ci].id@
            && aggs[k].claim_id@ == claim_key(claims_of(creds[ci])[j], j)) {
        lemma_group_vars_contains(aggs, creds, n, ci, j);
        lemma_contains_concat(
            vc_vars_upto(creds, n),
            group_vars_upto(aggs, creds, n),
            val_var(creds[ci].id@, claim_key(claims_of(creds[ci])[j], j)),
        );
    }
}

} // verus!
