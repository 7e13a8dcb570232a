//! A minimal SPARQL 1.1 SELECT query builder.
use vstd::prelude::*;

use crate::text::{
    concat, decimal, decimal_text, join, join_texts, lemma_concat_push, lemma_texts_push, lines, lines_of, push_str,
    text, texts,
};

verus! {

/// The parts of a query under construction, as texts.
pub struct QueryParts {
    pub prefixes: Seq<(Seq<char>, Seq<char>)>,
    pub select_vars: Seq<Seq<char>>,
    pub where_clauses: Seq<Seq<char>>,
    pub filters: Seq<Seq<char>>,
    pub group_by: Seq<Seq<char>>,
    pub having: Seq<Seq<char>>,
    pub limit: Option<usize>,
    pub select_all: bool,
}

/// The character views of a sequence of string pairs.
pub open spec fn text_pairs(v: Seq<(String, String)>) -> Seq<(Seq<char>, Seq<char>)> {
    v.map_values(|p: (String, String)| (p.0@, p.1@))
}

/// The parts of a builder that has had nothing added.
pub open spec fn empty_parts() -> QueryParts {
    QueryParts {
        prefixes: seq![],
        select_vars: seq![],
        where_clauses: seq![],
        filters: seq![],
        group_by: seq![],
        having: seq![],
        limit: None,
        select_all: false,
    }
}

// ---------------------------------------------------------------------------
// The rendered query
// ---------------------------------------------------------------------------

pub open spec fn prefix_line(p: (Seq<char>, Seq<char>)) -> Seq<char> {
    "PREFIX "@ + p.0 + ": "@ + p.1 + "\n"@
}

pub open spec fn prefix_block(prefixes: Seq<(Seq<char>, Seq<char>)>) -> Seq<char> {
    concat(prefixes.map_values(|p: (Seq<char>, Seq<char>)| prefix_line(p))) + if prefixes.len()
        == 0 {
        Seq::<char>::empty()
    } else {
        "\n"@
    }
}

pub open spec fn select_line(parts: QueryParts) -> Seq<char> {
    if parts.select_all || parts.select_vars.len() == 0 {
        "SELECT *\n"@
    } else {
        "SELECT "@ + join(parts.select_vars, " "@) + "\n"@
    }
}

/// One line of a WHERE clause, indented.
pub open spec fn indented(line: Seq<char>) -> Seq<char> {
    "  "@ + line + "\n"@
}

/// A WHERE clause, each of its lines indented.
pub open spec fn clause_block(clause: Seq<char>) -> Seq<char> {
    concat(lines(clause).map_values(|l: Seq<char>| indented(l)))
}

pub open spec fn filter_line(f: Seq<char>) -> Seq<char> {
    "  FILTER("@ + f + ")\n"@
}

pub open spec fn where_block(parts: QueryParts) -> Seq<char> {
    "WHERE {\n"@ + concat(parts.where_clauses.map_values(|c: Seq<char>| clause_block(c)))
        + concat(parts.filters.map_values(|f: Seq<char>| filter_line(f))) + "}\n"@
}

pub open spec fn group_by_line(parts: QueryParts) -> Seq<char> {
    if parts.group_by.len() == 0 {
        Seq::<char>::empty()
    } else {
        "GROUP BY "@ + join(parts.group_by, " "@) + "\n"@
    }
}

pub open spec fn having_line(parts: QueryParts) -> Seq<char> {
    if parts.having.len() == 0 {
        Seq::<char>::empty()
    } else {
        "HAVING ("@ + join(parts.having, " && "@) + ")\n"@
    }
}

pub open spec fn limit_line(parts: QueryParts) -> Seq<char> {
    match parts.limit {
        Some(l) => "LIMIT "@ + decimal(l as nat) + "\n"@,
        None => Seq::<char>::empty(),
    }
}

/// The query text that the parts make, section by section.
pub open spec fn render(parts: QueryParts) -> Seq<char> {
    prefix_block(parts.prefixes) + select_line(parts) + where_block(parts) + group_by_line(parts)
        + having_line(parts) + limit_line(parts)
}

// ---------------------------------------------------------------------------
// Builder calls as steps on the parts
// ---------------------------------------------------------------------------

/// One call of the builder, with its arguments as texts.
pub enum BuildStep {
    /// `prefix(name, iri)`
    Prefix(Seq<char>, Seq<char>),
    /// `select(var)`
    Select(Seq<char>),
    /// `select_all()`
    SelectAll,
    /// `where_pattern(pattern)`
    Where(Seq<char>),
    /// `filter(expr)`
    Filter(Seq<char>),
    /// `group_by(var)`
    GroupBy(Seq<char>),
    /// `having(expr)`
    Having(Seq<char>),
    /// `limit(n)`
    Limit(usize),
}

/// Which method a step calls.
pub open spec fn step_kind(s: BuildStep) -> int {
    match s {
        BuildStep::Prefix(..) => 0,
        BuildStep::Select(..) => 1,
        BuildStep::SelectAll => 2,
        BuildStep::Where(..) => 3,
        BuildStep::Filter(..) => 4,
        BuildStep::GroupBy(..) => 5,
        BuildStep::Having(..) => 6,
        BuildStep::Limit(..) => 7,
    }
}

/// The parts after one call: each call changes only its own part.
pub open spec fn apply_step(p: QueryParts, s: BuildStep) -> QueryParts {
    match s {
        BuildStep::Prefix(name, iri) => QueryParts {
            prefixes: p.prefixes.push((name, "<"@ + iri + ">"@)),
            ..p
        },
        BuildStep::Select(v) => QueryParts { select_vars: p.select_vars.push(v), ..p },
        BuildStep::SelectAll => QueryParts { select_all: true, ..p },
        BuildStep::Where(w) => QueryParts { where_clauses: p.where_clauses.push(w), ..p },
        BuildStep::Filter(f) => QueryParts { filters: p.filters.push(f), ..p },
        BuildStep::GroupBy(v) => QueryParts { group_by: p.group_by.push(v), ..p },
        BuildStep::Having(h) => QueryParts { having: p.having.push(h), ..p },
        BuildStep::Limit(n) => QueryParts { limit: Some(n), ..p },
    }
}

/// The parts after a sequence of calls, first to last.
pub open spec fn apply_steps(p: QueryParts, steps: Seq<BuildStep>) -> QueryParts
    decreases steps.len(),
{
    if steps.len() == 0 {
        p
    } else {
        apply_steps(apply_step(p, steps[0]), steps.drop_first())
    }
}

/// Two calls of different methods commute: only the order of calls of the
/// same method shows in the parts, and so in the built query.
pub proof fn lemma_different_calls_commute(p: QueryParts, x: BuildStep, y: BuildStep)
    requires
        step_kind(x) != step_kind(y),
    ensures
        apply_step(apply_step(p, x), y) == apply_step(apply_step(p, y), x),
        render(apply_step(apply_step(p, x), y)) == render(apply_step(apply_step(p, y), x)),
{
}

proof fn lemma_select_all_stays(p: QueryParts, steps: Seq<BuildStep>)
    requires
        p.select_all,
    ensures
        apply_steps(p, steps).select_all,
    decreases steps.len(),
{
    if steps.len() > 0 {
        lemma_select_all_stays(apply_step(p, steps[0]), steps.drop_first());
    }
}

/// After `select_all`, the SELECT line is `SELECT *` whatever is selected
/// before or after; calling it again changes nothing; and the query built
/// differs from the one built without it at most in the SELECT line.
pub proof fn lemma_select_all(p: QueryParts, later: Seq<BuildStep>)
    ensures
        select_line(apply_steps(apply_step(p, BuildStep::SelectAll), later)) == "SELECT *\n"@,
        apply_step(apply_step(p, BuildStep::SelectAll), BuildStep::SelectAll) == apply_step(
            p,
            BuildStep::SelectAll,
        ),
        render(p) == prefix_block(p.prefixes) + select_line(p) + where_block(p) + group_by_line(p)
            + having_line(p) + limit_line(p),
        render(apply_step(p, BuildStep::SelectAll)) == prefix_block(p.prefixes) + "SELECT *\n"@
            + where_block(p) + group_by_line(p) + having_line(p) + limit_line(p),
{
    lemma_select_all_stays(apply_step(p, BuildStep::SelectAll), later);
}

// ---------------------------------------------------------------------------
// The builder
// ---------------------------------------------------------------------------

/// A minimal SPARQL 1.1 SELECT query builder.
pub struct SparqlQueryBuilder {
    prefixes: Vec<(String, String)>,
    select_vars: Vec<String>,
    where_clauses: Vec<String>,
    filters: Vec<String>,
    group_by: Vec<String>,
    having: Vec<String>,
    limit: Option<usize>,
    select_all: bool,
}

impl View for SparqlQueryBuilder {
    type V = QueryParts;

    closed spec fn view(&self) -> QueryParts {
        QueryParts {
            prefixes: text_pairs(self.prefixes@),
            select_vars: texts(self.select_vars@),
            where_clauses: texts(self.where_clauses@),
            filters: texts(self.filters@),
            group_by: texts(self.group_by@),
            having: texts(self.having@),
            limit: self.limit,
            select_all: self.select_all,
        }
    }
}

impl Default for SparqlQueryBuilder {
    fn default() -> (r: Self)
        ensures
            r@ == empty_parts(),
    {
        let r = SparqlQueryBuilder {
            prefixes: Vec::new(),
            select_vars: Vec::new(),
            where_clauses: Vec::new(),
            filters: Vec::new(),
            group_by: Vec::new(),
            having: Vec::new(),
            limit: None,
            select_all: false,
        };
        assert(r@.prefixes =~= empty_parts().prefixes);
        assert(r@.select_vars =~= empty_parts().select_vars);
        assert(r@.where_clauses =~= empty_parts().where_clauses);
        assert(r@.filters =~= empty_parts().filters);
        assert(r@.group_by =~= empty_parts().group_by);
        assert(r@.having =~= empty_parts().having);
        r
    }
}

impl SparqlQueryBuilder {
    pub fn new() -> (r: Self)
        ensures
            r@ == empty_parts(),
    {
        Self::default()
    }

    /// Add a PREFIX declaration. prefix should not include trailing colon.
    pub fn prefix(self, prefix: &str, iri: &str) -> (r: Self)
        ensures
            r@ == apply_step(self@, BuildStep::Prefix(prefix@, iri@)),
    {
        let mut s = self;
        let mut bracketed = text("<");
        push_str(&mut bracketed, iri);
        push_str(&mut bracketed, ">");
        let ghost old_prefixes = s.prefixes@;
        let entry = (text(prefix), bracketed);
        s.prefixes.push(entry);
        assert(text_pairs(s.prefixes@) =~= text_pairs(old_prefixes).push(
            (prefix@, "<"@ + iri@ + ">"@),
        ));
        s
    }

    /// Add a SELECT variable. var should include the ? sigil.
    pub fn select(self, var: &str) -> (r: Self)
        ensures
            r@ == apply_step(self@, BuildStep::Select(var@)),
    {
        let mut s = self;
        let t = text(var);
        proof {
            lemma_texts_push(s.select_vars@, t);
        }
        s.select_vars.push(t);
        s
    }

    /// Use SELECT * instead of named variables.
    pub fn select_all(self) -> (r: Self)
        ensures
            r@ == apply_step(self@, BuildStep::SelectAll),
    {
        let mut s = self;
        s.select_all = true;
        s
    }

    /// Add a WHERE clause triple or pattern (raw SPARQL fragment).
    pub fn where_pattern(self, pattern: String) -> (r: Self)
        ensures
            r@ == apply_step(self@, BuildStep::Where(pattern@)),
    {
        let mut s = self;
        proof {
            lemma_texts_push(s.where_clauses@, pattern);
        }
        s.where_clauses.push(pattern);
        s
    }

    /// Add a FILTER expression (will be wrapped in FILTER(...)).
    pub fn filter(self, expr: String) -> (r: Self)
        ensures
            r@ == apply_step(self@, BuildStep::Filter(expr@)),
    {
        let mut s = self;
        proof {
            lemma_texts_push(s.filters@, expr);
        }
        s.filters.push(expr);
        s
    }

    /// Add a GROUP BY variable.
    pub fn group_by(self, var: &str) -> (r: Self)
        ensures
            r@ == apply_step(self@, BuildStep::GroupBy(var@)),
    {
        let mut s = self;
        let t = text(var);
        proof {
            lemma_texts_push(s.group_by@, t);
        }
        s.group_by.push(t);
        s
    }

    /// Add a HAVING expression.
    pub fn having(self, expr: String) -> (r: Self)
        ensures
            r@ == apply_step(self@, BuildStep::Having(expr@)),
    {
        let mut s = self;
        proof {
            lemma_texts_push(s.having@, expr);
        }
        s.having.push(expr);
        s
    }

    pub fn limit(self, n: usize) -> (r: Self)
        ensures
            r@ == apply_step(self@, BuildStep::Limit(n)),
    {
        let mut s = self;
        s.limit = Some(n);
        s
    }

    /// Build the final SPARQL query string.
    pub fn build(self) -> (r: String)
        ensures
            r@ == render(self@),
    {
        let mut out = prefix_text(&self.prefixes);
        let select = select_text(&self.select_vars, self.select_all);
        push_str(&mut out, select.as_str());
        let body = where_text(&self.where_clauses, &self.filters);
        push_str(&mut out, body.as_str());
        let group = group_by_text(&self.group_by);
        push_str(&mut out, group.as_str());
        let having = having_text(&self.having);
        push_str(&mut out, having.as_str());
        let limit = limit_text(self.limit);
        push_str(&mut out, limit.as_str());
        out
    }
}

#[verifier::spinoff_prover]
fn select_text(vars: &Vec<String>, all: bool) -> (r: String)
    ensures
        r@ == select_line(QueryParts { select_vars: texts(vars@), select_all: all, ..empty_parts() }),
{
    let mut out = String::new();
    if all || vars.len() == 0 {
        push_str(&mut out, "SELECT *\n");
    } else {
        push_str(&mut out, "SELECT ");
        let joined = join_texts(vars, " ");
        push_str(&mut out, joined.as_str());
        push_str(&mut out, "\n");
    }
    out
}

#[verifier::spinoff_prover]
fn where_text(clauses: &Vec<String>, filters: &Vec<String>) -> (r: String)
    ensures
        r@ == where_block(QueryParts { where_clauses: texts(clauses@), filters: texts(filters@), ..empty_parts() }),
{
    let mut out = text("WHERE {\n");
    let c = clauses_text(clauses);
    push_str(&mut out, c.as_str());
    let f = filters_text(filters);
    push_str(&mut out, f.as_str());
    push_str(&mut out, "}\n");
    out
}

#[verifier::spinoff_prover]
fn group_by_text(vars: &Vec<String>) -> (r: String)
    ensures
        r@ == group_by_line(QueryParts { group_by: texts(vars@), ..empty_parts() }),
{
    let mut out = String::new();
    if vars.len() > 0 {
        push_str(&mut out, "GROUP BY ");
        let joined = join_texts(vars, " ");
        push_str(&mut out, joined.as_str());
        push_str(&mut out, "\n");
    }
    out
}

#[verifier::spinoff_prover]
fn having_text(exprs: &Vec<String>) -> (r: String)
    ensures
        r@ == having_line(QueryParts { having: texts(exprs@), ..empty_parts() }),
{
    let mut out = String::new();
    if exprs.len() > 0 {
        push_str(&mut out, "HAVING (");
        let joined = join_texts(exprs, " && ");
        push_str(&mut out, joined.as_str());
        push_str(&mut out, ")\n");
    }
    out
}

#[verifier::spinoff_prover]
fn limit_text(limit: Option<usize>) -> (r: String)
    ensures
        r@ == limit_line(QueryParts { limit: limit, ..empty_parts() }),
{
    let mut out = String::new();
    if let Some(l) = limit {
        push_str(&mut out, "LIMIT ");
        let digits = decimal_text(l as u64);
        push_str(&mut out, digits.as_str());
        push_str(&mut out, "\n");
    }
    out
}

/// The PREFIX lines, followed by a blank line when there are any.
fn prefix_text(prefixes: &Vec<(String, String)>) -> (r: String)
    ensures
        r@ == prefix_block(text_pairs(prefixes@)),
{
    let ghost pv = text_pairs(prefixes@);
    let mut out = String::new();
    let np = prefixes.len();
    let mut i: usize = 0;
    while i < np
        invariant
            i <= np,
            np == prefixes@.len(),
            pv == text_pairs(prefixes@),
            out@ == concat(pv.take(i as int).map_values(|p: (Seq<char>, Seq<char>)| prefix_line(p))),
        decreases np - i,
    {
        let ghost before = out@;
        let pair = &prefixes[i];
        push_str(&mut out, "PREFIX ");
        push_str(&mut out, pair.0.as_str());
        push_str(&mut out, ": ");
        push_str(&mut out, pair.1.as_str());
        push_str(&mut out, "\n");
        proof {
            let mapped = pv.take(i as int).map_values(|p: (Seq<char>, Seq<char>)| prefix_line(p));
            assert(pv.take(i + 1).map_values(|p: (Seq<char>, Seq<char>)| prefix_line(p))
                =~= mapped.push(prefix_line(pv[i as int])));
            lemma_concat_push(mapped, prefix_line(pv[i as int]));
            assert(out@ =~= before + prefix_line(pv[i as int]));
        }
        i = i + 1;
    }
    assert(pv.take(np as int) =~= pv);
    if np > 0 {
        push_str(&mut out, "\n");
    } else {
        assert(out@ =~= out@ + Seq::<char>::empty());
    }
    out
}

/// One WHERE clause, each of its lines indented.
fn clause_text(clause: &String) -> (r: String)
    ensures
        r@ == clause_block(clause@),
{
    let clause_lines = lines_of(clause.as_str());
    let mut out = String::new();
    let nl = clause_lines.len();
    let mut k: usize = 0;
    while k < nl
        invariant
            k <= nl,
            nl == clause_lines@.len(),
            texts(clause_lines@) == lines(clause@),
            out@ == concat(texts(clause_lines@).take(k as int).map_values(|l: Seq<char>| indented(l))),
        decreases nl - k,
    {
        let ghost before_line = out@;
        push_str(&mut out, "  ");
        push_str(&mut out, clause_lines[k].as_str());
        push_str(&mut out, "\n");
        proof {
            let mapped = texts(clause_lines@).take(k as int).map_values(|l: Seq<char>| indented(l));
            assert(texts(clause_lines@).take(k + 1).map_values(|l: Seq<char>| indented(l))
                =~= mapped.push(indented(clause_lines@[k as int]@)));
            lemma_concat_push(mapped, indented(clause_lines@[k as int]@));
            assert(out@ =~= before_line + indented(clause_lines@[k as int]@));
        }
        k = k + 1;
    }
    assert(texts(clause_lines@).take(nl as int) =~= texts(clause_lines@));
    out
}

/// All WHERE clauses, one after another.
fn clauses_text(clauses: &Vec<String>) -> (r: String)
    ensures
        r@ == concat(texts(clauses@).map_values(|c: Seq<char>| clause_block(c))),
{
    let ghost cv = texts(clauses@);
    let mut out = String::new();
    let nw = clauses.len();
    let mut w: usize = 0;
    while w < nw
        invariant
            w <= nw,
            nw == clauses@.len(),
            cv == texts(clauses@),
            out@ == concat(cv.take(w as int).map_values(|c: Seq<char>| clause_block(c))),
        decreases nw - w,
    {
        let block = clause_text(&clauses[w]);
        push_str(&mut out, block.as_str());
        proof {
            let mapped = cv.take(w as int).map_values(|c: Seq<char>| clause_block(c));
            assert(cv.take(w + 1).map_values(|c: Seq<char>| clause_block(c)) =~= mapped.push(
                clause_block(cv[w as int]),
            ));
            lemma_concat_push(mapped, clause_block(cv[w as int]));
        }
        w = w + 1;
    }
    assert(cv.take(nw as int) =~= cv);
    out
}

/// All FILTER lines, one after another.
fn filters_text(filters: &Vec<String>) -> (r: String)
    ensures
        r@ == concat(texts(filters@).map_values(|f: Seq<char>| filter_line(f))),
{
    let ghost fv = texts(filters@);
    let mut out = String::new();
    let nf = filters.len();
    let mut f: usize = 0;
    while f < nf
        invariant
            f <= nf,
            nf == filters@.len(),
            fv == texts(filters@),
            out@ == concat(fv.take(f as int).map_values(|x: Seq<char>| filter_line(x))),
        decreases nf - f,
    {
        let ghost before_line = out@;
        push_str(&mut out, "  FILTER(");
        push_str(&mut out, filters[f].as_str());
        push_str(&mut out, ")\n");
        proof {
            let mapped = fv.take(f as int).map_values(|x: Seq<char>| filter_line(x));
            assert(fv.take(f + 1).map_values(|x: Seq<char>| filter_line(x)) =~= mapped.push(
                filter_line(fv[f as int]),
            ));
            lemma_concat_push(mapped, filter_line(fv[f as int]));
            assert(out@ =~= before_line + filter_line(fv[f as int]));
        }
        f = f + 1;
    }
    assert(fv.take(nf as int) =~= fv);
    out
}

} // verus!
