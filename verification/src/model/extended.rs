//! DCQL+ types: cross-credential links and aggregates.
use vstd::prelude::*;

use crate::error::{DcqlError, DcqlErrorView};
use crate::model::dcql::{
    dcql_query_error, ClaimQuery, CredentialQuery, CredentialSetQuery, DcqlQuery, FilterOp,
    FilterValue,
};
use crate::text::{push_str, str_eq, text};

verus! {

/// Extended DCQL query with cross-credential matching capabilities.
///
/// Fully backward compatible with standard DCQL: an ExtendedDcqlQuery
/// with no credential_links or aggregates is equivalent to a DcqlQuery.
#[derive(Debug, Clone)]
pub struct ExtendedDcqlQuery {
    pub credentials: Vec<CredentialQuery>,
    pub credential_sets: Option<Vec<CredentialSetQuery>>,
    /// Cross-credential join conditions (extension).
    pub credential_links: Option<Vec<CredentialLink>>,
    /// Aggregation queries across multiple matching credentials (extension).
    pub aggregates: Option<Vec<AggregateQuery>>,
}

#[derive(Debug, Clone)]
pub struct CredentialLink {
    /// The id of the left-hand CredentialQuery.
    pub left_credential: String,
    /// The id of the ClaimQuery within the left credential.
    pub left_claim: String,
    /// The id of the right-hand CredentialQuery.
    pub right_credential: String,
    /// The id of the ClaimQuery within the right credential.
    pub right_claim: String,
    /// The relation between the two claim values.
    pub relation: LinkRelation,
}

#[derive(Debug, Clone, Copy, PartialEq, Eq, Structural)]
pub enum LinkRelation {
    Equal,
    NotEqual,
    LessThan,
    LessThanOrEqual,
    GreaterThan,
    GreaterThanOrEqual,
}

impl Default for LinkRelation {
    /// A link without a relation asserts equality.
    fn default() -> (r: Self)
        ensures
            r == LinkRelation::Equal,
    {
        LinkRelation::Equal
    }
}

/// The SPARQL comparison operator of a link relation.
pub open spec fn relation_op(r: LinkRelation) -> Seq<char> {
    match r {
        LinkRelation::Equal => "="@,
        LinkRelation::NotEqual => "!="@,
        LinkRelation::LessThan => "<"@,
        LinkRelation::LessThanOrEqual => "<="@,
        LinkRelation::GreaterThan => ">"@,
        LinkRelation::GreaterThanOrEqual => ">="@,
    }
}

impl LinkRelation {
    pub fn to_sparql_op(&self) -> (r: &'static str)
        ensures
            r@ == relation_op(*self),
    {
        match self {
            LinkRelation::Equal => "=",
            LinkRelation::NotEqual => "!=",
            LinkRelation::LessThan => "<",
            LinkRelation::LessThanOrEqual => "<=",
            LinkRelation::GreaterThan => ">",
            LinkRelation::GreaterThanOrEqual => ">=",
        }
    }
}

#[derive(Debug, Clone)]
pub struct AggregateQuery {
    /// Unique id for this aggregate result.
    pub id: String,
    /// The CredentialQuery id to aggregate over (must have `multiple: true`).
    pub credential_id: String,
    /// The ClaimQuery id within that credential to aggregate.
    pub claim_id: String,
    pub function: AggregateFunction,
    /// HAVING filter on the aggregate result.
    pub having: Option<AggregateHaving>,
}

#[derive(Debug, Clone, Copy, PartialEq, Eq, Structural)]
pub enum AggregateFunction {
    Sum,
    Count,
    Min,
    Max,
    Avg,
}

/// The SPARQL name of an aggregate function.
pub open spec fn aggregate_name(f: AggregateFunction) -> Seq<char> {
    match f {
        AggregateFunction::Sum => "SUM"@,
        AggregateFunction::Count => "COUNT"@,
        AggregateFunction::Min => "MIN"@,
        AggregateFunction::Max => "MAX"@,
        AggregateFunction::Avg => "AVG"@,
    }
}

impl AggregateFunction {
    pub fn to_sparql(&self) -> (r: &'static str)
        ensures
            r@ == aggregate_name(*self),
    {
        match self {
            AggregateFunction::Sum => "SUM",
            AggregateFunction::Count => "COUNT",
            AggregateFunction::Min => "MIN",
            AggregateFunction::Max => "MAX",
            AggregateFunction::Avg => "AVG",
        }
    }
}

#[derive(Debug, Clone)]
pub struct AggregateHaving {
    pub op: FilterOp,
    pub value: FilterValue,
}

/// The extended query with the credentials and credential sets of a standard
/// query, and no links or aggregates.
pub open spec fn extended_of(q: DcqlQuery) -> ExtendedDcqlQuery {
    ExtendedDcqlQuery {
        credentials: q.credentials,
        credential_sets: q.credential_sets,
        credential_links: None,
        aggregates: None,
    }
}

impl From<DcqlQuery> for ExtendedDcqlQuery {
    fn from(q: DcqlQuery) -> (r: Self) {
        Self {
            credentials: q.credentials,
            credential_sets: q.credential_sets,
            credential_links: None,
            aggregates: None,
        }
    }
}

impl vstd::std_specs::convert::FromSpecImpl<DcqlQuery> for ExtendedDcqlQuery {
    open spec fn obeys_from_spec() -> bool {
        true
    }

    open spec fn from_spec(q: DcqlQuery) -> Self {
        extended_of(q)
    }
}

// ---------------------------------------------------------------------------
// The checks that parsing applies
// ---------------------------------------------------------------------------

/// Some credential has this id.
pub open spec fn has_credential(credentials: Seq<CredentialQuery>, id: Seq<char>) -> bool {
    exists|i: int| 0 <= i < credentials.len() && (#[trigger] credentials[i]).id@ == id
}

/// The claim has this id.
pub open spec fn claim_has_id(c: ClaimQuery, id: Seq<char>) -> bool {
    match c.id {
        Some(cid) => cid@ == id,
        None => false,
    }
}

/// A claim of the credential has this id.
pub open spec fn credential_has_claim_id(cred: CredentialQuery, claim_id: Seq<char>) -> bool {
    match cred.claims {
        Some(claims) => exists|j: int|
            0 <= j < claims@.len() && claim_has_id(#[trigger] claims@[j], claim_id),
        None => false,
    }
}

/// A credential with id `cred_id` has a claim with id `claim_id`.
pub open spec fn has_claim_id(
    credentials: Seq<CredentialQuery>,
    cred_id: Seq<char>,
    claim_id: Seq<char>,
) -> bool {
    exists|i: int|
        0 <= i < credentials.len() && (#[trigger] credentials[i]).id@ == cred_id
            && credential_has_claim_id(credentials[i], claim_id)
}

/// The id of the first credential whose id an earlier credential already has.
pub open spec fn first_duplicate_from(credentials: Seq<CredentialQuery>, from: int) -> Option<
    Seq<char>,
>
    decreases credentials.len() - from,
{
    if from < 0 || from >= credentials.len() {
        None
    } else if has_credential(credentials.take(from), credentials[from].id@) {
        Some(credentials[from].id@)
    } else {
        first_duplicate_from(credentials, from + 1)
    }
}

/// Why a link is refused, if it is: a credential or claim that the query does
/// not have (both credentials are looked up before either claim), or the
/// same credential on both sides.
pub open spec fn link_reference_error(credentials: Seq<CredentialQuery>, l: CredentialLink) -> Option<
    DcqlErrorView,
> {
    if !has_credential(credentials, l.left_credential@) {
        Some(DcqlErrorView::UnknownCredentialId(l.left_credential@))
    } else if !has_credential(credentials, l.right_credential@) {
        Some(DcqlErrorView::UnknownCredentialId(l.right_credential@))
    } else if !has_claim_id(credentials, l.left_credential@, l.left_claim@) {
        Some(DcqlErrorView::UnknownClaimId(l.left_claim@, l.left_credential@))
    } else if !has_claim_id(credentials, l.right_credential@, l.right_claim@) {
        Some(DcqlErrorView::UnknownClaimId(l.right_claim@, l.right_credential@))
    } else if l.left_credential@ == l.right_credential@ {
        Some(DcqlErrorView::Validation(self_link_message(l.left_credential@)))
    } else {
        None
    }
}

/// The message with which a link from a credential to itself is refused.
pub open spec fn self_link_message(cred_id: Seq<char>) -> Seq<char> {
    "credential link joins credential '"@ + cred_id + "' to itself"@
}

/// Some link of the query has the same credential on both sides.
pub open spec fn has_self_link(q: ExtendedDcqlQuery) -> bool {
    match q.credential_links {
        Some(ls) => exists|k: int|
            0 <= k < ls@.len() && (#[trigger] ls@[k]).left_credential@ == ls@[k].right_credential@,
        None => false,
    }
}

/// The error of the first link at or after index `from` that refers to
/// something the query does not have.
pub open spec fn first_link_error(
    credentials: Seq<CredentialQuery>,
    links: Seq<CredentialLink>,
    from: int,
) -> Option<DcqlErrorView>
    decreases links.len() - from,
{
    if from < 0 || from >= links.len() {
        None
    } else {
        match link_reference_error(credentials, links[from]) {
            Some(e) => Some(e),
            None => first_link_error(credentials, links, from + 1),
        }
    }
}

/// Why `from_json` refuses an extended query after parsing it, if it does:
/// no credentials, a repeated credential id, a link to an unknown credential
/// or claim, or a link with the same credential on both sides.
pub open spec fn extended_query_error(q: ExtendedDcqlQuery) -> Option<DcqlErrorView> {
    if q.credentials@.len() == 0 {
        Some(DcqlErrorView::Validation("credentials must not be empty"@))
    } else {
        match first_duplicate_from(q.credentials@, 0) {
            Some(id) => Some(DcqlErrorView::Validation("duplicate credential id: "@ + id)),
            None => match q.credential_links {
                Some(links) => first_link_error(q.credentials@, links@, 0),
                None => None,
            },
        }
    }
}

proof fn lemma_first_duplicate_skip(credentials: Seq<CredentialQuery>, from: int)
    requires
        0 <= from <= credentials.len(),
        forall|j: int|
            0 <= j < from ==> !has_credential(credentials.take(j), #[trigger] credentials[j].id@),
    ensures
        first_duplicate_from(credentials, 0) == first_duplicate_from(credentials, from),
    decreases from,
{
    if from > 0 {
        lemma_first_duplicate_skip(credentials, from - 1);
    }
}

proof fn lemma_first_link_error_skip(
    credentials: Seq<CredentialQuery>,
    links: Seq<CredentialLink>,
    from: int,
)
    requires
        0 <= from <= links.len(),
        forall|j: int|
            0 <= j < from ==> link_reference_error(credentials, #[trigger] links[j]).is_none(),
    ensures
        first_link_error(credentials, links, 0) == first_link_error(credentials, links, from),
    decreases from,
{
    if from > 0 {
        lemma_first_link_error_skip(credentials, links, from - 1);
    }
}

/// The index of the first credential with the given id.
pub fn find_credential(credentials: &Vec<CredentialQuery>, id: &str) -> (r: Option<usize>)
    ensures
        match r {
            Some(i) => i < credentials@.len() && credentials@[i as int].id@ == id@ && !has_credential(
                credentials@.take(i as int),
                id@,
            ),
            None => !has_credential(credentials@, id@),
        },
{
    let n = credentials.len();
    let mut i: usize = 0;
    while i < n
        invariant
            i <= n,
            n == credentials@.len(),
            !has_credential(credentials@.take(i as int), id@),
        decreases n - i,
    {
        if str_eq(credentials[i].id.as_str(), id) {
            return Some(i);
        }
        assert forall|k: int|
            0 <= k < i + 1 && (#[trigger] credentials@.take(i + 1)[k]).id@ == id@ implies false by {
            if k < i {
                assert(credentials@.take(i + 1)[k] == credentials@.take(i as int)[k]);
            }
        }
        i = i + 1;
    }
    assert(credentials@.take(n as int) =~= credentials@);
    None
}

/// The index of the first claim of a credential with the given id.
pub fn find_claim_index(cred: &CredentialQuery, claim_id: &str) -> (r: Option<usize>)
    ensures
        match r {
            Some(j) => (cred.claims matches Some(cs) && j < cs@.len() && claim_has_id(
                cs@[j as int],
                claim_id@,
            )),
            None => !credential_has_claim_id(*cred, claim_id@),
        },
{
    match &cred.claims {
        None => None,
        Some(claims) => {
            let n = claims.len();
            let mut j: usize = 0;
            while j < n
                invariant
                    j <= n,
                    n == claims@.len(),
                    cred.claims == Some(*claims),
                    forall|k: int| 0 <= k < j ==> !claim_has_id(#[trigger] claims@[k], claim_id@),
                decreases n - j,
            {
                match &claims[j].id {
                    Some(cid) => {
                        if str_eq(cid.as_str(), claim_id) {
                            assert(claim_has_id(claims@[j as int], claim_id@));
                            assert(cred.claims == Some(*claims));
                            return Some(j);
                        }
                    },
                    None => {},
                }
                j = j + 1;
            }
            None
        },
    }
}

impl ExtendedDcqlQuery {
    /// The checks that `from_json` applies after parsing: at least one
    /// credential, no repeated credential id, and every credential link
    /// naming credentials and claim ids that exist. Returns the query
    /// unchanged when it passes.
    pub fn checked(self) -> (r: Result<Self, DcqlError>)
        ensures
            match extended_query_error(self) {
                Some(e) => r matches Err(err) && err@ == e,
                None => r matches Ok(q) && q == self,
            },
    {
        match self.validate() {
            Ok(()) => Ok(self),
            Err(e) => Err(e),
        }
    }

    fn validate(&self) -> (r: Result<(), DcqlError>)
        ensures
            match extended_query_error(*self) {
                Some(e) => r matches Err(err) && err@ == e,
                None => r is Ok,
            },
    {
        if self.credentials.len() == 0 {
            return Err(DcqlError::Validation(text("credentials must not be empty")));
        }
        // credential ids are unique
        let n = self.credentials.len();
        let mut i: usize = 0;
        while i < n
            invariant
                i <= n,
                n == self.credentials@.len(),
                forall|j: int|
                    0 <= j < i ==> !has_credential(
                        self.credentials@.take(j),
                        #[trigger] self.credentials@[j].id@,
                    ),
            decreases n - i,
        {
            proof {
                lemma_first_duplicate_skip(self.credentials@, i as int);
            }
            let seen = find_credential(&self.credentials, self.credentials[i].id.as_str());
            match seen {
                Some(k) => {
                    if k < i {
                        assert(self.credentials@.take(i as int)[k as int] == self.credentials@[k as int]);
                        let mut m = text("duplicate credential id: ");
                        push_str(&mut m, self.credentials[i].id.as_str());
                        return Err(DcqlError::Validation(m));
                    }
                    assert forall|x: int|
                        0 <= x < i && (#[trigger] self.credentials@.take(i as int)[x]).id@
                            == self.credentials@[i as int].id@ implies false by {
                        assert(self.credentials@.take(k as int)[x] == self.credentials@[x]);
                    }
                },
                None => {},
            }
            i = i + 1;
        }
        proof {
            lemma_first_duplicate_skip(self.credentials@, n as int);
        }
        // credential links refer to known credentials and claims
        match &self.credential_links {
            None => {},
            Some(links) => {
                let nl = links.len();
                let mut li: usize = 0;
                while li < nl
                    invariant
                        li <= nl,
                        nl == links@.len(),
                        self.credentials@.len() > 0,
                        self.credential_links == Some(*links),
                        first_duplicate_from(self.credentials@, 0).is_none(),
                        forall|j: int|
                            0 <= j < li ==> link_reference_error(
                                self.credentials@,
                                #[trigger] links@[j],
                            ).is_none(),
                    decreases nl - li,
                {
                    proof {
                        lemma_first_link_error_skip(self.credentials@, links@, li as int);
                    }
                    match self.check_link(&links[li]) {
                        Ok(()) => {},
                        Err(e) => {
                            return Err(e);
                        },
                    }
                    li = li + 1;
                }
                proof {
                    lemma_first_link_error_skip(self.credentials@, links@, nl as int);
                }
            },
        }
        Ok(())
    }

    /// Looks up both credentials of a link, then both claims, then refuses a
    /// link from a credential to itself.
    fn check_link(&self, link: &CredentialLink) -> (r: Result<(), DcqlError>)
        requires
            first_duplicate_from(self.credentials@, 0).is_none(),
        ensures
            match link_reference_error(self.credentials@, *link) {
                Some(e) => r matches Err(err) && err@ == e,
                None => r is Ok,
            },
    {
        let left = match find_credential(&self.credentials, link.left_credential.as_str()) {
            Some(i) => i,
            None => {
                return Err(DcqlError::UnknownCredentialId(link.left_credential.clone()));
            },
        };
        let right = match find_credential(&self.credentials, link.right_credential.as_str()) {
            Some(i) => i,
            None => {
                return Err(DcqlError::UnknownCredentialId(link.right_credential.clone()));
            },
        };
        proof {
            lemma_unique_ids(self.credentials@);
        }
        match Self::find_claim(&self.credentials[left], link.left_claim.as_str()) {
            Ok(_) => {},
            Err(e) => {
                return Err(e);
            },
        }
        match Self::find_claim(&self.credentials[right], link.right_claim.as_str()) {
            Ok(_) => {},
            Err(e) => {
                return Err(e);
            },
        }
        if str_eq(link.left_credential.as_str(), link.right_credential.as_str()) {
            let mut m = text("credential link joins credential '");
            push_str(&mut m, link.left_credential.as_str());
            push_str(&mut m, "' to itself");
            return Err(DcqlError::Validation(m));
        }
        Ok(())
    }

    fn find_claim<'a>(cred: &'a CredentialQuery, claim_id: &str) -> (r: Result<
        &'a ClaimQuery,
        DcqlError,
    >)
        ensures
            credential_has_claim_id(*cred, claim_id@) ==> r is Ok,
            !credential_has_claim_id(*cred, claim_id@) ==> (r matches Err(err) && err@
                == DcqlErrorView::UnknownClaimId(claim_id@, cred.id@)),
    {
        match find_claim_index(cred, claim_id) {
            Some(j) => match &cred.claims {
                Some(claims) => Ok(&claims[j]),
                None => Err(DcqlError::MissingClaimId),
            },
            None => Err(DcqlError::UnknownClaimId(text(claim_id), cred.id.clone())),
        }
    }
}

/// With no repeated credential id, two credentials with the same id are the
/// same credential.
pub proof fn lemma_unique_ids(credentials: Seq<CredentialQuery>)
    requires
        first_duplicate_from(credentials, 0).is_none(),
    ensures
        forall|i: int, j: int|
            0 <= i < credentials.len() && 0 <= j < credentials.len() && (#[trigger] credentials[i]).id@
                == (#[trigger] credentials[j]).id@ ==> i == j,
{
    assert forall|i: int, j: int|
        0 <= i < credentials.len() && 0 <= j < credentials.len() && (#[trigger] credentials[i]).id@
            == (#[trigger] credentials[j]).id@ implies i == j by {
        if i != j {
            let lo = if i < j { i } else { j };
            let hi = if i < j { j } else { i };
            lemma_no_duplicate_at(credentials, 0, hi);
            assert(credentials.take(hi)[lo] == credentials[lo]);
        }
    }
}

proof fn lemma_no_duplicate_at(credentials: Seq<CredentialQuery>, from: int, k: int)
    requires
        0 <= from <= k < credentials.len(),
        first_duplicate_from(credentials, from).is_none(),
    ensures
        !has_credential(credentials.take(k), credentials[k].id@),
    decreases k - from,
{
    if from < k {
        lemma_no_duplicate_at(credentials, from + 1, k);
    }
}

/// A standard query that passes the checks of `DcqlQuery::from_json` and has
/// no repeated credential id passes the checks of `ExtendedDcqlQuery::from_json`
/// once converted: valid DCQL is valid DCQL+ with no changes.
pub proof fn lemma_dcql_checks_carry_over(q: DcqlQuery)
    requires
        dcql_query_error(q.credentials@).is_none(),
        first_duplicate_from(q.credentials@, 0).is_none(),
    ensures
        extended_query_error(extended_of(q)).is_none(),
{
}

proof fn lemma_no_link_error_each(
    credentials: Seq<CredentialQuery>,
    links: Seq<CredentialLink>,
    from: int,
)
    requires
        0 <= from,
        first_link_error(credentials, links, from).is_none(),
    ensures
        forall|k: int|
            from <= k < links.len() ==> link_reference_error(credentials, #[trigger] links[k]).is_none(),
    decreases links.len() - from,
{
    if from < links.len() {
        lemma_no_link_error_each(credentials, links, from + 1);
    }
}

/// The claim at position `j` of the credential has the id `claim_id`.
pub open spec fn claim_at_has_id(cred: CredentialQuery, j: int, claim_id: Seq<char>) -> bool {
    match cred.claims {
        Some(cs) => 0 <= j < cs@.len() && match cs@[j].id {
            Some(c) => c@ == claim_id,
            None => false,
        },
        None => false,
    }
}

/// Some credential with id `cred_id` has, at some position, a claim with id
/// `claim_id`.
pub open spec fn claim_located(
    credentials: Seq<CredentialQuery>,
    cred_id: Seq<char>,
    claim_id: Seq<char>,
) -> bool {
    exists|i: int, j: int|
        0 <= i < credentials.len() && credentials[i].id@ == cred_id && #[trigger] claim_at_has_id(
            credentials[i],
            j,
            claim_id,
        )
}

proof fn lemma_claim_found(credentials: Seq<CredentialQuery>, cred_id: Seq<char>, claim_id: Seq<char>)
    requires
        has_claim_id(credentials, cred_id, claim_id),
    ensures
        claim_located(credentials, cred_id, claim_id),
{
    let i = choose|i: int|
        0 <= i < credentials.len() && (#[trigger] credentials[i]).id@ == cred_id
            && credential_has_claim_id(credentials[i], claim_id);
    let cs = credentials[i].claims->0;
    let j = choose|j: int| 0 <= j < cs@.len() && claim_has_id(#[trigger] cs@[j], claim_id);
    assert(claim_at_has_id(credentials[i], j, claim_id));
}

/// What the checks guarantee of a query they accept: it has a credential, no
/// two credentials share an id, and every link joins two different credentials
/// of the query, each holding a claim with the id that the link names for its
/// side.
pub proof fn lemma_accepted_query_is_well_linked(q: ExtendedDcqlQuery)
    requires
        extended_query_error(q).is_none(),
    ensures
        q.credentials@.len() > 0,
        forall|a: int, b: int|
            0 <= a < b < q.credentials@.len() ==> (#[trigger] q.credentials@[a]).id@
                != (#[trigger] q.credentials@[b]).id@,
        forall|k: int|
            #![trigger q.credential_links->0@[k]]
            q.credential_links is Some && 0 <= k < q.credential_links->0@.len() ==> {
                let l = q.credential_links->0@[k];
                &&& l.left_credential@ != l.right_credential@
                &&& claim_located(q.credentials@, l.left_credential@, l.left_claim@)
                &&& claim_located(q.credentials@, l.right_credential@, l.right_claim@)
            },
{
    let creds = q.credentials@;
    lemma_unique_ids(creds);
    match q.credential_links {
        Some(ls) => {
            lemma_no_link_error_each(creds, ls@, 0);
            assert forall|k: int| #![trigger ls@[k]] 0 <= k < ls@.len() implies {
                let l = ls@[k];
                &&& l.left_credential@ != l.right_credential@
                &&& claim_located(creds, l.left_credential@, l.left_claim@)
                &&& claim_located(creds, l.right_credential@, l.right_claim@)
            } by {
                let l = ls@[k];
                assert(link_reference_error(creds, l).is_none());
                lemma_claim_found(creds, l.left_credential@, l.left_claim@);
                lemma_claim_found(creds, l.right_credential@, l.right_claim@);
            }
        },
        None => {},
    }
}

} // verus!
