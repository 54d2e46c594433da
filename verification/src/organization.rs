//! Organizations: the rows that the API stores and the JSON it answers with.
use vstd::prelude::*;

use crate::resource::ResourceId;
use crate::text::{
    i32_to_string, int_decimal, new_v4, uuid_from_str, uuid_parsed, uuid_text, uuid_to_string,
    uuid_version,
};

verus! {

/// Errors of the organization model.
#[derive(Debug, PartialEq, Eq)]
pub enum ApiError {
    /// The stored UUID text is not a UUID; it holds that text.
    Uuid(String),
}

/// The user that an organization is made for: what the model reads of it.
pub struct InsertUser {
    pub name: String,
    pub slug: String,
}

/// A new organization, ready to be inserted.
pub struct InsertOrganization {
    pub uuid: String,
    pub name: String,
    pub slug: String,
}

/// An organization as stored.
#[derive(Debug)]
pub struct QueryOrganization {
    pub id: i32,
    pub uuid: String,
    pub name: String,
    pub slug: String,
}

/// An organization as the API answers with it.
#[derive(Debug, PartialEq, Eq)]
pub struct JsonOrganization {
    pub uuid: u128,
    pub name: String,
    pub slug: String,
}

/// The path parameters of the endpoint that reads one organization.
pub struct GetOneParams {
    pub organization: ResourceId,
}

/// An organization as the access-control rules see it: by its id, as text.
#[derive(Debug, PartialEq, Eq)]
pub struct Organization {
    pub id: String,
}

/// The text of a freshly drawn random (version 4) UUID, which the UUID
/// parser reads back as that UUID.
pub open spec fn is_fresh_uuid_text(t: Seq<char>) -> bool {
    exists|u: u128| uuid_version(u) == 4 && t == uuid_text(u) && uuid_parsed(t) == Some(u)
}

fn fresh_uuid_text() -> (res: String)
    ensures
        is_fresh_uuid_text(res@),
{
    let u = new_v4();
    let s = uuid_to_string(u);
    assert(uuid_version(u) == 4 && s@ == uuid_text(u) && uuid_parsed(s@) == Some(u));
    s
}

impl InsertOrganization {
    /// A new organization with the given name and the slug that was settled
    /// for it, under a fresh random UUID.
    pub fn from_json(name: String, slug: String) -> (res: Self)
        ensures
            res.name == name,
            res.slug == slug,
            is_fresh_uuid_text(res.uuid@),
    {
        InsertOrganization { uuid: fresh_uuid_text(), name, slug }
    }

    /// The personal organization of a new user: the user's name and slug,
    /// under a fresh random UUID.
    pub fn from_user(insert_user: &InsertUser) -> (res: Self)
        ensures
            res.name == insert_user.name,
            res.slug == insert_user.slug,
            is_fresh_uuid_text(res.uuid@),
    {
        InsertOrganization {
            uuid: fresh_uuid_text(),
            name: insert_user.name.clone(),
            slug: insert_user.slug.clone(),
        }
    }
}

/// The JSON of a stored organization, given what its UUID text reads as.
pub open spec fn json_of(q: QueryOrganization, parsed: Option<u128>) -> Result<JsonOrganization, ApiError> {
    match parsed {
        Some(u) => Ok(JsonOrganization { uuid: u, name: q.name, slug: q.slug }),
        None => Err(ApiError::Uuid(q.uuid)),
    }
}

/// The JSON of every stored organization whose UUID text reads as a UUID,
/// in order; the others are left out.
pub open spec fn jsons_of(qs: Seq<QueryOrganization>) -> Seq<JsonOrganization>
    decreases qs.len(),
{
    if qs.len() == 0 {
        seq![]
    } else {
        let rest = jsons_of(qs.drop_last());
        match json_of(qs.last(), uuid_parsed(qs.last().uuid@)) {
            Ok(j) => rest.push(j),
            Err(_) => rest,
        }
    }
}

impl QueryOrganization {
    /// The UUID that a stored UUID text holds.
    pub fn get_uuid(uuid: &String) -> (res: Result<u128, ApiError>)
        ensures
            match uuid_parsed(uuid@) {
                Some(u) => res == Ok::<u128, ApiError>(u),
                None => res == Err::<u128, ApiError>(ApiError::Uuid(*uuid)),
            },
    {
        match uuid_from_str(uuid.as_str()) {
            Ok(u) => Ok(u),
            Err(_) => Err(ApiError::Uuid(uuid.clone())),
        }
    }

    /// The JSON of this organization, given what its UUID text reads as
    /// (`None` where it is not a UUID).
    pub fn into_json_with(self, parsed: Option<u128>) -> (res: Result<JsonOrganization, ApiError>)
        ensures
            res == json_of(self, parsed),
    {
        let QueryOrganization { id: _, uuid, name, slug } = self;
        match parsed {
            Some(u) => Ok(JsonOrganization { uuid: u, name, slug }),
            None => Err(ApiError::Uuid(uuid)),
        }
    }

    /// The JSON of this organization; an error where its stored UUID text
    /// is not a UUID.
    pub fn into_json(self) -> (res: Result<JsonOrganization, ApiError>)
        ensures
            res == json_of(self, uuid_parsed(self.uuid@)),
    {
        let parsed = match uuid_from_str(self.uuid.as_str()) {
            Ok(u) => Some(u),
            Err(_) => None,
        };
        self.into_json_with(parsed)
    }
}

/// The JSON of the listed organizations, leaving out each one whose stored
/// UUID text is not a UUID.
pub fn organizations_json(queries: Vec<QueryOrganization>) -> (res: Vec<JsonOrganization>)
    ensures
        res@ == jsons_of(queries@),
{
    let mut queries = queries;
    let ghost all = queries@;
    let mut rev: Vec<JsonOrganization> = Vec::new();
    // Take the organizations from the back, then restore their order.
    let mut out: Vec<JsonOrganization> = Vec::new();
    let mut k: usize = 0;
    let n = queries.len();
    while k < n
        invariant
            n == all.len(),
            k <= n,
            queries@ == all.take(n - k),
            jsons_of(all) == jsons_of(all.take(n - k)) + rev@.reverse(),
        decreases n - k,
    {
        let q = queries.pop().unwrap();
        let ghost front = all.take(n - k - 1);
        assert(all.take(n - k) =~= front.push(q));
        assert(all.take(n - k).drop_last() =~= front);
        let ghost rev_before = rev@;
        match q.into_json() {
            Ok(j) => {
                rev.push(j);
                assert(rev@.reverse() =~= seq![j] + rev_before.reverse());
                assert(jsons_of(all.take(n - k)) == jsons_of(front).push(j));
                assert(jsons_of(front).push(j) + rev_before.reverse() =~= jsons_of(front) + (seq![j]
                    + rev_before.reverse()));
            },
            Err(_) => {},
        }
        k = k + 1;
    }
    assert(all.take(0) =~= Seq::<QueryOrganization>::empty());
    while rev.len() > 0
        invariant
            jsons_of(all) == out@ + rev@.reverse(),
        decreases rev@.len(),
    {
        let ghost before = rev@;
        let j = rev.pop().unwrap();
        assert(before =~= rev@.push(j));
        assert(before.reverse() =~= seq![j] + rev@.reverse());
        out.push(j);
        assert(out@ + rev@.reverse() =~= (out@.drop_last() + seq![j]) + rev@.reverse());
    }
    assert(rev@.reverse() =~= Seq::<JsonOrganization>::empty());
    assert(out@ + Seq::<JsonOrganization>::empty() =~= out@);
    out
}

impl Organization {
    /// The organization as the access-control rules see it: its id written
    /// in decimal.
    pub fn from(organization: &QueryOrganization) -> (res: Organization)
        ensures
            res.id@ == int_decimal(organization.id as int),
    {
        Organization { id: i32_to_string(organization.id) }
    }
}

/// What is inserted reads back: an organization stored with the fresh UUID
/// text that it was made with reads as JSON with that UUID, its name and its
/// slug, and so is kept in every list of organizations.
pub proof fn lemma_inserted_organization_reads_back(insert: InsertOrganization, id: i32)
    requires
        is_fresh_uuid_text(insert.uuid@),
    ensures
        ({
            let q = QueryOrganization { id, uuid: insert.uuid, name: insert.name, slug: insert.slug };
            json_of(q, uuid_parsed(q.uuid@)) matches Ok(j) && j.name == insert.name && j.slug
                == insert.slug && insert.uuid@ == uuid_text(j.uuid)
        }),
{
    let u = choose|u: u128|
        uuid_version(u) == 4 && insert.uuid@ == uuid_text(u) && uuid_parsed(insert.uuid@) == Some(u);
}

/// Listing organizations drops no row whose UUID text reads as a UUID and
/// keeps their order: the list is never longer than the rows, and where every
/// row's UUID reads, it is every row's JSON, in the rows' order.
pub proof fn lemma_organizations_json_keeps_readable_rows(qs: Seq<QueryOrganization>)
    ensures
        jsons_of(qs).len() <= qs.len(),
        (forall|k: int| 0 <= k < qs.len() ==> (#[trigger] uuid_parsed(qs[k].uuid@)) is Some) ==> {
            &&& jsons_of(qs).len() == qs.len()
            &&& forall|k: int|
                0 <= k < qs.len() ==> #[trigger] jsons_of(qs)[k] == (JsonOrganization {
                    uuid: uuid_parsed(qs[k].uuid@).unwrap(),
                    name: qs[k].name,
                    slug: qs[k].slug,
                })
        },
    decreases qs.len(),
{
    if qs.len() > 0 {
        let front = qs.drop_last();
        lemma_organizations_json_keeps_readable_rows(front);
        if forall|k: int| 0 <= k < qs.len() ==> (#[trigger] uuid_parsed(qs[k].uuid@)) is Some {
            assert forall|k: int| 0 <= k < front.len() implies (#[trigger] uuid_parsed(
                front[k].uuid@,
            )) is Some by {
                assert(front[k] == qs[k]);
                assert(uuid_parsed(qs[k].uuid@) is Some);
            }
            assert(uuid_parsed(qs[qs.len() - 1].uuid@) is Some);
            assert forall|k: int| 0 <= k < qs.len() implies #[trigger] jsons_of(qs)[k] == (
            JsonOrganization {
                uuid: uuid_parsed(qs[k].uuid@).unwrap(),
                name: qs[k].name,
                slug: qs[k].slug,
            }) by {
                if k < front.len() {
                    assert(front[k] == qs[k]);
                    assert(jsons_of(front)[k] == (JsonOrganization {
                        uuid: uuid_parsed(front[k].uuid@).unwrap(),
                        name: front[k].name,
                        slug: front[k].slug,
                    }));
                }
            }
        }
    }
}

} // verus!
