use bencher::organization::{
    organizations_json, ApiError, InsertOrganization, InsertUser, JsonOrganization, Organization,
    QueryOrganization,
};

const UUID_TEXT: &str = "550e8400-e29b-41d4-a716-446655440000";
const UUID_VALUE: u128 = 0x550e8400_e29b_41d4_a716_446655440000;

fn query(id: i32, uuid: &str, name: &str) -> QueryOrganization {
    QueryOrganization {
        id,
        uuid: uuid.to_string(),
        name: name.to_string(),
        slug: format!("{name}-slug"),
    }
}

#[test]
fn into_json_reads_the_uuid() {
    let json = query(1, UUID_TEXT, "acme").into_json().unwrap();
    assert_eq!(
        json,
        JsonOrganization { uuid: UUID_VALUE, name: "acme".to_string(), slug: "acme-slug".to_string() }
    );
}

#[test]
fn into_json_refuses_a_bad_uuid() {
    let err = query(1, "not-a-uuid", "acme").into_json().unwrap_err();
    assert_eq!(err, ApiError::Uuid("not-a-uuid".to_string()));
}

#[test]
fn into_json_with_takes_the_parse_result() {
    assert_eq!(
        query(2, "whatever", "x").into_json_with(Some(7)),
        Ok(JsonOrganization { uuid: 7, name: "x".to_string(), slug: "x-slug".to_string() })
    );
    assert_eq!(
        query(2, "whatever", "x").into_json_with(None),
        Err(ApiError::Uuid("whatever".to_string()))
    );
}

#[test]
fn get_uuid_parses_the_stored_text() {
    assert_eq!(QueryOrganization::get_uuid(&UUID_TEXT.to_string()), Ok(UUID_VALUE));
    assert_eq!(
        QueryOrganization::get_uuid(&"550e8400e29b41d4a716446655440000".to_string()),
        Ok(UUID_VALUE)
    );
    assert_eq!(
        QueryOrganization::get_uuid(&"xyz".to_string()),
        Err(ApiError::Uuid("xyz".to_string()))
    );
}

#[test]
fn organizations_json_keeps_order_and_drops_bad_rows() {
    let rows = vec![
        query(1, UUID_TEXT, "a"),
        query(2, "bad", "b"),
        query(3, "00000000-0000-0000-0000-000000000001", "c"),
    ];
    let json = organizations_json(rows);
    assert_eq!(json.len(), 2);
    assert_eq!(json[0].name, "a");
    assert_eq!(json[0].uuid, UUID_VALUE);
    assert_eq!(json[1].name, "c");
    assert_eq!(json[1].uuid, 1);
    assert!(organizations_json(vec![]).is_empty());
}

#[test]
fn organization_id_is_decimal() {
    assert_eq!(Organization::from(&query(42, UUID_TEXT, "a")).id, "42");
    assert_eq!(Organization::from(&query(0, UUID_TEXT, "a")).id, "0");
    assert_eq!(Organization::from(&query(-7, UUID_TEXT, "a")).id, "-7");
    assert_eq!(Organization::from(&query(i32::MIN, UUID_TEXT, "a")).id, i32::MIN.to_string());
    assert_eq!(Organization::from(&query(i32::MAX, UUID_TEXT, "a")).id, i32::MAX.to_string());
}

fn is_v4_text(t: &str) -> bool {
    let b = t.as_bytes();
    t.len() == 36
        && b[8] == b'-'
        && b[13] == b'-'
        && b[18] == b'-'
        && b[23] == b'-'
        && b[14] == b'4'
        && t.chars().all(|c| c == '-' || c.is_ascii_digit() || ('a'..='f').contains(&c))
}

#[test]
fn new_organizations_get_fresh_uuids() {
    let user = InsertUser { name: "Ada".to_string(), slug: "ada".to_string() };
    let a = InsertOrganization::from_user(&user);
    let b = InsertOrganization::from_user(&user);
    assert_eq!(a.name, "Ada");
    assert_eq!(a.slug, "ada");
    assert!(is_v4_text(&a.uuid));
    assert!(is_v4_text(&b.uuid));
    assert_ne!(a.uuid, b.uuid);
    let c = InsertOrganization::from_json("Acme".to_string(), "acme".to_string());
    assert_eq!(c.name, "Acme");
    assert_eq!(c.slug, "acme");
    assert!(is_v4_text(&c.uuid));
}

#[test]
fn an_inserted_organization_reads_back() {
    let user = InsertUser { name: "Ada".to_string(), slug: "ada".to_string() };
    let insert = InsertOrganization::from_user(&user);
    let stored = QueryOrganization { id: 9, uuid: insert.uuid.clone(), name: insert.name.clone(), slug: insert.slug.clone() };
    let json = stored.into_json().unwrap();
    assert_eq!(json.name, "Ada");
    assert_eq!(json.slug, "ada");
    assert_eq!(bencher::resource::ResourceId::from_uuid(json.uuid).0, insert.uuid);
}
