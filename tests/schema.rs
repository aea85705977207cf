use jsonschema_transformer::ext_nat::ExtNat;
use jsonschema_transformer::json::{get, Json};
use jsonschema_transformer::schema::{key_less, Ground, Schema, SchemaErr};
use std::cmp::Ordering;

fn text(s: &str) -> Json {
    Json::String(s.to_string())
}

fn object(entries: Vec<(&str, Json)>) -> Json {
    Json::Object(entries.into_iter().map(|(k, v)| (k.to_string(), v)).collect())
}

fn typed(name: &str) -> Json {
    object(vec![("type", text(name))])
}

fn parse(j: Json) -> Result<Schema, SchemaErr> {
    Schema::try_from(&j)
}

fn key(k: &str) -> String {
    k.to_string()
}

#[test]
fn booleans_are_trivial_schemas() {
    assert_eq!(parse(Json::Bool(true)), Ok(Schema::True));
    assert_eq!(parse(Json::Bool(false)), Ok(Schema::False));
    assert_eq!(Schema::from(true), Schema::True);
    assert_eq!(Schema::from(false), Schema::False);
}

#[test]
fn scalar_type_names() {
    assert_eq!(parse(typed("number")), Ok(Schema::Ground(Ground::Num)));
    assert_eq!(parse(typed("string")), Ok(Schema::Ground(Ground::String)));
    assert_eq!(parse(typed("boolean")), Ok(Schema::Ground(Ground::Bool)));
    assert_eq!(parse(typed("null")), Ok(Schema::Ground(Ground::Null)));
}

#[test]
fn invalid_shapes() {
    assert_eq!(parse(Json::Null), Err(SchemaErr::InvalidSchema));
    assert_eq!(parse(Json::Number("1".to_string())), Err(SchemaErr::InvalidSchema));
    assert_eq!(parse(text("number")), Err(SchemaErr::InvalidSchema));
    assert_eq!(parse(Json::Array(vec![])), Err(SchemaErr::InvalidSchema));
    assert_eq!(parse(object(vec![])), Err(SchemaErr::InvalidSchema));
    assert_eq!(parse(object(vec![("type", Json::Bool(true))])), Err(SchemaErr::InvalidSchema));
    assert_eq!(parse(typed("integer")), Err(SchemaErr::InvalidSchema));
}

#[test]
fn arrays_need_items() {
    assert_eq!(parse(typed("array")), Err(SchemaErr::ArrNeedsItems));
    let arr = object(vec![("type", text("array")), ("items", typed("number"))]);
    assert_eq!(parse(arr), Ok(Schema::Arr(Box::new(Schema::num()))));
    let bad = object(vec![("type", text("array")), ("items", typed("date"))]);
    assert_eq!(parse(bad), Err(SchemaErr::InvalidSchema));
}

#[test]
fn objects_need_properties() {
    assert_eq!(parse(typed("object")), Err(SchemaErr::ObjNeedsProperties));
    let not_obj = object(vec![("type", text("object")), ("properties", Json::Array(vec![]))]);
    assert_eq!(parse(not_obj), Err(SchemaErr::ObjNeedsProperties));
}

#[test]
fn object_properties_are_sorted_and_extra_fields_ignored() {
    let j = object(vec![
        ("type", text("object")),
        ("required", Json::Array(vec![text("zeta")])),
        (
            "properties",
            object(vec![("zeta", typed("null")), ("alpha", typed("number")), ("mid", Json::Bool(true))]),
        ),
        ("additionalProperties", Json::Bool(false)),
    ]);
    let expected = Schema::Obj(vec![
        (key("alpha"), Schema::num()),
        (key("mid"), Schema::True),
        (key("zeta"), Schema::null()),
    ]);
    assert_eq!(parse(j), Ok(expected));
}

#[test]
fn later_duplicate_property_replaces_earlier() {
    let j = object(vec![
        ("type", text("object")),
        ("properties", object(vec![("a", typed("number")), ("a", typed("string"))])),
    ]);
    assert_eq!(parse(j), Ok(Schema::Obj(vec![(key("a"), Schema::string())])));
}

#[test]
fn first_bad_property_decides_the_error() {
    let j = object(vec![
        ("type", text("object")),
        ("properties", object(vec![("a", typed("array")), ("b", typed("object"))])),
    ]);
    assert_eq!(parse(j), Err(SchemaErr::ArrNeedsItems));
}

#[test]
fn lookup_takes_the_first_entry() {
    let entries = vec![(key("t"), Json::Null), (key("t"), Json::Bool(true))];
    assert_eq!(get(&entries, "t"), Some(&Json::Null));
    assert_eq!(get(&entries, "u"), None);
}

#[test]
fn deep_equality() {
    let a = Schema::Obj(vec![(key("x"), Schema::Arr(Box::new(Schema::num())))]);
    let b = Schema::Obj(vec![(key("x"), Schema::Arr(Box::new(Schema::num())))]);
    let c = Schema::Obj(vec![(key("x"), Schema::Arr(Box::new(Schema::bool())))]);
    let d = Schema::Obj(vec![(key("y"), Schema::Arr(Box::new(Schema::num())))]);
    assert!(a == b);
    assert!(a != c);
    assert!(a != d);
    assert!(a.clone() == a);
    assert!(Schema::True != Schema::False);
}

#[test]
fn key_order_is_by_code_point() {
    assert!(key_less(&key("a"), &key("b")));
    assert!(key_less(&key("a"), &key("ab")));
    assert!(!key_less(&key("ab"), &key("a")));
    assert!(!key_less(&key("a"), &key("a")));
    assert!(key_less(&key("Z"), &key("a")));
    assert!(key_less(&key(""), &key("a")));
}

#[test]
fn same_base_type_edit_dist() {
    assert_eq!(Schema::bool().edit_distance(&Schema::bool()), ExtNat::Nat(0));
}

#[test]
fn base_type_edit_dist() {
    assert_eq!(Schema::bool().edit_distance(&Schema::num()), ExtNat::Nat(1));
}

#[test]
fn arr_type_edit_dist() {
    let v1 = Schema::Arr(Box::new(Schema::bool()));
    let v2 = Schema::Arr(Box::new(Schema::num()));
    assert_eq!(v1.edit_distance(&v2), ExtNat::Nat(1));
}

#[test]
fn flat_obj_type_edit_dist() {
    let v1 = Schema::Obj(vec![(key("bar"), Schema::bool()), (key("foo"), Schema::num())]);
    let v2 = Schema::Obj(vec![(key("bar"), Schema::string()), (key("foo"), Schema::string())]);
    assert_eq!(v1.edit_distance(&v2), ExtNat::Nat(2));
}

#[test]
fn object_edit_dist_counts_dropped_keys_and_missing_ones_are_infinite() {
    let v1 = Schema::Obj(vec![(key("a"), Schema::num()), (key("b"), Schema::num())]);
    let v2 = Schema::Obj(vec![(key("a"), Schema::num())]);
    assert_eq!(v1.edit_distance(&v2), ExtNat::Nat(1));
    assert_eq!(v2.edit_distance(&v1), ExtNat::Inf);
}

#[test]
fn object_to_member_edit_dist() {
    let v = Schema::Obj(vec![(key("a"), Schema::num())]);
    assert_eq!(v.edit_distance(&Schema::num()), ExtNat::Nat(1));
    assert_eq!(v.edit_distance(&Schema::bool()), ExtNat::Inf);
}

#[test]
fn ext_nat_sums_saturate() {
    assert_eq!(ExtNat::Nat(2) + ExtNat::Nat(3), ExtNat::Nat(5));
    assert_eq!(ExtNat::Nat(2) + ExtNat::Inf, ExtNat::Inf);
    assert_eq!(ExtNat::Inf + ExtNat::Nat(2), ExtNat::Inf);
    assert_eq!(ExtNat::Nat(u64::MAX) + ExtNat::Nat(1), ExtNat::Inf);
    let mut x = ExtNat::Nat(1);
    x += 4u64;
    assert_eq!(x, ExtNat::Nat(5));
    x += ExtNat::Nat(5);
    assert_eq!(x, ExtNat::Nat(10));
    x += ExtNat::Inf;
    assert_eq!(x, ExtNat::Inf);
    x += 1u64;
    assert_eq!(x, ExtNat::Inf);
}

#[test]
fn ext_nat_order() {
    assert!(ExtNat::Nat(1) < ExtNat::Nat(2));
    assert!(ExtNat::Nat(u64::MAX) < ExtNat::Inf);
    assert!(ExtNat::Inf > ExtNat::Nat(0));
    assert_eq!(ExtNat::Inf.partial_cmp(&ExtNat::Inf), Some(Ordering::Equal));
    assert_eq!(ExtNat::Nat(3).partial_cmp(&ExtNat::Nat(3)), Some(Ordering::Equal));
}
