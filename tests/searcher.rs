use jsonschema_transformer::ir::IR;
use jsonschema_transformer::json::Json;
use jsonschema_transformer::schema::{Ground, Schema};
use jsonschema_transformer::searcher::{SchemaSearcher, SearchErr, Searcher};

const GROUNDS: [Ground; 4] = [Ground::Bool, Ground::Num, Ground::String, Ground::Null];

fn text(s: &str) -> Json {
    Json::String(s.to_string())
}

fn object(entries: Vec<(&str, Json)>) -> Json {
    Json::Object(entries.into_iter().map(|(k, v)| (k.to_string(), v)).collect())
}

fn typed(name: &str) -> Json {
    object(vec![("type", text(name))])
}

fn schema(j: Json) -> Schema {
    Schema::try_from(&j).unwrap()
}

fn path(from: &Schema, to: &Schema) -> Result<Vec<IR>, SearchErr> {
    let mut searcher = SchemaSearcher::new();
    searcher.find_path(from, to)
}

fn key(k: &str) -> String {
    k.to_string()
}

#[test]
fn test_ground_to_ground() {
    for from in GROUNDS {
        for to in GROUNDS {
            let expected = if from != to {
                vec![IR::G2G(from, to)]
            } else {
                vec![IR::Copy]
            };
            assert_eq!(path(&Schema::Ground(from), &Schema::Ground(to)).unwrap(), expected);
        }
    }
}

#[test]
fn test_abstract_into_object() {
    for from in GROUNDS {
        for to in GROUNDS {
            if from == to {
                continue;
            }
            let g2g = IR::G2G(from, to);
            let k = key("some_foo_key");
            let target = Schema::Obj(vec![(k.clone(), Schema::Ground(to))]);
            let expected = vec![g2g, IR::Abs(k)];
            assert_eq!(path(&Schema::Ground(from), &target).unwrap(), expected);
        }
    }
}

#[test]
fn test_converting_objects() {
    let from = schema(object(vec![
        ("type", text("object")),
        ("properties", object(vec![("foo", typed("number")), ("bar", typed("boolean"))])),
    ]));
    let to = schema(object(vec![
        ("type", text("object")),
        ("properties", object(vec![("foo", typed("string")), ("bar", typed("boolean"))])),
    ]));
    let expected = vec![
        IR::PushObj,
        IR::PushKey(key("bar")),
        IR::Copy,
        IR::PopKey,
        IR::PushKey(key("foo")),
        IR::G2G(Ground::Num, Ground::String),
        IR::PopKey,
        IR::PopObj,
    ];
    assert_eq!(path(&from, &to).unwrap(), expected);
}

#[test]
fn test_deleting_key() {
    let from = schema(object(vec![
        ("type", text("object")),
        ("properties", object(vec![("foo", typed("number")), ("bar", typed("boolean"))])),
    ]));
    let to = schema(object(vec![
        ("type", text("object")),
        ("properties", object(vec![("foo", typed("string"))])),
    ]));
    let expected = vec![
        IR::PushObj,
        IR::PushKey(key("foo")),
        IR::G2G(Ground::Num, Ground::String),
        IR::PopKey,
        IR::PopObj,
    ];
    assert_eq!(path(&from, &to).unwrap(), expected);
}

#[test]
fn test_extracting_key() {
    let from = schema(object(vec![
        ("type", text("object")),
        ("properties", object(vec![("foo", typed("number"))])),
    ]));
    let to = schema(typed("number"));
    let expected = vec![IR::Extr(key("foo"))];
    assert_eq!(path(&from, &to).unwrap(), expected);
}

#[test]
fn array_to_scalar_has_no_path() {
    let from = Schema::Arr(Box::new(Schema::num()));
    assert_eq!(path(&from, &Schema::num()), Err(SearchErr::NoPath));
}

#[test]
fn scalar_to_array_has_no_path() {
    let to = Schema::Arr(Box::new(Schema::num()));
    assert_eq!(path(&Schema::num(), &to), Err(SearchErr::NoPath));
}

#[test]
fn arrays_convert_their_items() {
    let from = Schema::Arr(Box::new(Schema::string()));
    let to = Schema::Arr(Box::new(Schema::num()));
    assert_eq!(
        path(&from, &to).unwrap(),
        vec![IR::PushArr, IR::G2G(Ground::String, Ground::Num), IR::PopArr]
    );
}

#[test]
fn array_and_object_have_no_path() {
    let arr = Schema::Arr(Box::new(Schema::num()));
    let obj = Schema::Obj(vec![(key("a"), Schema::num())]);
    assert_eq!(path(&arr, &obj), Err(SearchErr::NoPath));
    assert_eq!(path(&obj, &arr), Err(SearchErr::NoPath));
}

#[test]
fn scalar_into_object_needs_exactly_one_property() {
    let two = Schema::Obj(vec![(key("a"), Schema::num()), (key("b"), Schema::num())]);
    let none = Schema::Obj(vec![]);
    assert_eq!(path(&Schema::num(), &two), Err(SearchErr::NoPath));
    assert_eq!(path(&Schema::num(), &none), Err(SearchErr::NoPath));
}

#[test]
fn scalar_into_object_of_same_kind_copies() {
    let target = Schema::Obj(vec![(key("a"), Schema::num())]);
    assert_eq!(path(&Schema::num(), &target).unwrap(), vec![IR::Copy, IR::Abs(key("a"))]);
}

#[test]
fn extraction_takes_the_first_matching_property() {
    let from = Schema::Obj(vec![
        (key("a"), Schema::bool()),
        (key("b"), Schema::num()),
        (key("c"), Schema::num()),
    ]);
    assert_eq!(path(&from, &Schema::num()).unwrap(), vec![IR::Extr(key("b"))]);
    assert_eq!(path(&from, &Schema::null()), Err(SearchErr::NoPath));
}

#[test]
fn missing_target_property_has_no_path() {
    let from = Schema::Obj(vec![(key("a"), Schema::num())]);
    let to = Schema::Obj(vec![(key("a"), Schema::num()), (key("b"), Schema::num())]);
    assert_eq!(path(&from, &to), Err(SearchErr::NoPath));
}

#[test]
fn failing_property_fails_the_object() {
    let from = Schema::Obj(vec![(key("a"), Schema::Arr(Box::new(Schema::num())))]);
    let to = Schema::Obj(vec![(key("a"), Schema::num())]);
    assert_eq!(path(&from, &to), Err(SearchErr::NoPath));
}

#[test]
fn true_and_false() {
    let n = Schema::num();
    assert_eq!(path(&Schema::True, &n).unwrap(), vec![]);
    assert_eq!(path(&n, &Schema::True).unwrap(), vec![]);
    assert_eq!(path(&Schema::True, &Schema::False).unwrap(), vec![]);
    assert_eq!(path(&Schema::False, &Schema::True).unwrap(), vec![]);
    assert_eq!(path(&Schema::False, &n), Err(SearchErr::NoPath));
    assert_eq!(path(&n, &Schema::False), Err(SearchErr::NoPath));
}

#[test]
fn searching_twice_gives_the_same_program() {
    let from = Schema::Arr(Box::new(Schema::string()));
    let to = Schema::Arr(Box::new(Schema::bool()));
    let mut searcher = SchemaSearcher::new();
    let first = searcher.find_path(&from, &to).unwrap();
    let second = searcher.find_path(&from, &to).unwrap();
    assert_eq!(first, second);
    assert_eq!(second, vec![IR::PushArr, IR::G2G(Ground::String, Ground::Bool), IR::PopArr]);
}
