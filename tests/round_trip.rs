use jsonschema_transformer::codegen::{Codegen, JSCodegen};
use jsonschema_transformer::schema::Schema;
use jsonschema_transformer::searcher::{SchemaSearcher, Searcher};

fn key(k: &str) -> String {
    k.to_string()
}

#[test]
fn search_then_generate_object_conversion() {
    let from = Schema::Obj(vec![
        (key("bar"), Schema::bool()),
        (key("foo"), Schema::Arr(Box::new(Schema::string()))),
    ]);
    let to = Schema::Obj(vec![(key("foo"), Schema::Arr(Box::new(Schema::num())))]);
    let mut searcher = SchemaSearcher::new();
    let ir = searcher.find_path(&from, &to).unwrap();
    let code = JSCodegen::new("input", "output").generate(ir);
    assert_eq!(
        code,
        "\
function(input) {
    let obj0 = {};
    let arr1 = [];
    for (let idx2 = 0; idx2 < input.foo.length; idx2++) {
        arr1[idx2] = parseInt(input.foo[idx2]);
    }
    obj0.foo = arr1;
    output = obj0;
    return output;
}"
    );
}

#[test]
fn search_then_generate_abstraction_and_extraction() {
    let wrapped = Schema::Obj(vec![(key("v"), Schema::num())]);
    let mut searcher = SchemaSearcher::new();
    let ir = searcher.find_path(&Schema::string(), &wrapped).unwrap();
    let code = JSCodegen::new("input", "output").generate(ir);
    assert_eq!(
        code,
        "function(input) {\n    output = parseInt(input);\n    output = {\"v\": input };\n    return output;\n}"
    );
    let ir = searcher.find_path(&wrapped, &Schema::num()).unwrap();
    let code = JSCodegen::new("input", "output").generate(ir);
    assert_eq!(code, "function(input) {\n    output = input.v;\n    return output;\n}");
}
