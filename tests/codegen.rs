use jsonschema_transformer::codegen::{Codegen, JSCodegen, Level};
use jsonschema_transformer::ir::IR;
use jsonschema_transformer::schema::Ground;

fn js(ir: Vec<IR>) -> String {
    JSCodegen::new("input", "output").generate(ir)
}

fn one_line(from: Ground, to: Ground) -> String {
    js(vec![IR::G2G(from, to)])
}

fn wrap(line: &str) -> String {
    format!("function(input) {{\n    {}\n    return output;\n}}", line)
}

#[test]
fn test_input_path() {
    let mut cg = JSCodegen::new("input", "output");
    cg.varstack = vec![
        Level::key("quux"),
        Level::var("obj0"),
        Level::arr("foo", "i"),
        Level::key("bar"),
    ];
    assert_eq!(cg.input_path(), "input.quux[i].bar")
}

#[test]
fn test_js_parse_int() {
    let code = JSCodegen::new("input", "output").generate(vec![IR::G2G(Ground::String, Ground::Num)]);
    assert_eq!(
        code,
        "\
function(input) {
    output = parseInt(input);
    return output;
}"
    )
}

#[test]
fn test_js_parse_int_in_obj() {
    let code = JSCodegen::new("input", "output").generate(vec![
        IR::PushObj,
        IR::PushKey("foo".to_string()),
        IR::G2G(Ground::String, Ground::Num),
        IR::PopKey,
        IR::PopObj,
    ]);
    assert_eq!(
        code,
        "\
function(input) {
    let obj0 = {};
    obj0.foo = parseInt(input.foo);
    output = obj0;
    return output;
}"
    )
}

#[test]
fn test_js_parse_int_in_array_in_obj() {
    let code = JSCodegen::new("input", "output").generate(vec![
        IR::PushObj,
        IR::PushKey("foo".to_string()),
        IR::PushArr,
        IR::G2G(Ground::String, Ground::Num),
        IR::PopArr,
        IR::PopKey,
        IR::PopObj,
    ]);
    assert_eq!(
        code,
        "\
function(input) {
    let obj0 = {};
    let arr1 = [];
    for (let idx2 = 0; idx2 < input.foo.length; idx2++) {
        arr1[idx2] = parseInt(input.foo[idx2]);
    }
    obj0.foo = arr1;
    output = obj0;
    return output;
}"
    )
}

#[test]
fn test_push_arr() {
    let code = JSCodegen::new("input", "output").generate(vec![
        IR::PushArr,
        IR::G2G(Ground::String, Ground::Num),
        IR::PopArr,
    ]);
    assert_eq!(
        code,
        "\
function(input) {
    let arr0 = [];
    for (let idx1 = 0; idx1 < input.length; idx1++) {
        arr0[idx1] = parseInt(input[idx1]);
    }
    output = arr0;
    return output;
}"
    )
}

#[test]
fn test_abs_key() {
    let code = JSCodegen::new("input", "output").generate(vec![
        IR::PushArr,
        IR::Abs("foo".to_string()),
        IR::PopArr,
    ]);
    assert_eq!(
        code,
        "\
function(input) {
    let arr0 = [];
    for (let idx1 = 0; idx1 < input.length; idx1++) {
        arr0[idx1] = {\"foo\": input[idx1] };
    }
    output = arr0;
    return output;
}"
    )
}

#[test]
fn test_del_key() {
    let code = JSCodegen::new("input", "output").generate(vec![IR::PushObj, IR::PopObj]);
    assert_eq!(
        code,
        "\
function(input) {
    let obj0 = {};
    output = obj0;
    return output;
}"
    )
}

#[test]
fn empty_program_has_an_empty_body() {
    assert_eq!(js(vec![]), "function(input) {\n\n    return output;\n}");
}

#[test]
fn names_of_parameter_and_result_are_used() {
    let code = JSCodegen::new("x", "y").generate(vec![IR::Copy]);
    assert_eq!(code, "function(x) {\n    y = structuredClone(x);\n    return y;\n}");
}

#[test]
fn coercion_table() {
    assert_eq!(one_line(Ground::Num, Ground::Bool), wrap("output = !(input === 0);"));
    assert_eq!(one_line(Ground::Bool, Ground::Num), wrap("output = input ? 0 : 1;"));
    assert_eq!(one_line(Ground::String, Ground::Num), wrap("output = parseInt(input);"));
    assert_eq!(one_line(Ground::String, Ground::Bool), wrap("output = !!(input);"));
    assert_eq!(one_line(Ground::Null, Ground::Num), wrap("output = 0;"));
    assert_eq!(one_line(Ground::Null, Ground::Bool), wrap("output = false;"));
    assert_eq!(one_line(Ground::Null, Ground::String), wrap("output = \"null\";"));
    assert_eq!(one_line(Ground::Num, Ground::String), wrap("output = input.toString();"));
    assert_eq!(one_line(Ground::Bool, Ground::String), wrap("output = input.toString();"));
    assert_eq!(one_line(Ground::String, Ground::String), wrap("output = input.toString();"));
    assert_eq!(one_line(Ground::Num, Ground::Null), wrap("output = null;"));
    assert_eq!(one_line(Ground::Bool, Ground::Null), wrap("output = null;"));
    assert_eq!(one_line(Ground::String, Ground::Null), wrap("output = null;"));
    assert_eq!(one_line(Ground::Null, Ground::Null), wrap("output = null;"));
}

#[test]
fn pairs_without_coercion_emit_nothing() {
    let empty = "function(input) {\n\n    return output;\n}";
    assert_eq!(one_line(Ground::Num, Ground::Num), empty);
    assert_eq!(one_line(Ground::Bool, Ground::Bool), empty);
}

#[test]
fn extraction_reads_the_property() {
    let code = js(vec![IR::Extr("foo".to_string())]);
    assert_eq!(code, wrap("output = input.foo;"));
}

#[test]
fn output_path_of_each_top_frame() {
    let mut cg = JSCodegen::new("input", "output");
    assert_eq!(cg.output_path(), "output");
    cg.varstack = vec![Level::var("obj0")];
    assert_eq!(cg.output_path(), "obj0");
    cg.varstack = vec![Level::var("obj0"), Level::key("foo")];
    assert_eq!(cg.output_path(), "obj0.foo");
    cg.varstack = vec![Level::key("foo")];
    assert_eq!(cg.output_path(), "output.foo");
    cg.varstack = vec![Level::var("obj0"), Level::arr("arr1", "idx2")];
    assert_eq!(cg.output_path(), "arr1[idx2]");
}

#[test]
fn ground_to_ground_uses_both_paths() {
    let mut cg = JSCodegen::new("input", "output");
    cg.varstack = vec![Level::var("obj0"), Level::key("foo")];
    assert_eq!(
        cg.generate_ground_to_ground(Ground::Num, Ground::Bool),
        Some("obj0.foo = !(input.foo === 0);".to_string())
    );
    assert_eq!(cg.generate_ground_to_ground(Ground::Num, Ground::Num), None);
}

#[test]
fn nested_arrays_count_names_upward() {
    let code = js(vec![
        IR::PushArr,
        IR::PushArr,
        IR::Copy,
        IR::PopArr,
        IR::PopArr,
    ]);
    assert_eq!(
        code,
        "\
function(input) {
    let arr0 = [];
    for (let idx1 = 0; idx1 < input.length; idx1++) {
        let arr2 = [];
        for (let idx3 = 0; idx3 < input[idx1].length; idx3++) {
            arr2[idx3] = structuredClone(input[idx1][idx3]);
        }
        arr0[idx1] = arr2;
    }
    output = arr0;
    return output;
}"
    )
}

#[test]
fn counter_past_nine_has_two_digits() {
    let mut ir = Vec::new();
    for _ in 0..6 {
        ir.push(IR::PushObj);
    }
    for _ in 0..6 {
        ir.push(IR::PopObj);
    }
    let code = js(ir);
    assert!(code.contains("let obj5 = {};"));
    let mut ir = Vec::new();
    for _ in 0..6 {
        ir.push(IR::PushArr);
    }
    for _ in 0..6 {
        ir.push(IR::PopArr);
    }
    let code = js(ir);
    assert!(code.contains("let arr10 = [];"));
    assert!(code.contains("idx11++"));
}

#[test]
fn level_names() {
    assert_eq!(Level::var("a").name(), "a");
    assert_eq!(Level::key("k").name(), "k");
    assert_eq!(Level::arr("arr0", "idx1").name(), "arr0");
}
