use esstra::format::{escape_for_asm, process_data_for_asm, ESSTRA_TOOL_NAME};
use esstra::format::deps_file::{deps_to_json, deps_from_json, aggregate_deps, sidecar_file_name, EsstraDepsData};
use esstra::format::yaml::{make_esstra_yaml, SourceInput};

#[test]
fn test_escape_for_asm() {
    let data = "\tescape\n\\\"me\\\"";
    // Do not escape \n because `escape_for_asm` expects one-line string
    assert_eq!(escape_for_asm(data), "\\tescape\n\\\\\\\"me\\\\\\\"");
}

// Simply check that the assembly embedding will work correctly
#[test]
fn validate_asm() {
    let listing = process_data_for_asm("line1\nline2");
    assert_eq!(
        listing,
        "\t.pushsection .esstra\n\t.ascii \"line1\\n\"\n\t.ascii \"line2\\n\"\n\t.popsection\n"
    );
}

#[test]
fn escape_one_line_payload() {
    let listing = process_data_for_asm("a\"b\\c\td");
    assert_eq!(
        listing,
        "\t.pushsection .esstra\n\t.ascii \"a\\\"b\\\\c\\td\\n\"\n\t.popsection\n"
    );
}

#[test]
fn sidecar_round_trip_leaf() {
    let leaf = EsstraDepsData {
        name: "leaf".to_string(),
        version: "1.0.0".to_string(),
        deps: Vec::new(),
    };
    let json = deps_to_json(&leaf);
    assert_eq!(json, "{\"name\":\"leaf\",\"version\":\"1.0.0\",\"deps\":[]}");
    let back = deps_from_json(&json).expect("parses");
    assert_eq!(back.name, "leaf");
    assert_eq!(back.version, "1.0.0");
    assert_eq!(back.deps.len(), 0);
}

#[test]
fn aggregate_root_over_leaf() {
    let leaf = deps_from_json("{\"name\":\"leaf\",\"version\":\"1.0.0\",\"deps\":[]}").unwrap();
    let root = aggregate_deps("root".to_string(), "2.0.0".to_string(), vec![Some(leaf)]);
    assert_eq!(
        deps_to_json(&root),
        "{\"name\":\"root\",\"version\":\"2.0.0\",\"deps\":[{\"name\":\"leaf\",\"version\":\"1.0.0\",\"deps\":[]}]}"
    );
}

#[test]
fn aggregate_missing_dependency_skipped() {
    let b = EsstraDepsData {
        name: "B".to_string(),
        version: "1".to_string(),
        deps: vec![EsstraDepsData {
            name: "D".to_string(),
            version: "1".to_string(),
            deps: Vec::new(),
        }],
    };
    let a = aggregate_deps("A".to_string(), "1".to_string(), vec![Some(b), None]);
    assert_eq!(a.deps.len(), 1);
    assert_eq!(a.deps[0].name, "B");
    assert_eq!(a.deps[0].deps[0].name, "D");
}

#[test]
fn sidecar_name_normalizes_hyphens() {
    assert_eq!(sidecar_file_name("my-crate"), "my_crate.esstra-deps.json");
}

#[test]
fn generated_yaml_validation() {
    let files = vec![
        SourceInput { path: "examples/clang/multiple_files/main.c".to_string(), sha1: None },
        SourceInput { path: "examples/clang/multiple_files/add.c".to_string(), sha1: None },
    ];
    let data = make_esstra_yaml("examples/clang/multiple_files/main.c", &files);
    let doc: serde_yaml::Value = serde_yaml::from_str(&data).unwrap();
    assert_eq!(doc["Headers"]["ToolName"].as_str().unwrap(), ESSTRA_TOOL_NAME);
    assert_eq!(
        doc["SourceFiles"][0]["Directory"].as_str().unwrap(),
        "examples/clang/multiple_files"
    );
}
